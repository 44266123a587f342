//! Graph data types.

pub mod changes;
pub mod connection;
pub mod edge;
pub mod handle;
pub mod ids;
pub mod node;
pub mod position;
pub mod viewport;

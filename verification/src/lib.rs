//! An interactive node-graph editor model: nodes, edges, handles, and the
//! declarative change operations that edit them, with their contracts proved.

pub mod canvas;
pub mod drag;
pub mod render;
pub mod selection;
pub mod state;
pub mod types;

//! Graph state maintenance: applying changes and querying nodes.

pub mod changes;
pub mod graph;
pub mod handle_layout;
pub mod lookup;

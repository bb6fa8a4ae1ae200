//! Event selection for a workplace simulation: a content store of
//! situations, fixed events and parameters, and a selector that picks the
//! event of a given day.

pub mod model;
pub mod content;
pub mod selector;
pub mod laws;

//! Verified core of the flowmaid web bindings: JSON framing of swimlane
//! layouts, the interactive drag API's decisions, and the engine version
//! lookup, with the diagram engine itself called through trusted items.

pub mod text;
pub mod json;
pub mod engine;
pub mod diagram;
pub mod scene;
pub mod lockfile;
pub mod json_value;

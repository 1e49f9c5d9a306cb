//! The logic of a terminal hex editor: files and the bytes in them, what is shown and selected,
//! editing with undo and redo, named fields, searching, entropy, and a Python console. Keys,
//! mouse events, and outcomes of work done elsewhere come in as plain values; what is to be done
//! elsewhere goes out as plain values.

pub mod app;
pub mod codec;
pub mod dialog;
pub mod editing;
pub mod effects;
pub mod entropy;
pub mod geometry;
pub mod input;
pub mod laws;
pub mod model;
pub mod modes;
pub mod numbers;
pub mod python;
pub mod rows;
pub mod search;
pub mod selection;
pub mod system;
pub mod text;
pub mod workspace;

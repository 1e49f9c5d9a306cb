//! What the operations are for: what each leaves behind, in terms of what was there before.

pub mod annotating;
pub mod console;
pub mod files;
pub mod finding;
pub mod saving;
pub mod selecting;
pub mod typing;
pub mod viewing;

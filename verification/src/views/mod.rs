//! What is shown of a dependency.

pub mod actions;
pub mod diagnostics;
pub mod hover;
pub mod inlay;
pub mod util;

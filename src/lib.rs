pub mod format;
pub mod laws;

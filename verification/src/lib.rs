pub mod buffer;
pub mod editor;
pub mod laws;
pub mod text;

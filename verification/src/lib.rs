//! Interactive project scaffolding: template selection, placeholder
//! rendering, and the file-generation plan, all stated and verified here.
//! The thin I/O shell (prompts, filesystem, terminal styling) lives outside
//! the library and only executes what the plan describes.
pub mod cli;
pub mod laws;
pub mod plan;
pub mod project;
pub mod render;
pub mod text;
pub mod views;

//! Projects of URLs, files and folders that open together: the data model,
//! its editing rules and the decisions of the launcher.
pub mod text;
pub mod model;
pub mod color;
pub mod launcher;
pub mod editor;
pub mod app;

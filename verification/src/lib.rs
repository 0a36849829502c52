pub mod text;
pub mod json;
pub mod model;
pub mod fetch;
pub mod helpers;
pub mod pane;
pub mod app;
pub mod tree;
pub mod laws;
pub mod render;

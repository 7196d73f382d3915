//! A collaboratively edited markdown wiki: page-path validation, the content
//! tree and its navigation document, and the single-writer mutation pipeline
//! that keeps page files, navigation, history and the rendered site in step.

pub mod actor;
pub mod config;
pub mod forms;
pub mod names;
pub mod path;
pub mod plan;
pub mod response;
pub mod summary;
pub mod tree;

pub mod error;
pub mod ids;
pub mod measure;
pub mod model;
pub mod ops;
pub mod package;
pub mod text;
pub mod pptx;
pub mod document;
pub mod commands;
pub mod laws;
pub mod operation_laws;

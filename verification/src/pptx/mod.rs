pub mod export;
pub mod package;
pub mod paths;
pub mod relationships;
pub mod tex_export;
pub mod xml;
pub mod xml_text;
pub mod slide_parser;
pub mod import;
pub mod exporter;
pub mod tex_render;
pub mod embedded_json;

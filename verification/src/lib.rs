//! ZeroEffortDocs: document templates with `{{placeholders}}`, the documents
//! filled from them, and the `.docx` files they are read from and written to.

pub mod error;
pub mod model;
pub mod text;
pub mod text_facts;

pub mod escaping;
pub mod json;
pub mod marks;
pub mod paragraph_facts;
pub mod paragraphs;

pub mod archive;
pub mod docx;
pub mod extract;
pub mod xmlread;

pub mod export;
pub mod layout;
pub mod layout_facts;
pub mod preview;

pub mod api;
pub mod db;
pub mod documents;
pub mod files;
pub mod modules;
pub mod printjob;
pub mod templates;
pub mod web;

pub use error::AppError;

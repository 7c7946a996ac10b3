//! Link checking for Markdown documents.

pub mod check;
pub mod extract;
pub mod laws;
pub mod order;
pub mod report;
pub mod scan;
pub mod text;
pub mod urls;

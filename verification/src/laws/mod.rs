//! What holds of the library as a whole.

pub mod document;
pub mod entries;
pub mod extracted;
pub mod forms;
pub mod lines;
pub mod output;
pub mod replies;
pub mod report;
pub mod run;
pub mod scan;
pub mod text;
pub mod urls;
pub mod views;

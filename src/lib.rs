//! Batch generation of documents from a zipped template, and the reading of
//! zipped spreadsheets into sparse row/column tables.
pub mod text;
pub mod cells;
pub mod dates;
pub mod error;
pub mod substitution;
pub mod tokens;
pub mod archive;
pub mod values;
pub mod docx;
pub mod xlsx;

//! Multi-file paste engine: the index document format, file selection,
//! line numbering, output naming and the composition of backend capabilities.

pub mod text;
pub mod url;
pub mod files;
pub mod error;
pub mod index;
pub mod select;
pub mod display;
pub mod engine;
pub mod output;

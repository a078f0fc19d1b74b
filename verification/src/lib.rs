//! Color-literal detection for Bevy source files, with the position and
//! caching logic of a `textDocument/documentColor` language server.
pub mod color;
pub mod detectors;
pub mod document;
pub mod error;
pub mod extension;
pub mod literal;
pub mod num;
pub mod parser;
pub mod position;
pub mod text;

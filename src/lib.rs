//! Parsing of subtitle files made of numbered, timestamped caption blocks.
pub mod caption;
pub mod document;
pub mod encode;
pub mod error;
pub mod laws;
pub mod parser;
pub mod text;
pub mod timestamp;

pub use caption::{Caption, CaptionBuilder};
pub use document::SRTFile;
pub use error::SrtError;
pub use parser::{ParserState, Stage};
pub use timestamp::{decode, Duration};

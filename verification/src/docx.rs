//! What a WordprocessingML document says about its own structure.

pub mod contents;
pub mod numbering;
pub mod paragraphs;
pub mod pictures;
pub mod runs;
pub mod structure;
pub mod tables;

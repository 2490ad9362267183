//! Verified readers for the binary and packaged document formats that office suites write.

pub mod biff;
pub mod bookmark_pairs;
pub mod bytes;
pub mod cfb;
pub mod codepage;
pub mod comment_threads;
pub mod comments;
pub mod dates;
pub mod document;
pub mod docx;
pub mod entries;
pub mod equations;
pub mod formula_elems;
pub mod identify;
pub mod keep_switches;
pub mod languages;
pub mod line_spacing;
pub mod lists;
pub mod markdown;
pub mod note_settings;
pub mod numfmt;
pub mod odf;
pub mod odfchart;
pub mod odsheet;
pub mod odstyle;
pub mod office_info;
pub mod order;
pub mod paper;
pub mod rtf;
pub mod text;
pub mod words;
pub mod written;
pub mod xml;

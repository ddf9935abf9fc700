//! Freedesktop helpers: an INI-like parser, XDG base directories and the
//! resolution of the default application for a MIME type.

pub mod mimeapps;
pub mod parser;
pub mod reader;
pub mod seqs;
pub mod text;
pub mod util;
pub mod xdg;

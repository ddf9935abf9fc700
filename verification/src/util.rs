//! Small general-purpose helpers.

pub mod bytes;
pub mod decimal;
pub mod either;
pub mod path;
pub mod strings;

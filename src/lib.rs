//! A schema-driven validator for line-oriented, keyword-prefixed text files.
//!
//! A schema declares, for each keyword, the shape of its lines' bodies and
//! how often it may appear. Validating a file strips each line's comment,
//! splits it into tokens, matches its first token against the schema, checks
//! the body's length, collects the body per keyword and finally checks every
//! keyword's count. Failures are structured diagnostics.
pub mod ansi;
pub mod diag;
pub mod file;
pub mod format;
pub mod ivec;
pub mod line;
pub mod num;
pub mod occurrence;
pub mod rule;
pub mod text;
pub mod ux;

pub use ansi::{remove, rgb};
pub use diag::{construct_range, n_to_padding, padding, underline, ErrorKind, Line, ParseFileError, Wrong};
pub use file::{get_line, parse, FileData, FileDataKey, KeyData, SpofedFile};
pub use format::{ExpectedSize, Format, Size};
pub use ivec::IVec;
pub use line::{FoundLine, ParsedLine};
pub use num::{digits, NumArr, Sign, Signed, Unsigned};
pub use occurrence::{Occurence, Occurrence};
pub use rule::{ExpectedLine, Keyword, Rule};
pub use ux::AskKey;
pub use text::{decimal, is_white, pre_parse, split_tokens};

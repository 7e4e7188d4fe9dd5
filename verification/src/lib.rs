//! Scanners for the literal tokens of a configuration language: numeric
//! literals kept as arbitrary-precision text, quoted strings with escape
//! sequences, and heredocs with an optional dedent transform.
//!
//! Every scanner is a pure function over a complete input slice. On success
//! it returns the decoded value together with the unconsumed remainder; on
//! failure it reports either a recoverable mismatch (another alternative may
//! be tried at the same position) or a hard failure (the alternative was
//! committed to and then proved invalid), carrying a diagnostic trail.

pub mod bytes;
pub mod errors;
pub mod escape;
pub mod heredoc;
pub mod number;
pub mod string;
pub mod text;

pub use bytes::{number_bytes, string_bytes};
pub use errors::{ErrorKind, FailureClass, ScanError, TrailEntry};
pub use escape::{hex_to_string, is_hex_digit, is_oct_digit, octal_to_string, unescape};
pub use heredoc::{heredoc_begin, heredoc_end, heredoc_string, unindent_heredoc, HereDoc};
pub use number::{number, Number, NumberError};
pub use string::{
    legal_string_literal_character, legal_string_literal_single_line_character,
    multiline_string_content, quoted_string, string, string_literal, string_literal_content,
    StringLiteral,
};

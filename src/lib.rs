//! Synchronises one attribute (the value field) between two XML documents of
//! the same shape, keyed by a path built from tag names and, optionally, the
//! value of a second attribute (the sort field).

mod config;
mod extract;
mod files;
mod path;
mod rewrite;
mod text;
mod token;

pub use config::{parse_config_file, split_text, Config, ConfigError};
pub use extract::{extract, extract_records, is_ignored, Record, RecordView};
pub use files::{create_file, load_file, write_on_file};
pub use path::{Frame, FrameView, PathTracker};
pub use rewrite::{find_replacement, line_terminator_of, rewrite, rewrite_tokens};
pub use text::is_substring;
pub use token::{tokenize, ElementEnd, EndView, ExchangeError, Token, TokenView};

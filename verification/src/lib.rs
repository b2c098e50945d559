use vstd::prelude::*;

pub mod editor;
pub mod encoding;
pub mod errors;
pub mod file_handler;
pub mod file_reader;
pub mod find;
pub mod line_indexer;
pub mod pattern;
pub mod replacer;
pub mod search;
pub mod session;
pub mod search_engine;

pub use encoding::{detect_encoding, available_encodings, EncodingId};
pub use editor::Editor;
pub use errors::CoreError;
pub use file_handler::FileHandler;
pub use file_reader::FileReader;
pub use line_indexer::LineIndexer;
pub use replacer::{Replacer, ReplaceMessage, is_utf8_char_boundary};
pub use search::{SearchEngine, SearchResult};


//! Mutable-text core of a document editor: a piece-indexed text store with
//! cached line indexing and a bounded, merging undo/redo history.
//!
//! - [`text`] is the model everything is stated over: a document is a
//!   sequence of characters, an edit a splice of it, a line the stretch
//!   between two terminators.
//! - [`piece_tree`] is the text store, [`undo_redo`] the history manager, and
//!   [`session`] the two together; [`history_laws`] holds what is proved of
//!   the history across steps.
//! - [`api`] is what a host application calls.
//! - [`line_breaking`] and [`line_layout`] break text into lines and describe
//!   them, and [`ooxml`] reads word-processor packages and hands what it read
//!   over as segments for a session to load; they read the core or feed it
//!   and never change it.
//!
//! Positions and lengths count characters throughout.

pub mod api;
pub mod error;
pub mod history_laws;
pub mod line_breaking;
pub mod line_layout;
pub mod ooxml;
pub mod piece_tree;
pub mod session;
pub mod text;
pub mod undo_redo;

pub use api::{
    create_empty_document, delete_text, get_full_text, get_line_content, get_line_count,
    get_sample_document, get_text_range, hello_velum, insert_text, multiply, redo, undo,
};
pub use error::CommandError;
pub use line_breaking::{BreakType, Line, LineBreaker};
pub use piece_tree::{BufferId, Piece, PieceTree, TextAttributes, TextSegment};
pub use session::Session;
pub use undo_redo::{
    Command, CommandMetadata, CommandRecord, DeleteCommand, InsertCommand, OperationType,
    UndoRedoManager, DEFAULT_MAX_HISTORY_SIZE, DEFAULT_MERGE_WINDOW_MS,
};

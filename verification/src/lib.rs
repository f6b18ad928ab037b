//! Core of a small terminal text editor: a grapheme-aware line type,
//! a document made of such lines, and the cursor / viewport / key
//! dispatch state machine that drives edits.
pub mod document;
pub mod editor;
pub mod row;

pub use document::Document;
pub use editor::Editor;
pub use editor::Key;
pub use editor::Position;
pub use editor::PromptStep;
pub use editor::Status;
pub use row::Row;

//! Core of a modal terminal text editor: a line-oriented text buffer with
//! verified splice semantics, and the editor state machine (modes, cursor
//! movement, multi-buffer management) built on top of it.

pub mod buffer;
pub mod command;
pub mod cursor;
pub mod editor;
pub mod errors;
pub mod position;
pub mod text;

pub use buffer::Buffer;
pub use command::CommandEvent;
pub use command::CommandKind;
pub use command::CommandLine;
pub use cursor::Cursor;
pub use editor::Editor;
pub use editor::EditorMode;
pub use editor::Key;
pub use errors::BufferError;
pub use errors::EditorError;
pub use position::Position;
pub use position::Range;

//! Layout core of a multi-line text-editing widget: maps rows of text, a
//! cursor and scroll offsets onto a rectangle of terminal cells, with optional
//! soft wrapping and a line-number gutter, and maps pointer positions back to
//! positions in the text.
pub mod viewport;
pub mod width;
pub mod wrap;
pub mod textarea;
pub mod laws;

pub use textarea::{DisplayLine, Key, Rect, TextArea};
pub use viewport::Viewport;

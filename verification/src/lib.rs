//! Core of a terminal speed reader: it turns rendered text blocks into an
//! addressable coordinate space of sections, lines and words, supports
//! bidirectional movement through that space, keeps the word under the cursor
//! stable across rendering-width changes, resolves positions against a table
//! of contents, and round-trips reading positions through a persisted record.

pub mod digits;
pub mod doc;
pub mod line;
pub mod reader;
pub mod render;
pub mod section;
pub mod state;
pub mod text;
pub mod toc;

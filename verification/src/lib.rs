//! Canonicalizes the visual layout of a Markdown document: consistent
//! blank-line placement around block elements, canonical list markers and
//! numbering, and consistent inline spacing between CJK text, ASCII tokens
//! and inline code spans.
pub mod blocks;
pub mod chars;
pub mod laws;
pub mod listitem;
pub mod lists;
pub mod pipeline;
pub mod spacing;
pub mod state;
pub mod text;

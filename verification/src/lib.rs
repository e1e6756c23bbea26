//! A book reader's core: chapters read from HTML and cut into pages, and the
//! state of the reader that navigates, edits and searches them.
pub mod chapter;
pub mod commands;
pub mod constants;
pub mod ebook;
pub mod ebook_mod;
pub mod laws;
pub mod search;
pub mod text;
pub mod toolbar;

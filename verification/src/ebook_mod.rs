//! The first version of the reader: a book read page by page from the
//! epub's documents, with the formatting taken from their markup.
pub mod rendering;
pub mod implementation;
pub mod search;
pub mod widget;
pub mod export;

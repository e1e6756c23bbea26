//! Constants shared by the reader: page size, navigation directions, jump
//! kinds, loading kinds and languages.
use vstd::prelude::*;

verus! {

/// Number of elements (headers and paragraphs) that fill one page.
pub const ELEMENTS_IN_PAGE: usize = 10;

/// Scroll towards the next page or chapter.
pub const GO_NEXT: u8 = 0;

/// Scroll towards the previous page or chapter.
pub const GO_PREV: u8 = 1;

/// Jump asked by the "Go to" button, to the number in the cursor box.
pub const JUMP_BY_BUTTON: u8 = 0;

/// Jump after a search in the text bar.
pub const JUMP_BY_BAR_SEARCH: u8 = 1;

/// Jump after a search from a photographed page.
pub const JUMP_BY_OCR_SEARCH: u8 = 2;

/// The file being opened is an epub book.
pub const EPUB_LOADING: u8 = 0;

/// The file being opened is a photo of a paper page.
pub const IMAGE_LOADING: u8 = 1;

/// Language code of Italian books.
pub const ITALIAN: &'static str = "it";

/// Language code of English books.
pub const ENGLISH: &'static str = "en";

/// The empty string.
pub const EMPTY_STRING: &'static str = "";

/// Number of colours that successive searches cycle through.
pub const COLORS_AVAILABLE: usize = 5;

} // verus!

//! What the buttons of the line-based reader do to it, and how they are
//! labelled and enabled.
use vstd::prelude::*;

use super::implementation::{BookState, ReaderView, EDIT_MODE, HELP_MODE, IDLE, READ_MODE};

verus! {

/// The state after the Edit/Read button is pressed: with a book open,
/// reading and editing swap; other views stay.
pub open spec fn edit_clicked(b: ReaderView) -> ReaderView {
    if b.epub_is_open && b.current_view == READ_MODE {
        ReaderView { current_view: EDIT_MODE, ..b }
    } else if b.epub_is_open && b.current_view == EDIT_MODE {
        ReaderView { current_view: READ_MODE, ..b }
    } else {
        b
    }
}

/// The state after the About button is pressed: the help page opens from
/// any other view, and from the help page the reader goes back to reading
/// when a book is open, else to the empty view.
pub open spec fn about_clicked(b: ReaderView) -> ReaderView {
    if b.current_view == EDIT_MODE || b.current_view == READ_MODE || b.current_view == IDLE {
        ReaderView { ultimate_view: b.current_view, current_view: HELP_MODE, ..b }
    } else if b.current_view == HELP_MODE {
        let back = if b.epub_is_open {
            READ_MODE
        } else {
            IDLE
        };
        ReaderView { ultimate_view: b.current_view, current_view: back, ..b }
    } else {
        b
    }
}

/// Reacts to the Edit/Read button, as `edit_clicked` says.
pub fn edit_click(book: &mut BookState)
    ensures
        final(book)@ == edit_clicked(old(book)@),
{
    if book.is_open() {
        if book.current_view() == READ_MODE {
            book.set_current_view(EDIT_MODE);
        } else if book.current_view() == EDIT_MODE {
            book.set_current_view(READ_MODE);
        }
    }
}

/// Reacts to the About button, as `about_clicked` says.
pub fn about_click(book: &mut BookState)
    ensures
        final(book)@ == about_clicked(old(book)@),
{
    let v = book.current_view();
    if v == EDIT_MODE || v == READ_MODE || v == IDLE {
        book.swap_view(HELP_MODE);
    } else if v == HELP_MODE {
        if book.is_open() {
            book.swap_view(READ_MODE);
        } else {
            book.swap_view(IDLE);
        }
    }
}

/// Before a file is chosen to be opened, nothing is shown.
pub fn open_click(book: &mut BookState)
    ensures
        final(book)@ == (ReaderView { current_view: IDLE, ..old(book)@ }),
{
    book.set_current_view(IDLE);
}

/// The label of the Edit/Read button.
pub fn edit_label(view: u8) -> (label: &'static str)
    ensures
        label@ == (if view == READ_MODE || view == IDLE {
            "Edit Book"@
        } else {
            "Read Book"@
        }),
{
    if view == READ_MODE || view == IDLE {
        "Edit Book"
    } else {
        "Read Book"
    }
}

/// The search by photo works only in reading mode (and in views the reader
/// does not name).
pub fn ocr_disabled(view: u8) -> (d: bool)
    ensures
        d == (view == EDIT_MODE || view == HELP_MODE || view == IDLE),
{
    view == EDIT_MODE || view == HELP_MODE || view == IDLE
}

/// Saving works only in editing mode (and in views the reader does not
/// name).
pub fn save_disabled(view: u8) -> (d: bool)
    ensures
        d == (view == READ_MODE || view == IDLE || view == HELP_MODE),
{
    view == READ_MODE || view == IDLE || view == HELP_MODE
}

/// The Edit/Read button and the jump button are off where nothing is read.
pub fn edit_disabled(view: u8) -> (d: bool)
    ensures
        d == (view == IDLE || view == HELP_MODE),
{
    view == IDLE || view == HELP_MODE
}

/// The text search works only in reading mode with something to look for.
pub fn search_disabled(view: u8, bar_text_empty: bool) -> (d: bool)
    ensures
        d == (view != READ_MODE || bar_text_empty),
{
    view != READ_MODE || bar_text_empty || view == EDIT_MODE || view == IDLE || view == HELP_MODE
}

/// The next-page button is off on the last page and where nothing is read.
pub fn next_disabled(page: i32, total: i32, view: u8) -> (d: bool)
    ensures
        d == (page == total || view == IDLE || view == HELP_MODE),
{
    page == total || view == IDLE || view == HELP_MODE
}

/// The previous-page button is off on page 1 and where nothing is read.
pub fn previous_disabled(page: i32, view: u8) -> (d: bool)
    ensures
        d == (page == 1 || view == IDLE || view == HELP_MODE),
{
    page == 1 || view == IDLE || view == HELP_MODE
}

/// About twice, from reading or editing, with a book open, leads to reading.
pub proof fn law_about_twice(b: ReaderView)
    requires
        b.epub_is_open,
        b.current_view == READ_MODE || b.current_view == EDIT_MODE,
    ensures
        about_clicked(about_clicked(b)).current_view == READ_MODE,
        about_clicked(about_clicked(b)).ultimate_view == HELP_MODE,
{
}

/// Edit/Read twice, with a book open in reading or editing, changes nothing.
pub proof fn law_edit_twice(b: ReaderView)
    requires
        b.epub_is_open,
        b.current_view == READ_MODE || b.current_view == EDIT_MODE,
    ensures
        edit_clicked(edit_clicked(b)) == b,
{
}

} // verus!

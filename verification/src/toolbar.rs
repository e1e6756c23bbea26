//! What the toolbar's buttons do to the reader and how they are labelled and
//! enabled.
use vstd::prelude::*;

use crate::ebook::{BookState, BookView, ViewState};
use crate::text::decimal;

verus! {

/// The state after the Read/Edit button is pressed: with a book open, reading
/// and editing swap, and from the help page the reader goes back to the view
/// it came from; the cursor then shows the current page (reading) or chapter
/// (editing).
pub open spec fn read_edit_clicked(b: BookView) -> BookView {
    if !b.epub_open {
        b
    } else {
        let target = if b.current_view == ViewState::ReadMode {
            ViewState::EditMode
        } else if b.current_view == ViewState::EditMode {
            ViewState::ReadMode
        } else {
            b.ultimate_view
        };
        let b1 = BookView { ultimate_view: b.current_view, current_view: target, ..b };
        if target == ViewState::EditMode {
            BookView { cursor: decimal(b.current_chap as int), ..b1 }
        } else if target == ViewState::ReadMode {
            BookView { cursor: decimal(b.current_page as int), ..b1 }
        } else {
            b1
        }
    }
}

/// The Read/Edit button never leads to a view it has no transition for.
pub open spec fn can_read_edit(b: BookView) -> bool {
    b.epub_open ==> (b.current_view != ViewState::Idle && !(b.current_view == ViewState::HelpMode
        && b.ultimate_view == ViewState::HelpMode))
}

/// The state after the Help button is pressed: the help page opens, or, from
/// the help page, the reader goes back to the view it came from.
pub open spec fn help_clicked(b: BookView) -> BookView {
    let target = if b.current_view == ViewState::HelpMode {
        b.ultimate_view
    } else {
        ViewState::HelpMode
    };
    BookView { ultimate_view: b.current_view, current_view: target, ..b }
}

/// Reacts to the Read/Edit button, as `read_edit_clicked` says.
#[allow(non_snake_case)]
pub fn readEditClick(bookState: &mut BookState)
    requires
        can_read_edit(old(bookState)@),
    ensures
        final(bookState)@ == read_edit_clicked(old(bookState)@),
{
    if bookState.getEpubOpen() {
        match bookState.getCurrentView() {
            ViewState::ReadMode => {
                bookState.setCurrentView(ViewState::EditMode);
                let c = bookState.getCurrentChap();
                bookState.setCursor(c);
            },
            ViewState::EditMode => {
                bookState.setCurrentView(ViewState::ReadMode);
                let p = bookState.getCurrentPage();
                bookState.setCursor(p);
            },
            ViewState::HelpMode => {
                match bookState.getUltimateView() {
                    ViewState::ReadMode => {
                        bookState.setCurrentView(ViewState::ReadMode);
                        let p = bookState.getCurrentPage();
                        bookState.setCursor(p);
                    },
                    ViewState::EditMode => {
                        bookState.setCurrentView(ViewState::EditMode);
                        let c = bookState.getCurrentChap();
                        bookState.setCursor(c);
                    },
                    ViewState::HelpMode => {},
                    ViewState::Idle => bookState.setCurrentView(ViewState::Idle),
                }
            },
            ViewState::Idle => {},
        }
    }
}

/// Reacts to the Help button, as `help_clicked` says.
#[allow(non_snake_case)]
pub fn helperClick(bookState: &mut BookState)
    requires
        !(old(bookState)@.current_view == ViewState::HelpMode && old(bookState)@.ultimate_view
            == ViewState::HelpMode),
    ensures
        final(bookState)@ == help_clicked(old(bookState)@),
{
    match bookState.getCurrentView() {
        ViewState::ReadMode => bookState.setCurrentView(ViewState::HelpMode),
        ViewState::EditMode => bookState.setCurrentView(ViewState::HelpMode),
        ViewState::HelpMode => {
            match bookState.getUltimateView() {
                ViewState::ReadMode => bookState.setCurrentView(ViewState::ReadMode),
                ViewState::EditMode => bookState.setCurrentView(ViewState::EditMode),
                ViewState::HelpMode => {},
                ViewState::Idle => bookState.setCurrentView(ViewState::Idle),
            }
        },
        ViewState::Idle => bookState.setCurrentView(ViewState::HelpMode),
    }
}

/// Pressing Help twice, from any view but the help page, brings the reader
/// back to the view it was in.
pub proof fn law_help_twice(b: BookView)
    requires
        b.current_view != ViewState::HelpMode,
    ensures
        help_clicked(help_clicked(b)).current_view == b.current_view,
        help_clicked(help_clicked(b)) == (BookView { ultimate_view: ViewState::HelpMode, ..b }),
{
}

/// Going to editing and back to reading with the Read/Edit button leaves the
/// reader on the page it was on, with the cursor showing that page (and
/// editing remembered as the view before).
pub proof fn law_edit_and_back(b: BookView)
    requires
        b.epub_open,
        b.current_view == ViewState::ReadMode,
    ensures
        read_edit_clicked(read_edit_clicked(b)) == (BookView {
            cursor: decimal(b.current_page as int),
            ultimate_view: ViewState::EditMode,
            ..b
        }),
{
}

/// The label of the Read/Edit button.
#[allow(non_snake_case)]
pub fn readEditLabel(view: ViewState) -> (label: &'static str)
    ensures
        label@ == (if view == ViewState::ReadMode {
            "Edit"@
        } else {
            "Read"@
        }),
{
    match view {
        ViewState::ReadMode => "Edit",
        ViewState::EditMode => "Read",
        ViewState::Idle => "Read",
        ViewState::HelpMode => "Read",
    }
}

/// The count shown after the cursor box: pages in reading mode, and in the
/// help page coming from a view that shows neither; chapters otherwise.
pub open spec fn total_shown(b: BookView) -> i32 {
    if b.current_view == ViewState::ReadMode {
        b.tot_pages
    } else if b.current_view == ViewState::HelpMode && (b.ultimate_view == ViewState::HelpMode
        || b.ultimate_view == ViewState::Idle) {
        b.tot_pages
    } else {
        b.tot_chaps
    }
}

/// The count shown after the cursor box.
#[allow(non_snake_case)]
pub fn totalPagesLabel(bookState: &BookState) -> (n: i32)
    ensures
        n == total_shown(bookState@),
{
    match bookState.getCurrentView() {
        ViewState::ReadMode => bookState.getTotalPages(),
        ViewState::EditMode => bookState.getTotalChaps(),
        ViewState::Idle => bookState.getTotalChaps(),
        ViewState::HelpMode => {
            match bookState.getUltimateView() {
                ViewState::ReadMode => bookState.getTotalChaps(),
                ViewState::EditMode => bookState.getTotalChaps(),
                ViewState::HelpMode => bookState.getTotalPages(),
                ViewState::Idle => bookState.getTotalPages(),
            }
        },
    }
}

/// The jump button goes to a chapter in editing mode (also when the help
/// page was opened from it) and to a page otherwise.
pub open spec fn jumps_to_chapter(view: ViewState, ultimate: ViewState) -> bool {
    view == ViewState::EditMode || (view == ViewState::HelpMode && ultimate == ViewState::EditMode)
}

/// The label of the jump button.
#[allow(non_snake_case)]
pub fn jumpLabel(view: ViewState, ultimate: ViewState) -> (label: &'static str)
    requires
        !(view == ViewState::HelpMode && ultimate == ViewState::HelpMode),
    ensures
        label@ == (if jumps_to_chapter(view, ultimate) {
            "Go to Chapter"@
        } else {
            "Go to Page"@
        }),
{
    match view {
        ViewState::ReadMode => "Go to Page",
        ViewState::EditMode => "Go to Chapter",
        ViewState::Idle => "Go to Page",
        ViewState::HelpMode => {
            match ultimate {
                ViewState::ReadMode => "Go to Page",
                ViewState::EditMode => "Go to Chapter",
                ViewState::HelpMode => "Go to Page",
                ViewState::Idle => "Go to Page",
            }
        },
    }
}

/// The save button works only in editing mode.
#[allow(non_snake_case)]
pub fn saveDisabled(view: ViewState) -> (d: bool)
    ensures
        d == (view != ViewState::EditMode),
{
    view == ViewState::ReadMode || view == ViewState::Idle || view == ViewState::HelpMode
}

/// The Read/Edit button is off when nothing is open, and on the help page
/// without a book.
#[allow(non_snake_case)]
pub fn readEditDisabled(view: ViewState, epubOpen: bool) -> (d: bool)
    ensures
        d == (view == ViewState::Idle || (view == ViewState::HelpMode && !epubOpen)),
{
    view == ViewState::Idle || (view == ViewState::HelpMode && epubOpen == false)
}

/// The previous-page button is off on page 1 and where nothing is read.
#[allow(non_snake_case)]
pub fn previousDisabled(page: i32, view: ViewState) -> (d: bool)
    ensures
        d == (page == 1 || view == ViewState::Idle || view == ViewState::HelpMode),
{
    page == 1 || view == ViewState::Idle || view == ViewState::HelpMode
}

/// The next-page button is off on the last page and where nothing is read.
#[allow(non_snake_case)]
pub fn nextDisabled(page: i32, total: i32, view: ViewState) -> (d: bool)
    ensures
        d == (page == total || view == ViewState::Idle || view == ViewState::HelpMode),
{
    page == total || view == ViewState::Idle || view == ViewState::HelpMode
}

/// The jump button is off where nothing is read.
#[allow(non_snake_case)]
pub fn jumpDisabled(view: ViewState) -> (d: bool)
    ensures
        d == (view == ViewState::Idle || view == ViewState::HelpMode),
{
    view == ViewState::Idle || view == ViewState::HelpMode
}

/// The text search works only in reading mode with something to look for.
#[allow(non_snake_case)]
pub fn textSearchDisabled(view: ViewState, barTextEmpty: bool) -> (d: bool)
    ensures
        d == (view != ViewState::ReadMode || barTextEmpty),
{
    view != ViewState::ReadMode || barTextEmpty || view == ViewState::EditMode || view
        == ViewState::Idle || view == ViewState::HelpMode
}

/// The photo search works only in reading mode.
#[allow(non_snake_case)]
pub fn ocrSearchDisabled(view: ViewState) -> (d: bool)
    ensures
        d == (view != ViewState::ReadMode),
{
    view == ViewState::EditMode || view == ViewState::HelpMode || view == ViewState::Idle
}

/// The search from a page to its photo works only in reading mode, once
/// photos were loaded.
#[allow(non_snake_case)]
pub fn ocrReverseDisabled(noImages: bool, view: ViewState) -> (d: bool)
    ensures
        d == (noImages || view != ViewState::ReadMode),
{
    noImages || view == ViewState::EditMode || view == ViewState::HelpMode || view
        == ViewState::Idle
}

} // verus!

//! The state of the reader: the open book, its chapters and pages, what is
//! shown, and how navigation, editing and searching change it.
use std::collections::HashMap;
use vstd::prelude::*;

use crate::chapter::{
    chapter_layout, cleared, filled, law_layout_matches_text, page_layouts, page_texts,
    pieces_text, pieces_view, tl_nodes, Chapter, ChapterView, Piece, TextStyle,
};
use crate::constants::{
    COLORS_AVAILABLE, EPUB_LOADING, GO_NEXT, JUMP_BY_BAR_SEARCH, JUMP_BY_BUTTON,
    JUMP_BY_OCR_SEARCH,
};
use crate::text::{all_digits, all_digits_exec, chars_of, decimal, decimal_string, parse_digits, parse_digits_i32};

verus! {

broadcast use vstd::std_specs::hash::group_hash_axioms;

/// What the reader shows.
#[allow(non_snake_case)]
#[derive(Clone, Copy, PartialEq, Eq, Structural, Debug)]
pub enum ViewState {
    ReadMode,
    EditMode,
    HelpMode,
    Idle,
}

/// A highlight that a search put on the shown text: a byte range and the
/// index of its colour.
pub type Mark = (usize, usize, u8);

/// The model of a page layout.
pub type LayoutView = Seq<(TextStyle, Seq<char>)>;

/// The state of the reader.
#[allow(non_snake_case)]
pub struct BookState {
    path: String,
    language: String,
    currentPage: i32,
    previousPage: i32,
    currentChap: i32,
    totPages: i32,
    totChaps: i32,
    cursor: String,
    currentView: ViewState,
    ultimateView: ViewState,
    epubOpen: bool,
    chaps: Vec<Chapter>,
    pages: Vec<Vec<Piece>>,
    chapters: Vec<Vec<Piece>>,
    HTMLs: Vec<String>,
    chapterContains: HashMap<i32, Vec<i32>>,
    pageBelongs: HashMap<i32, i32>,
    currentRTFpage: Vec<Piece>,
    currentRTFchap: Vec<Piece>,
    pageMarks: Vec<Mark>,
    chapMarks: Vec<Mark>,
    currentHTML: String,
    objectType: u8,
    cover: Vec<u8>,
    ultimeID: u8,
    currID: u8,
    numberOfSearch: u8,
    barText: String,
    imgFromText: String,
    imgListPath: Vec<String>,
    imgViewedPath: String,
    paperWordsEvaluetion: u32,
    digitalPageEvaluetion: u32,
}

/// The model of the reader's state.
pub struct BookView {
    pub path: Seq<char>,
    pub language: Seq<char>,
    pub current_page: i32,
    pub previous_page: i32,
    pub current_chap: i32,
    pub tot_pages: i32,
    pub tot_chaps: i32,
    pub cursor: Seq<char>,
    pub current_view: ViewState,
    pub ultimate_view: ViewState,
    pub epub_open: bool,
    pub chaps: Seq<ChapterView>,
    pub pages: Seq<LayoutView>,
    pub chapters: Seq<LayoutView>,
    pub htmls: Seq<Seq<char>>,
    pub chapter_contains: Map<i32, Seq<i32>>,
    pub page_belongs: Map<i32, i32>,
    pub page_shown: LayoutView,
    pub chap_shown: LayoutView,
    pub page_marks: Seq<Mark>,
    pub chap_marks: Seq<Mark>,
    pub current_html: Seq<char>,
    pub object_type: u8,
    pub cover: Seq<u8>,
    pub ultime_id: u8,
    pub curr_id: u8,
    pub number_of_search: u8,
    pub bar_text: Seq<char>,
    pub img_from_text: Seq<char>,
    pub img_list_path: Seq<Seq<char>>,
    pub img_viewed_path: Seq<char>,
    pub paper_words: u32,
    pub digital_pages: u32,
}

/// The models of a list of chapters.
pub open spec fn chapters_view(v: Seq<Chapter>) -> Seq<ChapterView> {
    v.map_values(|c: Chapter| c@)
}

/// The models of a list of layouts.
pub open spec fn layouts_of(v: Seq<Vec<Piece>>) -> Seq<LayoutView> {
    v.map_values(|p: Vec<Piece>| pieces_view(p@))
}

/// The character sequences of a list of strings.
pub open spec fn texts_view(v: Seq<String>) -> Seq<Seq<char>> {
    v.map_values(|s: String| s@)
}

impl View for BookState {
    type V = BookView;

    closed spec fn view(&self) -> BookView {
        BookView {
            path: self.path@,
            language: self.language@,
            current_page: self.currentPage,
            previous_page: self.previousPage,
            current_chap: self.currentChap,
            tot_pages: self.totPages,
            tot_chaps: self.totChaps,
            cursor: self.cursor@,
            current_view: self.currentView,
            ultimate_view: self.ultimateView,
            epub_open: self.epubOpen,
            chaps: chapters_view(self.chaps@),
            pages: layouts_of(self.pages@),
            chapters: layouts_of(self.chapters@),
            htmls: texts_view(self.HTMLs@),
            chapter_contains: self.chapterContains@.map_values(|v: Vec<i32>| v@),
            page_belongs: self.pageBelongs@,
            page_shown: pieces_view(self.currentRTFpage@),
            chap_shown: pieces_view(self.currentRTFchap@),
            page_marks: self.pageMarks@,
            chap_marks: self.chapMarks@,
            current_html: self.currentHTML@,
            object_type: self.objectType,
            cover: self.cover@,
            ultime_id: self.ultimeID,
            curr_id: self.currID,
            number_of_search: self.numberOfSearch,
            bar_text: self.barText@,
            img_from_text: self.imgFromText@,
            img_list_path: texts_view(self.imgListPath@),
            img_viewed_path: self.imgViewedPath@,
            paper_words: self.paperWordsEvaluetion,
            digital_pages: self.digitalPageEvaluetion,
        }
    }
}

/// Position `i` (counted from 1) names an element of a list of `len`.
pub open spec fn in_list(i: int, len: nat) -> bool {
    1 <= i && i <= len
}

/// The state after the display is brought up to date for `chapter`, `page`
/// and `mode`. In reading mode: the page `page` is shown, and when the page
/// belongs to a chapter, that chapter becomes current, is shown, and its HTML
/// is loaded; the cursor shows the current page. In editing mode: the HTML
/// and the layout of `chapter` are loaded, the first page of the current
/// chapter becomes current and is shown; the cursor shows the current
/// chapter. Other modes change nothing. A new layout comes without marks.
pub open spec fn updated(b: BookView, chapter: i32, page: i32, mode: ViewState) -> BookView {
    if mode == ViewState::ReadMode {
        let b1 = if in_list(page as int, b.pages.len()) {
            BookView { page_shown: b.pages[page - 1], page_marks: seq![], ..b }
        } else {
            b
        };
        let b2 = if b1.page_belongs.contains_key(page) {
            let c = b1.page_belongs[page];
            let b3 = BookView { current_chap: c, ..b1 };
            let b4 = if in_list(c as int, b3.chapters.len()) {
                BookView { chap_shown: b3.chapters[c - 1], chap_marks: seq![], ..b3 }
            } else {
                b3
            };
            if in_list(c as int, b4.htmls.len()) {
                BookView { current_html: b4.htmls[c - 1], ..b4 }
            } else {
                b4
            }
        } else {
            b1
        };
        BookView { cursor: decimal(b2.current_page as int), ..b2 }
    } else if mode == ViewState::EditMode {
        let b1 = if in_list(chapter as int, b.htmls.len()) {
            BookView { current_html: b.htmls[chapter - 1], ..b }
        } else {
            b
        };
        let b2 = if in_list(chapter as int, b1.chapters.len()) {
            BookView { chap_shown: b1.chapters[chapter - 1], chap_marks: seq![], ..b1 }
        } else {
            b1
        };
        let b3 = if b2.chapter_contains.contains_key(b2.current_chap)
            && b2.chapter_contains[b2.current_chap].len() > 0 {
            let index = b2.chapter_contains[b2.current_chap][0];
            let b4 = BookView { current_page: index, ..b2 };
            if in_list(index as int, b4.pages.len()) {
                BookView { page_shown: b4.pages[index - 1], page_marks: seq![], ..b4 }
            } else {
                b4
            }
        } else {
            b2
        };
        BookView { cursor: decimal(b3.current_chap as int), ..b3 }
    } else {
        b
    }
}

/// `value` lies between the two bounds, both included.
pub open spec fn within(value: i32, lower: i32, higher: i32) -> bool {
    lower <= value && value <= higher
}

#[allow(non_snake_case)]
fn checkLimits(value: i32, lowerBound: i32, higherBound: i32) -> (r: bool)
    ensures
        r == within(value, lowerBound, higherBound),
{
    value >= lowerBound && value <= higherBound
}

/// Keeps the edited HTML of `chapter` (counted from 1): the current HTML
/// replaces the chapter's stored HTML.
#[allow(non_snake_case)]
pub fn saveHTML(bookState: &mut BookState, chapter: i32)
    requires
        in_list(chapter as int, old(bookState)@.htmls.len()),
    ensures
        final(bookState)@ == (BookView {
            htmls: old(bookState)@.htmls.update(chapter - 1, old(bookState)@.current_html),
            ..old(bookState)@
        }),
{
    let i = (chapter - 1) as usize;
    let ghost before = bookState.HTMLs@;
    bookState.HTMLs.remove(i);
    let html = bookState.currentHTML.clone();
    bookState.HTMLs.insert(i, html);
    assert(bookState.HTMLs@ == before.update(i as int, html));
    assert(texts_view(bookState.HTMLs@) == texts_view(before).update(i as int, html@));
}

/// Brings the display up to date; see `updated`.
fn update(bookState: &mut BookState, chapter: i32, page: i32, mode: ViewState)
    requires
        mode == ViewState::ReadMode ==> page > i32::MIN,
        mode == ViewState::EditMode ==> chapter > i32::MIN,
    ensures
        final(bookState)@ == updated(old(bookState)@, chapter, page, mode),
{
    let ghost b = bookState@;
    if mode == ViewState::ReadMode {
        if page >= 1 && ((page - 1) as usize) < bookState.pages.len() {
            let shown = clone_layout(&bookState.pages[(page - 1) as usize]);
            bookState.currentRTFpage = shown;
            bookState.pageMarks = Vec::new();
        }
        let ghost b1 = bookState@;
        assert(b1 == (if in_list(page as int, b.pages.len()) {
            BookView { page_shown: b.pages[page - 1], page_marks: seq![], ..b }
        } else {
            b
        }));
        let found = match bookState.pageBelongs.get(&page) {
            Some(c) => Some(*c),
            None => None,
        };
        if let Some(chapIndex) = found {
            bookState.currentChap = chapIndex;
            if chapIndex >= 1 && ((chapIndex - 1) as usize) < bookState.chapters.len() {
                let shown = clone_layout(&bookState.chapters[(chapIndex - 1) as usize]);
                bookState.currentRTFchap = shown;
                bookState.chapMarks = Vec::new();
            }
            if chapIndex >= 1 && ((chapIndex - 1) as usize) < bookState.HTMLs.len() {
                bookState.currentHTML = bookState.HTMLs[(chapIndex - 1) as usize].clone();
            }
        }
        bookState.cursor = decimal_string(bookState.currentPage);
    }
    if mode == ViewState::EditMode {
        if chapter >= 1 && ((chapter - 1) as usize) < bookState.HTMLs.len() {
            bookState.currentHTML = bookState.HTMLs[(chapter - 1) as usize].clone();
        }
        if chapter >= 1 && ((chapter - 1) as usize) < bookState.chapters.len() {
            let shown = clone_layout(&bookState.chapters[(chapter - 1) as usize]);
            bookState.currentRTFchap = shown;
            bookState.chapMarks = Vec::new();
        }
        let key = bookState.currentChap;
        let first = match bookState.chapterContains.get(&key) {
            Some(pagesInChapter) => if pagesInChapter.len() > 0 {
                Some(pagesInChapter[0])
            } else {
                None
            },
            None => None,
        };
        if let Some(index) = first {
            bookState.currentPage = index;
            if index >= 1 && ((index - 1) as usize) < bookState.pages.len() {
                let shown = clone_layout(&bookState.pages[(index - 1) as usize]);
                bookState.currentRTFpage = shown;
                bookState.pageMarks = Vec::new();
            }
        }
        bookState.cursor = decimal_string(bookState.currentChap);
    }
}

/// A copy of a list of marks.
fn copy_marks(v: &Vec<Mark>) -> (r: Vec<Mark>)
    ensures
        r@ == v@,
{
    let mut r: Vec<Mark> = Vec::new();
    let mut i: usize = 0;
    while i < v.len()
        invariant
            i <= v.len(),
            r@ == v@.take(i as int),
        decreases v.len() - i,
    {
        r.push(v[i]);
        assert(r@ == v@.take(i + 1));
        i = i + 1;
    }
    assert(v@.take(v.len() as int) == v@);
    r
}

/// A copy of a layout.
fn clone_layout(v: &Vec<Piece>) -> (r: Vec<Piece>)
    ensures
        pieces_view(r@) == pieces_view(v@),
{
    let mut r: Vec<Piece> = Vec::new();
    let mut i: usize = 0;
    while i < v.len()
        invariant
            i <= v.len(),
            pieces_view(r@) == pieces_view(v@).take(i as int),
        decreases v.len() - i,
    {
        let p = Piece { style: v[i].style, text: v[i].text.clone() };
        let ghost before = r@;
        r.push(p);
        assert(pieces_view(r@) =~= pieces_view(before).push((v@[i as int].style, v@[i as int].text@)));
        assert(pieces_view(v@).take(i + 1) =~= pieces_view(v@).take(i as int).push(
            pieces_view(v@)[i as int],
        ));
        i = i + 1;
    }
    assert(pieces_view(v@).take(v.len() as int) == pieces_view(v@));
    r
}


/// The number that the cursor box holds, when it holds only digits and the
/// number fits in an `i32`.
pub open spec fn cursor_number(cursor: Seq<char>) -> Option<i32> {
    if all_digits(cursor) {
        parse_digits_i32(cursor)
    } else {
        None
    }
}

/// The state after a jump of kind `jump_type`. A jump by button, in reading
/// mode, goes to the page whose number the cursor holds, if it is a page of
/// the book; in editing mode it goes to the chapter whose number the cursor
/// holds, if it is a chapter of the book. A jump after a search shows the
/// current page again.
pub open spec fn jumped(b: BookView, jump_type: u8) -> BookView {
    if jump_type == JUMP_BY_BUTTON {
        if b.current_view == ViewState::ReadMode {
            match cursor_number(b.cursor) {
                Some(n) if within(n, 1, b.tot_pages) => updated(
                    BookView { current_page: n, ..b },
                    b.current_chap,
                    n,
                    ViewState::ReadMode,
                ),
                _ => b,
            }
        } else if b.current_view == ViewState::EditMode {
            match cursor_number(b.cursor) {
                Some(n) if within(n, 1, b.tot_chaps) => updated(
                    BookView { current_chap: n, ..b },
                    n,
                    b.current_page,
                    ViewState::EditMode,
                ),
                _ => b,
            }
        } else {
            b
        }
    } else if jump_type == JUMP_BY_BAR_SEARCH || jump_type == JUMP_BY_OCR_SEARCH {
        updated(b, b.current_chap, b.current_page, ViewState::ReadMode)
    } else {
        b
    }
}

/// The state after scrolling one step in `direction`: in reading mode one
/// page, in the other modes one chapter, forward for `GO_NEXT` and backward
/// otherwise; the edited HTML of the current chapter is kept first.
pub open spec fn scrolled(b: BookView, direction: u8) -> BookView {
    let saved = BookView {
        htmls: b.htmls.update(b.current_chap - 1, b.current_html),
        ..b
    };
    if b.current_view == ViewState::ReadMode {
        let page = if direction == GO_NEXT {
            b.current_page + 1
        } else {
            b.current_page - 1
        };
        let moved = BookView { previous_page: b.current_page, current_page: page as i32, ..saved };
        updated(moved, moved.current_chap, moved.current_page, ViewState::ReadMode)
    } else {
        let chap = if direction == GO_NEXT {
            b.current_chap + 1
        } else {
            b.current_chap - 1
        };
        let moved = BookView { current_chap: chap as i32, ..saved };
        updated(moved, moved.current_chap, moved.current_page, ViewState::EditMode)
    }
}

/// What `scroll` needs: an open book, a current chapter whose HTML can be
/// kept, and a step that stays within `i32`.
pub open spec fn can_scroll(b: BookView, direction: u8) -> bool {
    &&& b.epub_open
    &&& in_list(b.current_chap as int, b.htmls.len())
    &&& if b.current_view == ViewState::ReadMode {
        if direction == GO_NEXT {
            b.current_page < i32::MAX
        } else {
            b.current_page > i32::MIN + 1
        }
    } else {
        if direction == GO_NEXT {
            b.current_chap < i32::MAX
        } else {
            b.current_chap > i32::MIN + 1
        }
    }
}

/// The state of a reader that has not opened anything.
pub open spec fn initial_view() -> BookView {
    BookView {
        path: seq![],
        language: seq![],
        current_page: 0,
        previous_page: 0,
        current_chap: 0,
        tot_pages: 0,
        tot_chaps: 0,
        cursor: seq![],
        current_view: ViewState::Idle,
        ultimate_view: ViewState::Idle,
        epub_open: false,
        chaps: seq![],
        pages: seq![],
        chapters: seq![],
        htmls: seq![],
        chapter_contains: Map::empty(),
        page_belongs: Map::empty(),
        page_shown: seq![],
        chap_shown: seq![],
        page_marks: seq![],
        chap_marks: seq![],
        current_html: seq![],
        object_type: EPUB_LOADING,
        cover: seq![],
        ultime_id: 0,
        curr_id: 0,
        number_of_search: 0,
        bar_text: seq![],
        img_from_text: seq![],
        img_list_path: seq![],
        img_viewed_path: seq![],
        paper_words: 0,
        digital_pages: 0,
    }
}

/// The state after closing the book: its path, position, chapters, pages,
/// HTML, cover, photos and what is shown are emptied.
pub open spec fn cleared_book(b: BookView) -> BookView {
    BookView {
        path: seq![],
        current_chap: 0,
        current_page: 0,
        tot_chaps: 0,
        tot_pages: 0,
        chaps: seq![],
        htmls: seq![],
        pages: seq![],
        chapters: seq![],
        cover: seq![],
        img_list_path: seq![],
        page_shown: seq![],
        chap_shown: seq![],
        page_marks: seq![],
        chap_marks: seq![],
        current_html: seq![],
        cursor: seq![],
        epub_open: false,
        number_of_search: 0,
        ..b
    }
}

#[allow(non_snake_case)]
impl BookState {
    /// A reader with no book open.
    pub fn new() -> (b: BookState)
        ensures
            b@ == initial_view(),
    {
        let b = BookState {
            path: String::new(),
            language: String::new(),
            chaps: Vec::new(),
            currentPage: 0,
            previousPage: 0,
            currentChap: 0,
            cursor: String::new(),
            currentView: ViewState::Idle,
            ultimateView: ViewState::Idle,
            epubOpen: false,
            pages: Vec::new(),
            chapters: Vec::new(),
            HTMLs: Vec::new(),
            currentRTFpage: Vec::new(),
            currentRTFchap: Vec::new(),
            pageMarks: Vec::new(),
            chapMarks: Vec::new(),
            currentHTML: String::new(),
            totPages: 0,
            totChaps: 0,
            chapterContains: HashMap::new(),
            pageBelongs: HashMap::new(),
            objectType: EPUB_LOADING,
            cover: Vec::new(),
            currID: 0,
            ultimeID: 0,
            numberOfSearch: 0,
            barText: String::new(),
            imgFromText: String::new(),
            imgListPath: Vec::new(),
            imgViewedPath: String::new(),
            paperWordsEvaluetion: 0,
            digitalPageEvaluetion: 0,
        };
        assert(b.chapterContains@.map_values(|v: Vec<i32>| v@) =~= Map::<i32, Seq<i32>>::empty());
        assert(b.pageBelongs@ =~= Map::<i32, i32>::empty());
        assert(chapters_view(b.chaps@) =~= Seq::<ChapterView>::empty());
        assert(layouts_of(b.pages@) =~= Seq::<LayoutView>::empty());
        assert(layouts_of(b.chapters@) =~= Seq::<LayoutView>::empty());
        assert(texts_view(b.HTMLs@) =~= Seq::<Seq<char>>::empty());
        assert(texts_view(b.imgListPath@) =~= Seq::<Seq<char>>::empty());
        assert(pieces_view(b.currentRTFpage@) =~= Seq::<(TextStyle, Seq<char>)>::empty());
        assert(pieces_view(b.currentRTFchap@) =~= Seq::<(TextStyle, Seq<char>)>::empty());
        assert(b@ =~= initial_view());
        b
    }

    /// Closes the book.
    pub fn clear(&mut self)
        ensures
            final(self)@ == cleared_book(old(self)@),
    {
        self.path = String::new();
        self.currentChap = 0;
        self.currentPage = 0;
        self.totChaps = 0;
        self.totPages = 0;
        self.chaps = Vec::new();
        self.HTMLs = Vec::new();
        self.pages = Vec::new();
        self.chapters = Vec::new();
        self.cover = Vec::new();
        self.imgListPath = Vec::new();
        self.currentRTFpage = Vec::new();
        self.currentRTFchap = Vec::new();
        self.pageMarks = Vec::new();
        self.chapMarks = Vec::new();
        self.currentHTML = String::new();
        self.cursor = String::new();
        self.epubOpen = false;
        self.numberOfSearch = 0;
        assert(chapters_view(self.chaps@) =~= Seq::<ChapterView>::empty());
        assert(layouts_of(self.pages@) =~= Seq::<LayoutView>::empty());
        assert(layouts_of(self.chapters@) =~= Seq::<LayoutView>::empty());
        assert(texts_view(self.HTMLs@) =~= Seq::<Seq<char>>::empty());
        assert(texts_view(self.imgListPath@) =~= Seq::<Seq<char>>::empty());
        assert(pieces_view(self.currentRTFpage@) =~= Seq::<(TextStyle, Seq<char>)>::empty());
        assert(pieces_view(self.currentRTFchap@) =~= Seq::<(TextStyle, Seq<char>)>::empty());
        assert(self@ =~= cleared_book(old(self)@));
    }

    /// Moves as `jumped` says.
    pub fn jump(&mut self, jumpType: u8)
        requires
            (jumpType == JUMP_BY_BAR_SEARCH || jumpType == JUMP_BY_OCR_SEARCH)
                ==> old(self)@.current_page > i32::MIN,
        ensures
            final(self)@ == jumped(old(self)@, jumpType),
    {
        if jumpType == JUMP_BY_BUTTON {
            if self.currentView == ViewState::ReadMode {
                let cs = chars_of(self.cursor.as_str());
                if all_digits_exec(cs.as_slice()) {
                    if let Some(pageNumber) = parse_digits(cs.as_slice()) {
                        if checkLimits(pageNumber, 1, self.totPages) {
                            self.currentPage = pageNumber;
                            let chap = self.currentChap;
                            let page = self.currentPage;
                            update(self, chap, page, ViewState::ReadMode);
                        }
                    }
                }
            } else if self.currentView == ViewState::EditMode {
                let cs = chars_of(self.cursor.as_str());
                if all_digits_exec(cs.as_slice()) {
                    if let Some(chapNumber) = parse_digits(cs.as_slice()) {
                        if checkLimits(chapNumber, 1, self.totChaps) {
                            self.currentChap = chapNumber;
                            let chap = self.currentChap;
                            let page = self.currentPage;
                            update(self, chap, page, ViewState::EditMode);
                        }
                    }
                }
            }
        }
        if jumpType == JUMP_BY_BAR_SEARCH {
            let chap = self.currentChap;
            let page = self.currentPage;
            update(self, chap, page, ViewState::ReadMode);
        }
        if jumpType == JUMP_BY_OCR_SEARCH {
            let chap = self.currentChap;
            let page = self.currentPage;
            update(self, chap, page, ViewState::ReadMode);
        }
    }

    /// Turns one page (reading mode) or one chapter (other modes) in
    /// `direction`, as `scrolled` says.
    pub fn scroll(&mut self, direction: u8)
        requires
            can_scroll(old(self)@, direction),
        ensures
            final(self)@ == scrolled(old(self)@, direction),
    {
        let chap = self.currentChap;
        if self.currentView == ViewState::ReadMode {
            saveHTML(self, chap);
            self.previousPage = self.currentPage;
            if direction == GO_NEXT {
                self.currentPage = self.currentPage + 1;
            } else {
                self.currentPage = self.currentPage - 1;
            }
            let chap = self.currentChap;
            let page = self.currentPage;
            update(self, chap, page, ViewState::ReadMode);
        } else {
            saveHTML(self, chap);
            if direction == GO_NEXT {
                self.currentChap = self.currentChap + 1;
            } else {
                self.currentChap = self.currentChap - 1;
            }
            let chap = self.currentChap;
            let page = self.currentPage;
            update(self, chap, page, ViewState::EditMode);
        }
    }
}


// ---------------------------------------------------------------------
// Setting up an opened book
// ---------------------------------------------------------------------

/// Number of pages of the chapters `chaps`, all together.
pub open spec fn total_pages(chaps: Seq<ChapterView>) -> nat
    decreases chaps.len(),
{
    if chaps.len() == 0 {
        0
    } else {
        total_pages(chaps.drop_last()) + page_layouts(chaps.last()).len()
    }
}

/// The page layouts of the chapters `chaps`, one chapter after the other.
pub open spec fn all_layouts(chaps: Seq<ChapterView>) -> Seq<LayoutView>
    decreases chaps.len(),
{
    if chaps.len() == 0 {
        seq![]
    } else {
        all_layouts(chaps.drop_last()) + page_layouts(chaps.last())
    }
}

/// The chapter (counted from 1) that page `k` (counted from 1) of `chaps`
/// belongs to.
pub open spec fn chapter_of_page(chaps: Seq<ChapterView>, k: int) -> int
    decreases chaps.len(),
{
    if chaps.len() == 0 {
        0
    } else if k > total_pages(chaps.drop_last()) {
        chaps.len() as int
    } else {
        chapter_of_page(chaps.drop_last(), k)
    }
}

/// The number of page `t` (counted from 0) of chapter `c` (counted from 0):
/// the pages of the chapters before it, then `t + 1`.
pub open spec fn page_number(chaps: Seq<ChapterView>, c: int, t: int) -> int {
    total_pages(chaps.take(c)) + t + 1
}

/// For every page of `chaps`, the chapter it belongs to.
pub open spec fn belongs_map(chaps: Seq<ChapterView>) -> Map<i32, i32> {
    Map::new(
        |k: i32| 1 <= k && k <= total_pages(chaps),
        |k: i32| chapter_of_page(chaps, k as int) as i32,
    )
}

/// The numbers of the pages of chapter `c` (counted from 0).
pub open spec fn chapter_page_numbers(chaps: Seq<ChapterView>, c: int) -> Seq<i32> {
    Seq::new(page_layouts(chaps[c]).len(), |t: int| page_number(chaps, c, t) as i32)
}

/// For every chapter of `chaps`, the numbers of its pages.
pub open spec fn contains_map(chaps: Seq<ChapterView>) -> Map<i32, Seq<i32>> {
    Map::new(
        |c: i32| 1 <= c && c <= chaps.len(),
        |c: i32| chapter_page_numbers(chaps, c - 1),
    )
}

/// What `setup` needs: chapter and page numbers fit in an `i32`.
pub open spec fn can_setup(b: BookView) -> bool {
    &&& b.chaps.len() < i32::MAX
    &&& total_pages(b.chaps) <= i32::MAX
}

/// The state after setting up the book that `b` holds: it is open at page 1
/// of chapter 1 in reading mode; each chapter adds its layout and its pages;
/// every page is recorded with its chapter and every chapter with its pages,
/// numbered from 1; the first HTML, page and chapter are shown.
pub open spec fn set_up(b: BookView, n: i32) -> BookView {
    let chapters = b.chapters + b.chaps.map_values(|c: ChapterView| chapter_layout(c));
    let pages = b.pages + all_layouts(b.chaps);
    BookView {
        epub_open: true,
        current_page: 1,
        current_chap: 1,
        tot_chaps: n,
        chapters: chapters,
        pages: pages,
        page_belongs: b.page_belongs.union_prefer_right(belongs_map(b.chaps)),
        chapter_contains: b.chapter_contains.union_prefer_right(contains_map(b.chaps)),
        tot_pages: pages.len() as i32,
        cursor: decimal(1),
        current_view: ViewState::ReadMode,
        current_html: if b.htmls.len() > 0 {
            b.htmls[0]
        } else {
            b.current_html
        },
        page_shown: if pages.len() > 0 {
            pages[0]
        } else {
            b.page_shown
        },
        page_marks: if pages.len() > 0 {
            seq![]
        } else {
            b.page_marks
        },
        chap_shown: if chapters.len() > 0 {
            chapters[0]
        } else {
            b.chap_shown
        },
        chap_marks: if chapters.len() > 0 {
            seq![]
        } else {
            b.chap_marks
        },
        ..b
    }
}

pub proof fn lemma_total_pages_mono(chaps: Seq<ChapterView>, i: int)
    requires
        0 <= i <= chaps.len(),
    ensures
        total_pages(chaps.take(i)) <= total_pages(chaps),
    decreases chaps.len() - i,
{
    if i < chaps.len() {
        lemma_total_pages_mono(chaps, i + 1);
        assert(chaps.take(i + 1).drop_last() == chaps.take(i));
    } else {
        assert(chaps.take(i) == chaps);
    }
}

pub proof fn lemma_all_layouts_len(chaps: Seq<ChapterView>)
    ensures
        all_layouts(chaps).len() == total_pages(chaps),
    decreases chaps.len(),
{
    if chaps.len() > 0 {
        lemma_all_layouts_len(chaps.drop_last());
    }
}

/// Taking one more chapter adds its pages to the map of pages.
proof fn lemma_belongs_step(chaps: Seq<ChapterView>, i: int)
    requires
        0 <= i < chaps.len(),
        total_pages(chaps) <= i32::MAX,
    ensures
        belongs_map(chaps.take(i + 1)) == belongs_map(chaps.take(i)).union_prefer_right(
            Map::new(
                |k: i32|
                    total_pages(chaps.take(i)) < k && k <= total_pages(chaps.take(i))
                        + page_layouts(chaps[i]).len(),
                |k: i32| (i + 1) as i32,
            ),
        ),
{
    let s = chaps.take(i + 1);
    assert(s.drop_last() == chaps.take(i));
    assert(s.last() == chaps[i]);
    lemma_total_pages_mono(chaps, i + 1);
    assert(belongs_map(s) =~= belongs_map(chaps.take(i)).union_prefer_right(
        Map::new(
            |k: i32|
                total_pages(chaps.take(i)) < k && k <= total_pages(chaps.take(i)) + page_layouts(
                    chaps[i],
                ).len(),
            |k: i32| (i + 1) as i32,
        ),
    ));
}

/// Taking one more chapter adds it to the map of chapters.
proof fn lemma_contains_step(chaps: Seq<ChapterView>, i: int)
    requires
        0 <= i < chaps.len(),
        chaps.len() < i32::MAX,
    ensures
        contains_map(chaps.take(i + 1)) == contains_map(chaps.take(i)).insert(
            (i + 1) as i32,
            chapter_page_numbers(chaps, i),
        ),
{
    let s = chaps.take(i + 1);
    let r = chaps.take(i);
    assert forall|c: int| 0 <= c <= i implies chapter_page_numbers(s, c)
        == chapter_page_numbers(chaps, c) by {
        assert(s.take(c) == chaps.take(c));
        assert(s[c] == chaps[c]);
    }
    assert forall|c: int| 0 <= c < i implies chapter_page_numbers(r, c) == chapter_page_numbers(
        chaps,
        c,
    ) by {
        assert(r.take(c) == chaps.take(c));
        assert(r[c] == chaps[c]);
    }
    assert(contains_map(s) =~= contains_map(r).insert((i + 1) as i32, chapter_page_numbers(chaps, i)));
}

#[allow(non_snake_case)]
impl BookState {
    /// Adds chapter `chapIndex`'s layout and pages, numbering its pages on
    /// from `pageCounter`; gives the number of its last page.
    fn setup_chapter(&mut self, chapIndex: usize, pageCounter: i32) -> (next: i32)
        requires
            chapIndex < old(self)@.chaps.len(),
            old(self)@.chaps.len() < i32::MAX,
            pageCounter + page_layouts(old(self)@.chaps[chapIndex as int]).len() <= i32::MAX,
            pageCounter >= 0,
        ensures
            next == pageCounter + page_layouts(old(self)@.chaps[chapIndex as int]).len(),
            final(self)@ == (BookView {
                chapters: old(self)@.chapters.push(
                    chapter_layout(old(self)@.chaps[chapIndex as int]),
                ),
                pages: old(self)@.pages + page_layouts(old(self)@.chaps[chapIndex as int]),
                page_belongs: old(self)@.page_belongs.union_prefer_right(
                    Map::new(
                        |k: i32|
                            pageCounter < k && k <= pageCounter + page_layouts(
                                old(self)@.chaps[chapIndex as int],
                            ).len(),
                        |k: i32| (chapIndex + 1) as i32,
                    ),
                ),
                chapter_contains: old(self)@.chapter_contains.insert(
                    (chapIndex + 1) as i32,
                    Seq::new(
                        page_layouts(old(self)@.chaps[chapIndex as int]).len(),
                        |t: int| (pageCounter + t + 1) as i32,
                    ),
                ),
                ..old(self)@
            }),
    {
        let ghost b = self@;
        let ghost i = chapIndex as int;
        let ghost c = b.chaps[i];
        assert(self.chaps@[i]@ == c);
        let layoutChap = self.chaps[chapIndex].createRTFChap();
        let ghost before_chapters = self.chapters@;
        self.chapters.push(layoutChap);
        assert(layouts_of(self.chapters@) =~= layouts_of(before_chapters).push(chapter_layout(c)));
        let mut pages = self.chaps[chapIndex].createRTFPages();
        let ghost count = page_layouts(c).len();
        let ghost start = pageCounter as int;
        let ghost belongs0 = self.pageBelongs@;
        let mut counter = pageCounter;
        let mut pageIndices: Vec<i32> = Vec::new();
        let mut belongs = HashMap::new();
        std::mem::swap(&mut belongs, &mut self.pageBelongs);
        let mut t: usize = 0;
        assert(belongs0.union_prefer_right(
            Map::new(|k: i32| start < k && k <= start + 0, |k: i32| (i + 1) as i32),
        ) =~= belongs0);
        while t < pages.len()
            invariant
                t <= pages.len(),
                pages@.len() == count,
                start + count <= i32::MAX,
                chapIndex == i,
                i + 1 < i32::MAX,
                counter == start + t,
                pageIndices@ == Seq::new(t as nat, |u: int| (start + u + 1) as i32),
                belongs@ == belongs0.union_prefer_right(
                    Map::new(|k: i32| start < k && k <= start + t, |k: i32| (i + 1) as i32),
                ),
            decreases pages.len() - t,
        {
            counter = counter + 1;
            pageIndices.push(counter);
            belongs.insert(counter, chapIndex as i32 + 1);
            t = t + 1;
            assert(pageIndices@ =~= Seq::new(t as nat, |u: int| (start + u + 1) as i32));
            assert(belongs@ =~= belongs0.union_prefer_right(
                Map::new(|k: i32| start < k && k <= start + t, |k: i32| (i + 1) as i32),
            ));
        }
        std::mem::swap(&mut belongs, &mut self.pageBelongs);
        let ghost contains0 = self.chapterContains@;
        self.chapterContains.insert(chapIndex as i32 + 1, pageIndices);
        assert(self.chapterContains@.map_values(|v: Vec<i32>| v@) =~= contains0.map_values(
            |v: Vec<i32>| v@,
        ).insert((i + 1) as i32, Seq::new(count, |u: int| (start + u + 1) as i32)));
        let ghost pages_before = self.pages@;
        let ghost new_pages = pages@;
        self.pages.append(&mut pages);
        assert(layouts_of(self.pages@) =~= layouts_of(pages_before) + layouts_of(new_pages));
        assert(self@ =~= (BookView {
            chapters: b.chapters.push(chapter_layout(c)),
            pages: b.pages + page_layouts(c),
            page_belongs: b.page_belongs.union_prefer_right(
                Map::new(|k: i32| start < k && k <= start + count, |k: i32| (i + 1) as i32),
            ),
            chapter_contains: b.chapter_contains.insert(
                (i + 1) as i32,
                Seq::new(count, |t: int| (start + t + 1) as i32),
            ),
            ..b
        }));
        counter
    }

    /// Sets up the book whose chapters were read, as `set_up` says.
    pub fn setup(&mut self, nChpaters: i32)
        requires
            can_setup(old(self)@),
        ensures
            final(self)@ == set_up(old(self)@, nChpaters),
    {
        let ghost b = self@;
        let ghost chaps = b.chaps;
        self.epubOpen = true;
        self.currentPage = 1;
        self.currentChap = 1;
        self.totChaps = nChpaters;
        let mut pageCounter: i32 = 0;
        let mut chapIndex: usize = 0;
        assert(chaps.take(0) == Seq::<ChapterView>::empty());
        assert(b.page_belongs.union_prefer_right(belongs_map(chaps.take(0))) =~= b.page_belongs);
        assert(b.chapter_contains.union_prefer_right(contains_map(chaps.take(0)))
            =~= b.chapter_contains);
        assert(b.chapters + chaps.take(0).map_values(|c: ChapterView| chapter_layout(c))
            =~= b.chapters);
        assert(b.pages + all_layouts(chaps.take(0)) =~= b.pages);
        while chapIndex < self.chaps.len()
            invariant
                chapIndex <= self.chaps.len(),
                chaps == chapters_view(self.chaps@),
                chaps.len() < i32::MAX,
                total_pages(chaps) <= i32::MAX,
                pageCounter == total_pages(chaps.take(chapIndex as int)),
                layouts_of(self.chapters@) == b.chapters + chaps.take(chapIndex as int).map_values(
                    |c: ChapterView| chapter_layout(c),
                ),
                layouts_of(self.pages@) == b.pages + all_layouts(chaps.take(chapIndex as int)),
                self.pageBelongs@ == b.page_belongs.union_prefer_right(
                    belongs_map(chaps.take(chapIndex as int)),
                ),
                self.chapterContains@.map_values(|v: Vec<i32>| v@)
                    == b.chapter_contains.union_prefer_right(
                    contains_map(chaps.take(chapIndex as int)),
                ),
                self@ == (BookView {
                    chapters: self@.chapters,
                    pages: self@.pages,
                    page_belongs: self@.page_belongs,
                    chapter_contains: self@.chapter_contains,
                    epub_open: true,
                    current_page: 1,
                    current_chap: 1,
                    tot_chaps: nChpaters,
                    ..b
                }),
            decreases self.chaps.len() - chapIndex,
        {
            let ghost i = chapIndex as int;
            let ghost before = self@;
            proof {
                lemma_total_pages_mono(chaps, i + 1);
                assert(chaps.take(i + 1).drop_last() == chaps.take(i));
                assert(chaps.take(i + 1).last() == chaps[i]);
            }
            let ghost start = pageCounter as int;
            let ghost count = page_layouts(chaps[i]).len();
            pageCounter = self.setup_chapter(chapIndex, pageCounter);
            proof {
                assert(chaps.take(i + 1).map_values(|c: ChapterView| chapter_layout(c))
                    =~= chaps.take(i).map_values(|c: ChapterView| chapter_layout(c)).push(
                    chapter_layout(chaps[i]),
                ));
                lemma_belongs_step(chaps, i);
                assert(b.page_belongs.union_prefer_right(belongs_map(chaps.take(i))).union_prefer_right(
                    Map::new(
                        |k: i32| start < k && k <= start + count,
                        |k: i32| (i + 1) as i32,
                    ),
                ) =~= b.page_belongs.union_prefer_right(belongs_map(chaps.take(i + 1))));
                lemma_contains_step(chaps, i);
                assert(Seq::new(count, |t: int| (start + t + 1) as i32) =~= chapter_page_numbers(
                    chaps,
                    i,
                ));
                assert(b.chapter_contains.union_prefer_right(contains_map(chaps.take(i))).insert(
                    (i + 1) as i32,
                    chapter_page_numbers(chaps, i),
                ) =~= b.chapter_contains.union_prefer_right(contains_map(chaps.take(i + 1))));
                assert(b.pages + all_layouts(chaps.take(i)) + page_layouts(chaps[i]) =~= b.pages + (
                all_layouts(chaps.take(i)) + page_layouts(chaps[i])));
            }
            chapIndex = chapIndex + 1;
        }
        proof {
            assert(chaps.take(chaps.len() as int) == chaps);
        }
        self.totPages = self.pages.len() as i32;
        self.cursor = decimal_string(self.currentPage);
        self.currentView = ViewState::ReadMode;
        if self.HTMLs.len() > 0 {
            self.currentHTML = self.HTMLs[0].clone();
        }
        if self.pages.len() > 0 {
            let shown = clone_layout(&self.pages[0]);
            self.currentRTFpage = shown;
            self.pageMarks = Vec::new();
        }
        if self.chapters.len() > 0 {
            let shown = clone_layout(&self.chapters[0]);
            self.currentRTFchap = shown;
            self.chapMarks = Vec::new();
        }
        assert(self@ =~= set_up(b, nChpaters));
    }
}


// ---------------------------------------------------------------------
// Plain pages and chapters, edits, searches, loading
// ---------------------------------------------------------------------

/// For every chapter, the text of each of its pages with the page's number.
pub open spec fn plain_pages(chaps: Seq<ChapterView>) -> Seq<Seq<(Seq<char>, i32)>> {
    Seq::new(
        chaps.len(),
        |c: int|
            Seq::new(
                page_texts(chaps[c]).len(),
                |t: int| (page_texts(chaps[c])[t], page_number(chaps, c, t) as i32),
            ),
    )
}

/// The model of a list of numbered plain pages.
pub open spec fn numbered_view(v: Seq<(String, i32)>) -> Seq<(Seq<char>, i32)> {
    v.map_values(|x: (String, i32)| (x.0@, x.1))
}

/// The model of the plain pages of several chapters.
pub open spec fn plain_pages_view(v: Seq<Vec<(String, i32)>>) -> Seq<Seq<(Seq<char>, i32)>> {
    v.map_values(|p: Vec<(String, i32)>| numbered_view(p@))
}

/// For every chapter, the plain text of the whole chapter.
pub open spec fn plain_chapters(chaps: Seq<ChapterView>) -> Seq<Seq<char>> {
    Seq::new(chaps.len(), |c: int| pieces_text(chapter_layout(chaps[c])))
}

/// The state after the HTML of `chapter` (counted from 1) was edited: the
/// edited HTML is kept, the chapter is read again from it and its layout
/// replaced, and the editing view is brought up to date.
pub open spec fn html_updated(b: BookView, chapter: i32) -> BookView {
    let i = chapter - 1;
    let saved = BookView { htmls: b.htmls.update(i, b.current_html), ..b };
    let reread = if i < b.chaps.len() {
        let c = filled(cleared(b.chaps[i]), tl_nodes(b.current_html), b.chaps[i].id, b.chaps[i].path);
        BookView {
            chaps: saved.chaps.update(i, c),
            chapters: saved.chapters.update(i, chapter_layout(c)),
            ..saved
        }
    } else {
        saved
    };
    updated(reread, reread.current_chap, reread.current_page, ViewState::EditMode)
}

/// What `updateHTML` needs.
pub open spec fn can_update_html(b: BookView, chapter: i32) -> bool {
    &&& in_list(chapter as int, b.htmls.len())
    &&& chapter <= b.chaps.len() ==> chapter <= b.chapters.len()
    &&& b.current_chap > i32::MIN
}

/// The state after a search found `ranges`: the next colour is taken, and
/// the ranges are marked with it on the shown page (reading mode) or the
/// shown chapter (editing mode).
pub open spec fn searched(b: BookView, ranges: Seq<(usize, usize)>) -> BookView {
    let n = ((b.number_of_search + 1) % (COLORS_AVAILABLE as int)) as u8;
    let marks = ranges.map_values(|r: (usize, usize)| (r.0, r.1, n));
    BookView {
        number_of_search: n,
        page_marks: if b.current_view == ViewState::ReadMode {
            b.page_marks + marks
        } else {
            b.page_marks
        },
        chap_marks: if b.current_view == ViewState::EditMode {
            b.chap_marks + marks
        } else {
            b.chap_marks
        },
        ..b
    }
}

/// What a redraw of the current view needs.
pub open spec fn can_redraw(b: BookView) -> bool {
    &&& b.current_view == ViewState::ReadMode ==> b.current_page > i32::MIN
    &&& b.current_view == ViewState::EditMode ==> b.current_chap > i32::MIN
}

/// An opened epub: where it is, its language, its cover, and its documents in
/// reading order, each with the path it has in the archive when there is one.
pub struct EpubContents {
    pub path: String,
    pub language: Option<String>,
    pub cover: Option<Vec<u8>>,
    pub documents: Vec<(String, Option<String>)>,
}

/// The model of an opened epub.
pub struct EpubView {
    pub path: Seq<char>,
    pub language: Option<Seq<char>>,
    pub cover: Option<Seq<u8>>,
    pub documents: Seq<(Seq<char>, Option<Seq<char>>)>,
}

/// The model of an optional string.
pub open spec fn opt_text(o: Option<String>) -> Option<Seq<char>> {
    match o {
        Some(s) => Some(s@),
        None => None,
    }
}

impl View for EpubContents {
    type V = EpubView;

    open spec fn view(&self) -> EpubView {
        EpubView {
            path: self.path@,
            language: opt_text(self.language),
            cover: match self.cover {
                Some(c) => Some(c@),
                None => None,
            },
            documents: self.documents@.map_values(
                |d: (String, Option<String>)| (d.0@, opt_text(d.1)),
            ),
        }
    }
}

/// A chapter with nothing in it.
pub open spec fn empty_chapter() -> ChapterView {
    ChapterView {
        path: seq![],
        id: 0,
        title: seq![],
        heading: seq![],
        sub_heading: seq![],
        paragraphs: seq![],
        n_paragraphs: 0,
    }
}

/// The chapters read from `docs`: each document that has a path gives the
/// chapter read from its HTML, numbered by its place among the documents.
pub open spec fn read_chapters(docs: Seq<(Seq<char>, Option<Seq<char>>)>) -> Seq<ChapterView>
    decreases docs.len(),
{
    if docs.len() == 0 {
        seq![]
    } else {
        let d = docs.last();
        let rest = read_chapters(docs.drop_last());
        match d.1 {
            Some(p) => rest.push(filled(empty_chapter(), tl_nodes(d.0), docs.len(), p)),
            None => rest,
        }
    }
}

/// The state after the documents of `e` were read into `b`.
pub open spec fn read_epub(b: BookView, e: EpubView) -> BookView {
    BookView {
        path: e.path,
        language: match e.language {
            Some(l) => l,
            None => b.language,
        },
        cover: match e.cover {
            Some(c) => c,
            None => b.cover,
        },
        ultime_id: if e.cover is Some {
            b.curr_id
        } else {
            b.ultime_id
        },
        curr_id: next_cover_id(b.curr_id),
        htmls: b.htmls + e.documents.map_values(|d: (Seq<char>, Option<Seq<char>>)| d.0),
        chaps: b.chaps + read_chapters(e.documents),
        ..b
    }
}

/// The cover counter after one more book: one more, wrapping to 0 after
/// `u8::MAX`.
pub open spec fn next_cover_id(id: u8) -> u8 {
    if id == u8::MAX {
        0
    } else {
        (id + 1) as u8
    }
}

/// The state just before the set up in `loading`.
pub open spec fn before_setup(b: BookView, epub: Option<EpubView>) -> BookView {
    let b1 = if b.pages.len() > 0 {
        cleared_book(b)
    } else {
        b
    };
    match epub {
        Some(e) => read_epub(b1, e),
        None => b1,
    }
}

/// The state after an epub was loaded (when the reader expects one): the
/// book open before is closed, the documents are read, and the book is set
/// up.
pub open spec fn loaded(b: BookView, epub: Option<EpubView>) -> BookView {
    if b.object_type != EPUB_LOADING {
        b
    } else {
        let b2 = before_setup(b, epub);
        set_up(b2, b2.chaps.len() as i32)
    }
}

/// What `loading` needs: the chapters and pages can be numbered.
pub open spec fn can_load(b: BookView, epub: Option<EpubView>) -> bool {
    b.object_type == EPUB_LOADING ==> can_setup(before_setup(b, epub))
}

/// Keeps the edited HTML of `chapter` and reads the chapter again from it.
#[allow(non_snake_case)]
fn updateHTML(bookState: &mut BookState, chapter: i32)
    requires
        can_update_html(old(bookState)@, chapter),
    ensures
        final(bookState)@ == html_updated(old(bookState)@, chapter),
{
    let ghost b = bookState@;
    saveHTML(bookState, chapter);
    let i = (chapter - 1) as usize;
    if i < bookState.chaps.len() {
        let ghost before = bookState.chaps@;
        let html = bookState.currentHTML.clone();
        bookState.chaps[i].update(html.as_str());
        assert(chapters_view(bookState.chaps@) =~= chapters_view(before).update(
            i as int,
            bookState.chaps@[i as int]@,
        ));
        let layout = bookState.chaps[i].createRTFChap();
        let ghost chapters0 = bookState.chapters@;
        bookState.chapters.remove(i);
        bookState.chapters.insert(i, layout);
        assert(bookState.chapters@ == chapters0.update(i as int, layout));
        assert(layouts_of(bookState.chapters@) =~= layouts_of(chapters0).update(
            i as int,
            pieces_view(layout@),
        ));
    }
    let chap = bookState.currentChap;
    let page = bookState.currentPage;
    update(bookState, chap, page, ViewState::EditMode);
}

/// Reacts to an edit of the current chapter's HTML.
#[allow(non_snake_case)]
pub fn reactToHTMLModification(bookState: &mut BookState)
    requires
        can_update_html(old(bookState)@, old(bookState)@.current_chap),
    ensures
        final(bookState)@ == html_updated(old(bookState)@, old(bookState)@.current_chap),
{
    let chap = bookState.currentChap;
    updateHTML(bookState, chap);
}

/// Redraws the current view after the text size changed.
#[allow(non_snake_case)]
pub fn reactToZoom(bookState: &mut BookState)
    requires
        can_redraw(old(bookState)@),
    ensures
        final(bookState)@ == updated(
            old(bookState)@,
            old(bookState)@.current_chap,
            old(bookState)@.current_page,
            old(bookState)@.current_view,
        ),
{
    let chap = bookState.getCurrentChap();
    let page = bookState.getCurrentPage();
    let view = bookState.getCurrentView();
    update(bookState, chap, page, view);
}

/// Marks the ranges a search found, as `searched` says.
#[allow(non_snake_case)]
pub fn reactToSearch(bookState: &mut BookState, indexMatch: &Vec<(usize, usize)>)
    requires
        old(bookState)@.number_of_search < u8::MAX,
    ensures
        final(bookState)@ == searched(old(bookState)@, indexMatch@),
{
    let ghost b = bookState@;
    bookState.numberOfSearch = bookState.numberOfSearch + 1;
    bookState.numberOfSearch = bookState.numberOfSearch % (COLORS_AVAILABLE as u8);
    let color = bookState.numberOfSearch;
    assert(color == ((b.number_of_search + 1) % (COLORS_AVAILABLE as int)) as u8);
    let ghost marks = indexMatch@.map_values(|r: (usize, usize)| (r.0, r.1, color));
    let mut added: Vec<Mark> = Vec::new();
    let mut i: usize = 0;
    while i < indexMatch.len()
        invariant
            i <= indexMatch.len(),
            marks == indexMatch@.map_values(|r: (usize, usize)| (r.0, r.1, color)),
            added@ == marks.take(i as int),
        decreases indexMatch.len() - i,
    {
        let (s, e) = indexMatch[i];
        added.push((s, e, color));
        assert(marks.take(i + 1) == marks.take(i as int).push(marks[i as int]));
        i = i + 1;
    }
    assert(marks.take(indexMatch.len() as int) == marks);
    if bookState.currentView == ViewState::ReadMode {
        let mut more = copy_marks(&added);
        bookState.pageMarks.append(&mut more);
    }
    if bookState.currentView == ViewState::EditMode {
        bookState.chapMarks.append(&mut added);
    }
    assert(bookState@ =~= searched(b, indexMatch@));
}

/// Redraws the current view after a search in the text bar.
#[allow(non_snake_case)]
pub fn reactToBarSearchRefresh(bookState: &mut BookState)
    requires
        can_redraw(old(bookState)@),
    ensures
        final(bookState)@ == updated(
            old(bookState)@,
            old(bookState)@.current_chap,
            old(bookState)@.current_page,
            old(bookState)@.current_view,
        ),
{
    reactToZoom(bookState);
}

/// Loads an opened epub (`None` when it could not be opened), as `loaded`
/// says. Reading the archive and running the OCR on photos is the caller's.
pub fn loading(bookState: &mut BookState, epub: Option<EpubContents>)
    requires
        can_load(old(bookState)@, match epub {
            Some(e) => Some(e@),
            None => None,
        }),
    ensures
        final(bookState)@ == loaded(old(bookState)@, match epub {
            Some(e) => Some(e@),
            None => None,
        }),
{
    if bookState.getCurrentObjType() == EPUB_LOADING {
        if bookState.pages.len() > 0 {
            bookState.clear();
        }
        if let Some(e) = epub {
            let ghost b1 = bookState@;
            bookState.setPath(e.path);
            if let Some(language) = e.language {
                bookState.setLanguage(language);
            }
            if let Some(cover) = e.cover {
                bookState.cover = cover;
                bookState.ultimeID = bookState.currID;
                bookState.currID = bookState.currID.wrapping_add(1);
            } else {
                bookState.currID = bookState.currID.wrapping_add(1);
            }
            let ghost docs = e.documents@.map_values(
                |d: (String, Option<String>)| (d.0@, opt_text(d.1)),
            );
            let ghost htmls0 = bookState@.htmls;
            let ghost chaps0 = bookState@.chaps;
            let mut nChapters: usize = 0;
            assert(docs.take(0) == Seq::<(Seq<char>, Option<Seq<char>>)>::empty());
            assert(htmls0 + docs.take(0).map_values(|d: (Seq<char>, Option<Seq<char>>)| d.0)
                =~= htmls0);
            assert(chaps0 + read_chapters(docs.take(0)) =~= chaps0);
            let ghost fixed = bookState@;
            while nChapters < e.documents.len()
                invariant
                    nChapters <= e.documents.len(),
                    docs == e.documents@.map_values(
                        |d: (String, Option<String>)| (d.0@, opt_text(d.1)),
                    ),
                    texts_view(bookState.HTMLs@) == htmls0 + docs.take(nChapters as int).map_values(
                        |d: (Seq<char>, Option<Seq<char>>)| d.0,
                    ),
                    chapters_view(bookState.chaps@) == chaps0 + read_chapters(
                        docs.take(nChapters as int),
                    ),
                    bookState@ == (BookView {
                        htmls: bookState@.htmls,
                        chaps: bookState@.chaps,
                        ..fixed
                    }),
                decreases e.documents.len() - nChapters,
            {
                let ghost j = nChapters as int;
                let idx = nChapters;
                let html = e.documents[idx].0.clone();
                let ghost html0 = bookState.HTMLs@;
                bookState.HTMLs.push(html.clone());
                assert(texts_view(bookState.HTMLs@) =~= texts_view(html0).push(html@));
                nChapters = nChapters + 1;
                assert(docs.take(j + 1).drop_last() == docs.take(j));
                assert(docs.take(j + 1).last() == docs[j]);
                assert(docs.take(j + 1).map_values(|d: (Seq<char>, Option<Seq<char>>)| d.0)
                    =~= docs.take(j).map_values(|d: (Seq<char>, Option<Seq<char>>)| d.0).push(
                    html@,
                ));
                let mut chapter = Chapter::new();
                match &e.documents[idx].1 {
                    Some(path) => {
                        chapter.fill(html, nChapters, path.clone());
                        let ghost chaps1 = bookState.chaps@;
                        bookState.chaps.push(chapter);
                        assert(chapters_view(bookState.chaps@) =~= chapters_view(chaps1).push(
                            chapter@,
                        ));
                    },
                    None => {},
                }
            }
            assert(docs.take(e.documents.len() as int) == docs);
            assert(bookState@ =~= read_epub(b1, e@));
        }
        let n = bookState.chaps.len() as i32;
        bookState.setup(n);
    }
}

#[allow(non_snake_case)]
impl BookState {
    // -----------------------------------------------------------------
    // Getters
    // -----------------------------------------------------------------
    /// The text of the search bar.
    pub fn getBarText(&self) -> (r: String)
        ensures
            r@ == self@.bar_text,
    {
        self.barText.clone()
    }

    /// The chapters of the book.
    pub fn getChapters(&self) -> (r: &Vec<Chapter>)
        ensures
            chapters_view(r@) == self@.chaps,
    {
        &self.chaps
    }

    /// The bytes of the cover image.
    pub fn getCoverPixels(&self) -> (r: Vec<u8>)
        ensures
            r@ == self@.cover,
    {
        self.cover.clone()
    }

    /// Counter of the covers loaded so far.
    pub fn getCurrID(&self) -> (r: u8)
        ensures
            r == self@.curr_id,
    {
        self.currID
    }

    /// The current chapter (counted from 1).
    pub fn getCurrentChap(&self) -> (r: i32)
        ensures
            r == self@.current_chap,
    {
        self.currentChap
    }

    /// The kind of file that is being opened.
    pub fn getCurrentObjType(&self) -> (r: u8)
        ensures
            r == self@.object_type,
    {
        self.objectType
    }

    /// The current page (counted from 1).
    pub fn getCurrentPage(&self) -> (r: i32)
        ensures
            r == self@.current_page,
    {
        self.currentPage
    }

    /// What the reader shows.
    pub fn getCurrentView(&self) -> (r: ViewState)
        ensures
            r == self@.current_view,
    {
        self.currentView
    }

    /// A book is open.
    pub fn getEpubOpen(&self) -> (r: bool)
        ensures
            r == self@.epub_open,
    {
        self.epubOpen
    }

    /// The HTML of every chapter document.
    pub fn getHTMLs(&self) -> (r: &Vec<String>)
        ensures
            texts_view(r@) == self@.htmls,
    {
        &self.HTMLs
    }

    /// The paths of the photos loaded for OCR, to be changed in place.
    pub fn getImagesPath(&mut self) -> (r: &mut Vec<String>)
        ensures
            texts_view(r@) == old(self)@.img_list_path,
            final(self)@ == (BookView { img_list_path: texts_view(final(r)@), ..old(self)@ }),
    {
        &mut self.imgListPath
    }

    /// A copy of the paths of the photos loaded for OCR.
    pub fn getImagesPathList(&self) -> (r: Vec<String>)
        ensures
            texts_view(r@) == self@.img_list_path,
    {
        let mut r: Vec<String> = Vec::new();
        let mut i: usize = 0;
        while i < self.imgListPath.len()
            invariant
                i <= self.imgListPath.len(),
                texts_view(r@) == texts_view(self.imgListPath@).take(i as int),
            decreases self.imgListPath.len() - i,
        {
            let ghost before = r@;
            r.push(self.imgListPath[i].clone());
            assert(texts_view(r@) =~= texts_view(before).push(self.imgListPath@[i as int]@));
            assert(texts_view(r@) =~= texts_view(self.imgListPath@).take(i + 1));
            i = i + 1;
        }
        assert(texts_view(self.imgListPath@).take(self.imgListPath.len() as int) =~= texts_view(
            self.imgListPath@,
        ));
        r
    }

    /// How many photos were loaded for OCR.
    pub fn getImagesPathSize(&self) -> (r: usize)
        ensures
            r == self@.img_list_path.len(),
    {
        self.imgListPath.len()
    }

    /// The book's language code.
    pub fn getLanguage(&self) -> (r: &String)
        ensures
            r@ == self@.language,
    {
        &self.language
    }

    /// Where the book lies.
    pub fn getPath(&self) -> (r: &str)
        ensures
            r@ == self@.path,
    {
        self.path.as_str()
    }

    /// For every chapter, its plain pages with their numbers, numbered from 1
    /// across the book.
    pub fn getPlainPages(&self) -> (r: Vec<Vec<(String, i32)>>)
        requires
            total_pages(self@.chaps) <= i32::MAX,
        ensures
            plain_pages_view(r@) == plain_pages(self@.chaps),
    {
        let ghost chaps = self@.chaps;
        let mut plainPages: Vec<Vec<(String, i32)>> = Vec::new();
        let mut pageCounter: i32 = 0;
        let mut c: usize = 0;
        assert(chaps.take(0) == Seq::<ChapterView>::empty());
        while c < self.chaps.len()
            invariant
                c <= self.chaps.len(),
                chaps == chapters_view(self.chaps@),
                total_pages(chaps) <= i32::MAX,
                pageCounter == total_pages(chaps.take(c as int)),
                plainPages@.len() == c,
                forall|k: int| 0 <= k < c ==> #[trigger] numbered_view(plainPages@[k]@) == plain_pages(
                    chaps,
                )[k],
            decreases self.chaps.len() - c,
        {
            proof {
                lemma_total_pages_mono(chaps, c + 1);
                assert(chaps.take(c + 1).drop_last() == chaps.take(c as int));
                assert(chaps.take(c + 1).last() == chaps[c as int]);
                assert(self.chaps@[c as int]@ == chaps[c as int]);
                law_layout_matches_text(chaps[c as int]);
            }
            let ghost start = pageCounter;
            let pages = self.chaps[c].createPlainPages(&mut pageCounter);
            proof {
                assert(numbered_view(pages@) =~= plain_pages(chaps)[c as int]) by {
                    assert(chaps.take(c as int) == chaps.take(c as int));
                }
            }
            plainPages.push(pages);
            c = c + 1;
        }
        assert(plain_pages_view(plainPages@) =~= plain_pages(chaps));
        plainPages
    }

    /// Number of chapters of the book.
    pub fn getTotalChaps(&self) -> (r: i32)
        ensures
            r == self@.tot_chaps,
    {
        self.totChaps
    }

    /// Number of pages of the book.
    pub fn getTotalPages(&self) -> (r: i32)
        ensures
            r == self@.tot_pages,
    {
        self.totPages
    }

    /// Counter of the cover shown before the current one.
    pub fn getUltID(&self) -> (r: u8)
        ensures
            r == self@.ultime_id,
    {
        self.ultimeID
    }

    /// The view shown before the current one.
    pub fn getUltimateView(&self) -> (r: ViewState)
        ensures
            r == self@.ultimate_view,
    {
        self.ultimateView
    }

    /// The photo found for the current page.
    pub fn getPathImageViewed(&self) -> (r: &String)
        ensures
            r@ == self@.img_viewed_path,
    {
        &self.imgViewedPath
    }

    /// For every chapter, its whole plain text.
    pub fn getPlainChapters(&self) -> (r: Vec<String>)
        ensures
            texts_view(r@) == plain_chapters(self@.chaps),
    {
        let ghost chaps = self@.chaps;
        let mut chapters: Vec<String> = Vec::new();
        let mut c: usize = 0;
        while c < self.chaps.len()
            invariant
                c <= self.chaps.len(),
                chaps == chapters_view(self.chaps@),
                texts_view(chapters@) == plain_chapters(chaps).take(c as int),
            decreases self.chaps.len() - c,
        {
            assert(self.chaps@[c as int]@ == chaps[c as int]);
            let text = self.chaps[c].createPlainChapter();
            let ghost before = chapters@;
            chapters.push(text);
            assert(texts_view(chapters@) =~= texts_view(before).push(text@));
            assert(texts_view(chapters@) =~= plain_chapters(chaps).take(c + 1));
            c = c + 1;
        }
        assert(plain_chapters(chaps).take(chaps.len() as int) =~= plain_chapters(chaps));
        chapters
    }

    /// Words per paper page, as estimated from the photos.
    pub fn getPaperWordsEvaluetion(&self) -> (r: u32)
        ensures
            r == self@.paper_words,
    {
        self.paperWordsEvaluetion
    }

    /// The paper page estimated for the current digital page.
    pub fn getDigitalPageEvaluetion(&self) -> (r: u32)
        ensures
            r == self@.digital_pages,
    {
        self.digitalPageEvaluetion
    }

    /// The text of the cursor box.
    pub fn getCursor(&self) -> (r: String)
        ensures
            r@ == self@.cursor,
    {
        self.cursor.clone()
    }

    /// The HTML of the current chapter, as edited.
    pub fn getCurrentHTML(&self) -> (r: String)
        ensures
            r@ == self@.current_html,
    {
        self.currentHTML.clone()
    }

    /// The layout of the page shown, with the marks searches put on it.
    pub fn getPageShown(&self) -> (r: (Vec<Piece>, Vec<Mark>))
        ensures
            pieces_view(r.0@) == self@.page_shown,
            r.1@ == self@.page_marks,
    {
        (clone_layout(&self.currentRTFpage), copy_marks(&self.pageMarks))
    }

    /// The layout of the chapter shown, with the marks searches put on it.
    pub fn getChapShown(&self) -> (r: (Vec<Piece>, Vec<Mark>))
        ensures
            pieces_view(r.0@) == self@.chap_shown,
            r.1@ == self@.chap_marks,
    {
        (clone_layout(&self.currentRTFchap), copy_marks(&self.chapMarks))
    }

    // -----------------------------------------------------------------
    // Setters
    // -----------------------------------------------------------------
    /// Sets the current page.
    pub fn setCurrentPage(&mut self, page: i32)
        ensures
            final(self)@ == (BookView { current_page: page, ..old(self)@ }),
    {
        self.currentPage = page;
    }

    /// Shows `view`, remembering the view shown until now.
    pub fn setCurrentView(&mut self, view: ViewState)
        ensures
            final(self)@ == (BookView {
                ultimate_view: old(self)@.current_view,
                current_view: view,
                ..old(self)@
            }),
    {
        self.ultimateView = self.currentView;
        self.currentView = view;
    }

    /// Writes `cursor` in decimal in the cursor box.
    pub fn setCursor(&mut self, cursor: i32)
        ensures
            final(self)@ == (BookView { cursor: decimal(cursor as int), ..old(self)@ }),
    {
        self.cursor = decimal_string(cursor);
    }

    /// Sets the text of the cursor box, as typed.
    pub fn setCursorText(&mut self, cursor: String)
        ensures
            final(self)@ == (BookView { cursor: cursor@, ..old(self)@ }),
    {
        self.cursor = cursor;
    }

    /// Sets the text of the search bar, as typed.
    pub fn setBarText(&mut self, text: String)
        ensures
            final(self)@ == (BookView { bar_text: text@, ..old(self)@ }),
    {
        self.barText = text;
    }

    /// Sets the HTML of the current chapter, as edited.
    pub fn setCurrentHTML(&mut self, html: String)
        ensures
            final(self)@ == (BookView { current_html: html@, ..old(self)@ }),
    {
        self.currentHTML = html;
    }

    /// Sets the book's language code.
    pub fn setLanguage(&mut self, lang: String)
        ensures
            final(self)@ == (BookView { language: lang@, ..old(self)@ }),
    {
        self.language = lang;
    }

    /// Sets the kind of file that is being opened.
    pub fn setObjectType(&mut self, obj: u8)
        ensures
            final(self)@ == (BookView { object_type: obj, ..old(self)@ }),
    {
        self.objectType = obj;
    }

    /// Sets where the book lies.
    pub fn setPath(&mut self, path: String)
        ensures
            final(self)@ == (BookView { path: path@, ..old(self)@ }),
    {
        self.path = path;
    }

    /// Sets the photo found for the current page.
    pub fn setPathImageViewed(&mut self, path: String)
        ensures
            final(self)@ == (BookView { img_viewed_path: path@, ..old(self)@ }),
    {
        self.imgViewedPath = path;
    }

    /// Sets the words per paper page.
    pub fn setPaperWordsEvaluetion(&mut self, value: u32)
        ensures
            final(self)@ == (BookView { paper_words: value, ..old(self)@ }),
    {
        self.paperWordsEvaluetion = value;
    }

    /// Sets the paper page estimated for the current digital page.
    pub fn setDigitalPageEvaluetion(&mut self, value: u32)
        ensures
            final(self)@ == (BookView { digital_pages: value, ..old(self)@ }),
    {
        self.digitalPageEvaluetion = value;
    }
}

} // verus!

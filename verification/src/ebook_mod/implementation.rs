//! The state of the line-based reader and its page navigation.
use vstd::prelude::*;

use super::rendering::{
    calibre_patterns_ok, create_rich_page, page_runs, parse_calibre, runs_view, stripped, FormatMap,
    FormattingInfo, Run, RunStyle,
};
use crate::text::{all_digits, chars_of, decimal, decimal_string, lines, parse_i32, parse_i32_exec};

verus! {

/// No book is shown.
pub const IDLE: u8 = 0;

/// A page is read.
pub const READ_MODE: u8 = 1;

/// A page's HTML is edited.
pub const EDIT_MODE: u8 = 2;

/// The help page is shown.
pub const HELP_MODE: u8 = 3;

/// A jump to the number typed in the page box.
pub const JUMP_BY_BOX: u8 = 0;

/// A jump to the page a search found.
pub const JUMP_BY_SEARCH: u8 = 1;

/// The book's metadata, kept to write the edited book back.
pub struct BookMetadata {
    pub author: String,
    pub title: String,
    pub description: String,
    pub language: String,
    pub stylesheet: String,
    pub cover_image: String,
    pub generator: String,
}

/// The model of a book's metadata.
pub struct MetadataView {
    pub author: Seq<char>,
    pub title: Seq<char>,
    pub description: Seq<char>,
    pub language: Seq<char>,
    pub stylesheet: Seq<char>,
    pub cover_image: Seq<char>,
    pub generator: Seq<char>,
}

impl View for BookMetadata {
    type V = MetadataView;

    open spec fn view(&self) -> MetadataView {
        MetadataView {
            author: self.author@,
            title: self.title@,
            description: self.description@,
            language: self.language@,
            stylesheet: self.stylesheet@,
            cover_image: self.cover_image@,
            generator: self.generator@,
        }
    }
}

/// Metadata with every field empty.
pub open spec fn empty_metadata() -> MetadataView {
    MetadataView {
        author: seq![],
        title: seq![],
        description: seq![],
        language: seq![],
        stylesheet: seq![],
        cover_image: seq![],
        generator: seq![],
    }
}

impl BookMetadata {
    /// Empty metadata.
    pub fn new() -> (m: BookMetadata)
        ensures
            m@ == empty_metadata(),
    {
        BookMetadata {
            author: String::new(),
            title: String::new(),
            description: String::new(),
            language: String::new(),
            stylesheet: String::new(),
            cover_image: String::new(),
            generator: String::new(),
        }
    }
}

/// The text `o` holds, or `d` when it holds none.
pub open spec fn text_or(o: Option<String>, d: Seq<char>) -> Seq<char> {
    match o {
        Some(t) => t@,
        None => d,
    }
}

/// The metadata `m` after it was filled from a book: the author, title,
/// description and language that the book gives replace those in `m`; the
/// stylesheet is the text of the book's `css` resource when it has one,
/// else of its `stylesheet` resource (each `Some` when the resource exists,
/// with its text when it could be read), and stays when neither gives a
/// text; the generator is this reader.
pub open spec fn metadata_filled(
    m: MetadataView,
    creator: Option<String>,
    title: Option<String>,
    description: Option<String>,
    language: Option<String>,
    css: Option<Option<String>>,
    stylesheet: Option<Option<String>>,
) -> MetadataView {
    let chosen = if css is Some {
        css
    } else {
        stylesheet
    };
    MetadataView {
        author: text_or(creator, m.author),
        title: text_or(title, m.title),
        description: text_or(description, m.description),
        language: text_or(language, m.language),
        stylesheet: match chosen {
            Some(Some(t)) => t@,
            _ => m.stylesheet,
        },
        generator: "eeBOOK Reader"@,
        ..m
    }
}

/// The RGBA pixels, row after row, and the width and height of the picture
/// that `image` decodes from the JPEG `bytes`; none when they do not decode.
pub uninterp spec fn decoded_rgba(bytes: Seq<u8>) -> Option<(Seq<u8>, u32, u32)>;

/// Calls `image::load_from_memory_with_format(bytes, ImageFormat::Jpeg)` and,
/// when it succeeds, `to_rgba8()`, its `dimensions()` and `into_raw()`. The
/// contract claims that the result is `decoded_rgba(bytes@)`.
#[verifier::external_body]
fn decode_rgba(bytes: &[u8]) -> (r: Option<(Vec<u8>, u32, u32)>)
    ensures
        match r {
            Some(t) => decoded_rgba(bytes@) == Some((t.0@, t.1, t.2)),
            None => decoded_rgba(bytes@) is None,
        },
{
    match image::load_from_memory_with_format(bytes, image::ImageFormat::Jpeg) {
        Ok(picture) => {
            let rgba = picture.to_rgba8();
            let (width, height) = rgba.dimensions();
            Some((rgba.into_raw(), width, height))
        },
        Err(_) => None,
    }
}

/// The state after the cover decoded as `d` (pixels, width, height) was
/// recorded, under the name `name`.
pub open spec fn cover_decoded(b: ReaderView, d: (Seq<u8>, u32, u32), name: Seq<char>) -> ReaderView {
    ReaderView {
        cover_pixels: d.0,
        width_cover: d.1,
        height_cover: d.2,
        metadata: MetadataView { cover_image: name, ..b.metadata },
        ..b
    }
}

/// The state of the line-based reader.
pub struct BookState {
    current_page_i32: i32,
    total_pages_i32: i32,
    current_page_string: String,
    total_page_string: String,
    pub metadata: BookMetadata,
    epub_is_open: bool,
    epub_filepath: String,
    raw_pages: Vec<String>,
    raw_pages_modified: Vec<String>,
    parsed_pages: Vec<String>,
    formatting_info: FormatMap,
    current_text_page: String,
    current_html_page: String,
    current_rich_text_page: Vec<Run>,
    current_view: u8,
    ultimate_view: u8,
    cover_pixels: Vec<u8>,
    book_has_cover: bool,
    width_cover: u32,
    height_cover: u32,
    ocr_text: String,
    bar_text: String,
}

/// The model of the line-based reader.
pub struct ReaderView {
    pub metadata: MetadataView,
    pub current_page: i32,
    pub total_pages: i32,
    pub page_box: Seq<char>,
    pub total_box: Seq<char>,
    pub epub_is_open: bool,
    pub epub_filepath: Seq<char>,
    pub raw_pages: Seq<Seq<char>>,
    pub raw_pages_modified: Seq<Seq<char>>,
    pub parsed_pages: Seq<Seq<char>>,
    pub formatting: Map<(usize, usize), FormattingInfo>,
    pub text_page: Seq<char>,
    pub html_page: Seq<char>,
    pub rich_page: Seq<(RunStyle, Seq<char>)>,
    pub current_view: u8,
    pub ultimate_view: u8,
    pub cover_pixels: Seq<u8>,
    pub book_has_cover: bool,
    pub width_cover: u32,
    pub height_cover: u32,
    pub ocr_text: Seq<char>,
    pub bar_text: Seq<char>,
}

/// The character sequences of a list of strings.
pub open spec fn strs(v: Seq<String>) -> Seq<Seq<char>> {
    v.map_values(|s: String| s@)
}

impl View for BookState {
    type V = ReaderView;

    closed spec fn view(&self) -> ReaderView {
        ReaderView {
            metadata: self.metadata@,
            current_page: self.current_page_i32,
            total_pages: self.total_pages_i32,
            page_box: self.current_page_string@,
            total_box: self.total_page_string@,
            epub_is_open: self.epub_is_open,
            epub_filepath: self.epub_filepath@,
            raw_pages: strs(self.raw_pages@),
            raw_pages_modified: strs(self.raw_pages_modified@),
            parsed_pages: strs(self.parsed_pages@),
            formatting: self.formatting_info@,
            text_page: self.current_text_page@,
            html_page: self.current_html_page@,
            rich_page: runs_view(self.current_rich_text_page@),
            current_view: self.current_view,
            ultimate_view: self.ultimate_view,
            cover_pixels: self.cover_pixels@,
            book_has_cover: self.book_has_cover,
            width_cover: self.width_cover,
            height_cover: self.height_cover,
            ocr_text: self.ocr_text@,
            bar_text: self.bar_text@,
        }
    }
}

/// The state after page `n` (counted from 1) is loaded: its HTML, its text
/// and its layout, those of them that exist.
pub open spec fn page_loaded(b: ReaderView, n: i32) -> ReaderView {
    let i = n - 1;
    let b1 = if 0 <= i < b.raw_pages.len() {
        ReaderView { html_page: b.raw_pages[i], ..b }
    } else {
        b
    };
    if 0 <= i < b1.parsed_pages.len() {
        ReaderView {
            text_page: b1.parsed_pages[i],
            rich_page: page_runs(lines(b1.parsed_pages[i]), n as usize, b1.formatting),
            ..b1
        }
    } else {
        b1
    }
}

/// The state after the shown page's HTML is kept as edited.
pub open spec fn page_saved(b: ReaderView) -> ReaderView {
    ReaderView {
        raw_pages_modified: b.raw_pages_modified.update(b.current_page - 1, b.html_page),
        ..b
    }
}

/// The state after going to page `n`, the shown page kept first.
pub open spec fn moved_to(b: ReaderView, n: i32) -> ReaderView {
    page_loaded(
        ReaderView { current_page: n, page_box: decimal(n as int), ..page_saved(b) },
        n,
    )
}

/// The page after the one in the page box, no further than the last.
pub open spec fn next_number(b: ReaderView) -> i32 {
    let n = parse_i32(b.page_box).unwrap() + 1;
    if n >= b.total_pages {
        b.total_pages
    } else {
        n as i32
    }
}

/// The page before the one in the page box, no further back than the first.
pub open spec fn previous_number(b: ReaderView) -> i32 {
    let n = parse_i32(b.page_box).unwrap() - 1;
    if n <= 1 {
        1
    } else {
        n as i32
    }
}

/// The shown page can be kept.
pub open spec fn can_save(b: ReaderView) -> bool {
    1 <= b.current_page && b.current_page <= b.raw_pages_modified.len()
}

/// What turning a page needs: the page box holds a number, the next number
/// fits, and the shown page can be kept.
pub open spec fn can_turn(b: ReaderView, forward: bool) -> bool {
    b.epub_is_open ==> {
        &&& parse_i32(b.page_box) is Some
        &&& if forward {
            parse_i32(b.page_box).unwrap() < i32::MAX && b.total_pages > i32::MIN
        } else {
            parse_i32(b.page_box).unwrap() > i32::MIN
        }
        &&& can_save(ReaderView { current_page: parse_i32(b.page_box).unwrap(), ..b })
    }
}

/// The page a jump goes to: for a jump by the page box, the number typed when
/// it is only digits; else the current page.
pub open spec fn jump_target(b: ReaderView, flag: u8) -> Option<i32> {
    if flag == JUMP_BY_BOX {
        if all_digits(b.page_box) {
            parse_i32(b.page_box)
        } else {
            None
        }
    } else {
        Some(b.current_page)
    }
}

/// The state after a jump: to the target page when it is a page of the book
/// (or 0), else the page box shows the current page again.
pub open spec fn jumped_to(b: ReaderView, flag: u8) -> ReaderView {
    if !b.epub_is_open {
        b
    } else {
        match jump_target(b, flag) {
            Some(n) => if 0 <= n <= b.total_pages {
                moved_to(b, n)
            } else {
                ReaderView { page_box: decimal(b.current_page as int), ..b }
            },
            None => ReaderView { page_box: decimal(b.current_page as int), ..b },
        }
    }
}

/// What `jump_to_page` needs: a typed number fits, and the shown page can be
/// kept when the reader moves.
pub open spec fn can_jump(b: ReaderView, flag: u8) -> bool {
    b.epub_is_open ==> {
        &&& (flag == JUMP_BY_BOX && all_digits(b.page_box)) ==> parse_i32(b.page_box) is Some
        &&& match jump_target(b, flag) {
            Some(n) => (0 <= n <= b.total_pages) ==> can_save(b),
            None => true,
        }
    }
}

/// The models of a list of documents that could or could not be read.
pub open spec fn opt_texts(v: Seq<Option<String>>) -> Seq<Option<Seq<char>>> {
    v.map_values(
        |o: Option<String>|
            match o {
                Some(t) => Some(t@),
                None => None,
            },
    )
}

/// The pages read from the documents `docs` of the book, walking from
/// position `p` with the pages `acc` read so far. When `skip_cover` holds
/// and no page was read yet, the walk first steps past the document it
/// stands on (the cover), unless it stands on the last one; it then reads
/// the document it stands on, when that can be read, and steps on.
pub open spec fn spine_walk(
    docs: Seq<Option<Seq<char>>>,
    skip_cover: bool,
    p: int,
    acc: Seq<Seq<char>>,
) -> Seq<Seq<char>>
    decreases docs.len() - p,
{
    if p < 0 || p >= docs.len() {
        acc
    } else {
        let q = if skip_cover && acc.len() == 0 && p + 1 < docs.len() {
            p + 1
        } else {
            p
        };
        let acc2 = match docs[q] {
            Some(h) => acc.push(h),
            None => acc,
        };
        if q + 1 < docs.len() {
            spine_walk(docs, skip_cover, q + 1, acc2)
        } else {
            acc2
        }
    }
}

/// The pages of a book whose documents, in reading order, are `docs` (each
/// when it could be read), the cover skipped when `skip_cover` holds: as
/// `spine_walk` says from the first document.
pub fn spine_pages(docs: &Vec<Option<String>>, skip_cover: bool) -> (r: Vec<String>)
    ensures
        strs(r@) == spine_walk(opt_texts(docs@), skip_cover, 0, seq![]),
{
    let ghost ds = opt_texts(docs@);
    let mut out: Vec<String> = Vec::new();
    if docs.len() == 0 {
        assert(strs(out@) =~= Seq::<Seq<char>>::empty());
        return out;
    }
    let mut p: usize = 0;
    assert(strs(out@) =~= Seq::<Seq<char>>::empty());
    loop
        invariant_except_break
            spine_walk(ds, skip_cover, 0, seq![]) == spine_walk(ds, skip_cover, p as int, strs(out@)),
        invariant
            p < docs.len(),
            ds == opt_texts(docs@),
        ensures
            strs(out@) == spine_walk(ds, skip_cover, 0, seq![]),
        decreases docs.len() - p,
    {
        let ghost acc = strs(out@);
        let q = if skip_cover && out.len() == 0 && p + 1 < docs.len() {
            p + 1
        } else {
            p
        };
        assert(ds[q as int] == match docs@[q as int] {
            Some(t) => Some(t@),
            None => None::<Seq<char>>,
        });
        match &docs[q] {
            Some(h) => {
                out.push(h.clone());
                assert(strs(out@) =~= acc.push(h@));
            },
            None => {},
        }
        if q + 1 < docs.len() {
            assert(spine_walk(ds, skip_cover, p as int, acc) == spine_walk(ds, skip_cover, q + 1, strs(out@)));
            p = q + 1;
        } else {
            assert(spine_walk(ds, skip_cover, p as int, acc) == strs(out@));
            break;
        }
    }
    out
}

/// The state after the pages `htmls` were read, in order, after those of
/// `b`: each page, numbered from 1 among `htmls`, adds its HTML (twice: as
/// read and as edited) and its text stripped of markup, and its lines'
/// formatting is recorded.
pub open spec fn pages_read(b: ReaderView, htmls: Seq<Seq<char>>) -> ReaderView
    decreases htmls.len(),
{
    if htmls.len() == 0 {
        b
    } else {
        let prev = pages_read(b, htmls.drop_last());
        let html = htmls.last();
        let s = stripped(lines(html), htmls.len() as usize, prev.formatting);
        ReaderView {
            raw_pages: prev.raw_pages.push(html),
            raw_pages_modified: prev.raw_pages_modified.push(html),
            parsed_pages: prev.parsed_pages.push(s.0),
            formatting: s.2,
            ..prev
        }
    }
}

/// The state after the book with `total` pages is opened at `current`.
pub open spec fn first_set_up(b: ReaderView, current: i32, total: i32) -> ReaderView {
    page_loaded(
        ReaderView {
            epub_is_open: true,
            current_page: current,
            total_pages: total,
            page_box: decimal(current as int),
            total_box: decimal(total as int),
            current_view: READ_MODE,
            ..b
        },
        current,
    )
}

/// The state after the book is closed.
pub open spec fn all_cleared(b: ReaderView) -> ReaderView {
    ReaderView {
        epub_filepath: seq![],
        current_page: 1,
        total_pages: 0,
        page_box: seq!['0'],
        total_box: seq!['0'],
        text_page: seq![],
        raw_pages: seq![],
        raw_pages_modified: seq![],
        parsed_pages: seq![],
        formatting: Map::empty(),
        cover_pixels: seq![],
        book_has_cover: false,
        width_cover: 0,
        height_cover: 0,
        epub_is_open: false,
        rich_page: seq![],
        current_view: IDLE,
        ..b
    }
}

/// The state of a reader that has not opened anything.
pub open spec fn reader_initial() -> ReaderView {
    ReaderView {
        metadata: empty_metadata(),
        current_page: 0,
        total_pages: 0,
        page_box: seq!['0'],
        total_box: seq!['0'],
        epub_is_open: false,
        epub_filepath: seq![],
        raw_pages: seq![],
        raw_pages_modified: seq![],
        parsed_pages: seq![],
        formatting: Map::empty(),
        text_page: seq![],
        html_page: seq![],
        rich_page: seq![],
        current_view: IDLE,
        ultimate_view: IDLE,
        cover_pixels: seq![],
        book_has_cover: false,
        width_cover: 0,
        height_cover: 0,
        ocr_text: seq![],
        bar_text: seq![],
    }
}

/// A copy of a list of strings.
fn copy_strings(v: &Vec<String>) -> (r: Vec<String>)
    ensures
        strs(r@) == strs(v@),
{
    let mut r: Vec<String> = Vec::new();
    let mut i: usize = 0;
    while i < v.len()
        invariant
            i <= v.len(),
            strs(r@) == strs(v@).take(i as int),
        decreases v.len() - i,
    {
        let ghost before = r@;
        r.push(v[i].clone());
        assert(strs(r@) =~= strs(before).push(v@[i as int]@));
        assert(strs(r@) =~= strs(v@).take(i + 1));
        i = i + 1;
    }
    assert(strs(v@).take(v.len() as int) =~= strs(v@));
    r
}

impl BookState {
    /// A reader with no book open.
    pub fn new() -> (b: BookState)
        ensures
            b@ == reader_initial(),
    {
        let zero = string_of_char('0');
        let b = BookState {
            current_page_i32: 0,
            total_pages_i32: 0,
            current_page_string: zero.clone(),
            total_page_string: zero,
            metadata: BookMetadata::new(),
            epub_is_open: false,
            epub_filepath: String::new(),
            raw_pages: Vec::new(),
            raw_pages_modified: Vec::new(),
            parsed_pages: Vec::new(),
            formatting_info: FormatMap::new(),
            current_text_page: String::new(),
            current_html_page: String::new(),
            current_rich_text_page: Vec::new(),
            current_view: IDLE,
            ultimate_view: IDLE,
            cover_pixels: Vec::new(),
            book_has_cover: false,
            width_cover: 0,
            height_cover: 0,
            ocr_text: String::new(),
            bar_text: String::new(),
        };
        assert(strs(b.raw_pages@) =~= Seq::<Seq<char>>::empty());
        assert(strs(b.raw_pages_modified@) =~= Seq::<Seq<char>>::empty());
        assert(strs(b.parsed_pages@) =~= Seq::<Seq<char>>::empty());
        assert(runs_view(b.current_rich_text_page@) =~= Seq::<(RunStyle, Seq<char>)>::empty());
        assert(b@ =~= reader_initial());
        b
    }

    /// Loads page `n` into the view, as `page_loaded` says.
    fn load_page(&mut self, n: i32)
        requires
            n > i32::MIN,
        ensures
            final(self)@ == page_loaded(old(self)@, n),
    {
        if n >= 1 && ((n - 1) as usize) < self.raw_pages.len() {
            self.current_html_page = self.raw_pages[(n - 1) as usize].clone();
        }
        if n >= 1 && ((n - 1) as usize) < self.parsed_pages.len() {
            self.current_text_page = self.parsed_pages[(n - 1) as usize].clone();
            self.current_rich_text_page = create_rich_page(
                self.current_text_page.as_str(),
                n as usize,
                &self.formatting_info,
            );
        }
    }

    /// Keeps the shown page's HTML as edited.
    pub fn save_current_modified_page(&mut self)
        requires
            can_save(old(self)@),
        ensures
            final(self)@ == page_saved(old(self)@),
    {
        let i = self.current_page_i32 as usize - 1;
        let ghost before = self.raw_pages_modified@;
        self.raw_pages_modified.remove(i);
        let html = self.current_html_page.clone();
        self.raw_pages_modified.insert(i, html);
        assert(self.raw_pages_modified@ == before.update(i as int, html));
        assert(strs(self.raw_pages_modified@) =~= strs(before).update(i as int, html@));
    }

    /// Goes to the next page, no further than the last.
    pub fn next_page(&mut self)
        requires
            can_turn(old(self)@, true),
        ensures
            final(self)@ == (if old(self)@.epub_is_open {
                moved_to(
                    ReaderView { current_page: parse_i32(old(self)@.page_box).unwrap(), ..old(self)@ },
                    next_number(old(self)@),
                )
            } else {
                old(self)@
            }),
    {
        if self.epub_is_open {
            let cs = chars_of(self.current_page_string.as_str());
            self.current_page_i32 = parse_i32_exec(cs.as_slice()).unwrap();
            self.save_current_modified_page();
            self.current_page_i32 = self.current_page_i32 + 1;
            if self.current_page_i32 >= self.total_pages_i32 {
                self.current_page_i32 = self.total_pages_i32;
            }
            self.current_page_string = decimal_string(self.current_page_i32);
            let n = self.current_page_i32;
            self.load_page(n);
        }
    }

    /// Goes to the previous page, no further back than the first.
    pub fn previous_page(&mut self)
        requires
            can_turn(old(self)@, false),
        ensures
            final(self)@ == (if old(self)@.epub_is_open {
                moved_to(
                    ReaderView { current_page: parse_i32(old(self)@.page_box).unwrap(), ..old(self)@ },
                    previous_number(old(self)@),
                )
            } else {
                old(self)@
            }),
    {
        if self.epub_is_open {
            let cs = chars_of(self.current_page_string.as_str());
            self.current_page_i32 = parse_i32_exec(cs.as_slice()).unwrap();
            self.save_current_modified_page();
            self.current_page_i32 = self.current_page_i32 - 1;
            if self.current_page_i32 <= 1 {
                self.current_page_i32 = 1;
            }
            self.current_page_string = decimal_string(self.current_page_i32);
            let n = self.current_page_i32;
            self.load_page(n);
        }
    }

    /// Jumps as `jumped_to` says: for `flag == JUMP_BY_BOX` to the page typed
    /// in the page box, else to the current page (set by a search).
    pub fn jump_to_page(&mut self, flag: u8)
        requires
            can_jump(old(self)@, flag),
        ensures
            final(self)@ == jumped_to(old(self)@, flag),
    {
        if self.epub_is_open {
            let target = if flag == JUMP_BY_BOX {
                let cs = chars_of(self.current_page_string.as_str());
                if all_digits_chars(cs.as_slice()) {
                    Some(parse_i32_exec(cs.as_slice()).unwrap())
                } else {
                    None
                }
            } else {
                Some(self.current_page_i32)
            };
            match target {
                Some(page_to_jump_to) => {
                    if page_to_jump_to <= self.total_pages_i32 && page_to_jump_to >= 0 {
                        self.save_current_modified_page();
                        self.current_page_i32 = page_to_jump_to;
                        self.current_page_string = decimal_string(self.current_page_i32);
                        let n = self.current_page_i32;
                        self.load_page(n);
                    } else {
                        self.current_page_string = decimal_string(self.current_page_i32);
                    }
                },
                None => {
                    self.current_page_string = decimal_string(self.current_page_i32);
                },
            }
        }
    }

    /// Closes the book.
    pub fn clear_all(&mut self)
        ensures
            final(self)@ == all_cleared(old(self)@),
    {
        self.epub_filepath = String::new();
        self.current_page_i32 = 1;
        self.total_pages_i32 = 0;
        self.current_page_string = string_of_char('0');
        self.total_page_string = string_of_char('0');
        self.current_text_page = String::new();
        self.raw_pages = Vec::new();
        self.raw_pages_modified = Vec::new();
        self.parsed_pages = Vec::new();
        self.formatting_info.clear();
        self.cover_pixels = Vec::new();
        self.book_has_cover = false;
        self.width_cover = 0;
        self.height_cover = 0;
        self.epub_is_open = false;
        self.current_rich_text_page = Vec::new();
        self.current_view = IDLE;
        assert(strs(self.raw_pages@) =~= Seq::<Seq<char>>::empty());
        assert(strs(self.raw_pages_modified@) =~= Seq::<Seq<char>>::empty());
        assert(strs(self.parsed_pages@) =~= Seq::<Seq<char>>::empty());
        assert(runs_view(self.current_rich_text_page@) =~= Seq::<(RunStyle, Seq<char>)>::empty());
        assert(self@ =~= all_cleared(old(self)@));
    }

    /// Opens the book with `total_pages` pages at `current_page`.
    pub fn first_setup(&mut self, current_page: i32, total_pages: i32)
        requires
            current_page > i32::MIN,
        ensures
            final(self)@ == first_set_up(old(self)@, current_page, total_pages),
    {
        self.epub_is_open = true;
        self.current_page_i32 = current_page;
        self.total_pages_i32 = total_pages;
        self.current_page_string = decimal_string(current_page);
        self.total_page_string = decimal_string(total_pages);
        self.current_page_string = decimal_string(self.current_page_i32);
        self.current_view = READ_MODE;
        self.load_page(current_page);
    }

    /// Shows `view`, remembering the view shown until now.
    pub fn swap_view(&mut self, view: u8)
        ensures
            final(self)@ == (ReaderView {
                ultimate_view: old(self)@.current_view,
                current_view: view,
                ..old(self)@
            }),
    {
        self.ultimate_view = self.current_view;
        self.current_view = view;
    }

    /// Shows `view`, leaving the view remembered as before.
    pub fn set_current_view(&mut self, view: u8)
        ensures
            final(self)@ == (ReaderView { current_view: view, ..old(self)@ }),
    {
        self.current_view = view;
    }

    /// Adds a page of the book: its HTML and its text stripped of markup.
    pub fn add_page(&mut self, raw: String, parsed: String)
        ensures
            final(self)@ == (ReaderView {
                raw_pages: old(self)@.raw_pages.push(raw@),
                raw_pages_modified: old(self)@.raw_pages_modified.push(raw@),
                parsed_pages: old(self)@.parsed_pages.push(parsed@),
                ..old(self)@
            }),
    {
        let ghost r0 = self.raw_pages@;
        let ghost m0 = self.raw_pages_modified@;
        let ghost p0 = self.parsed_pages@;
        self.raw_pages.push(raw.clone());
        self.raw_pages_modified.push(raw);
        self.parsed_pages.push(parsed);
        assert(strs(self.raw_pages@) =~= strs(r0).push(self.raw_pages@.last()@));
        assert(strs(self.raw_pages_modified@) =~= strs(m0).push(self.raw_pages_modified@.last()@));
        assert(strs(self.parsed_pages@) =~= strs(p0).push(self.parsed_pages@.last()@));
    }

    /// Reads the pages `htmls` of an opened book and opens it at its first
    /// page, as `pages_read` and `first_set_up` say.
    pub fn load_pages(&mut self, htmls: &Vec<String>)
        requires
            calibre_patterns_ok(),
            htmls.len() <= i32::MAX,
        ensures
            final(self)@ == first_set_up(
                pages_read(old(self)@, strs(htmls@)),
                1,
                htmls.len() as i32,
            ),
    {
        let ghost b = self@;
        let ghost hs = strs(htmls@);
        let mut page: usize = 0;
        assert(hs.take(0) == Seq::<Seq<char>>::empty());
        while page < htmls.len()
            invariant
                page <= htmls.len(),
                hs == strs(htmls@),
                calibre_patterns_ok(),
                self@ == pages_read(b, hs.take(page as int)),
            decreases htmls.len() - page,
        {
            let ghost before = self@;
            let html = htmls[page].clone();
            page = page + 1;
            let parsed = parse_calibre(html.as_str(), page, &mut self.formatting_info);
            self.add_page(html, parsed);
            assert(hs.take(page as int).drop_last() == hs.take(page - 1));
            assert(hs.take(page as int).last() == hs[page - 1]);
        }
        assert(hs.take(htmls.len() as int) == hs);
        self.first_setup(1, htmls.len() as i32);
    }

    /// The HTML of every page, as edited.
    pub fn modified_pages(&self) -> (r: Vec<String>)
        ensures
            strs(r@) == self@.raw_pages_modified,
    {
        copy_strings(&self.raw_pages_modified)
    }

    /// The text of every page, stripped of markup.
    pub fn parsed_pages(&self) -> (r: Vec<String>)
        ensures
            strs(r@) == self@.parsed_pages,
    {
        copy_strings(&self.parsed_pages)
    }

    /// The layout of the shown page.
    pub fn rich_page(&self) -> (r: Vec<Run>)
        ensures
            runs_view(r@) == self@.rich_page,
    {
        let mut r: Vec<Run> = Vec::new();
        let mut i: usize = 0;
        while i < self.current_rich_text_page.len()
            invariant
                i <= self.current_rich_text_page.len(),
                runs_view(r@) == runs_view(self.current_rich_text_page@).take(i as int),
            decreases self.current_rich_text_page.len() - i,
        {
            let run = &self.current_rich_text_page[i];
            let ghost before = r@;
            r.push(Run { style: run.style, text: run.text.clone() });
            assert(runs_view(r@) =~= runs_view(before).push((run.style, run.text@)));
            assert(runs_view(r@) =~= runs_view(self.current_rich_text_page@).take(i + 1));
            i = i + 1;
        }
        assert(runs_view(self.current_rich_text_page@).take(
            self.current_rich_text_page.len() as int,
        ) =~= runs_view(self.current_rich_text_page@));
        r
    }

    /// The page box, as typed.
    pub fn page_box(&self) -> (r: String)
        ensures
            r@ == self@.page_box,
    {
        self.current_page_string.clone()
    }

    /// Sets the page box, as typed.
    pub fn set_page_box(&mut self, text: String)
        ensures
            final(self)@ == (ReaderView { page_box: text@, ..old(self)@ }),
    {
        self.current_page_string = text;
    }

    /// The shown page's HTML, as edited.
    pub fn html_page(&self) -> (r: String)
        ensures
            r@ == self@.html_page,
    {
        self.current_html_page.clone()
    }

    /// Sets the shown page's HTML, as edited.
    pub fn set_html_page(&mut self, html: String)
        ensures
            final(self)@ == (ReaderView { html_page: html@, ..old(self)@ }),
    {
        self.current_html_page = html;
    }

    /// The text of the search bar.
    pub fn bar_text(&self) -> (r: String)
        ensures
            r@ == self@.bar_text,
    {
        self.bar_text.clone()
    }

    /// Sets the text of the search bar.
    pub fn set_bar_text(&mut self, text: String)
        ensures
            final(self)@ == (ReaderView { bar_text: text@, ..old(self)@ }),
    {
        self.bar_text = text;
    }

    /// The current page (counted from 1).
    pub fn current_page(&self) -> (r: i32)
        ensures
            r == self@.current_page,
    {
        self.current_page_i32
    }

    /// Sets the current page.
    pub fn set_current_page(&mut self, page: i32)
        ensures
            final(self)@ == (ReaderView { current_page: page, ..old(self)@ }),
    {
        self.current_page_i32 = page;
    }

    /// The view shown.
    pub fn current_view(&self) -> (r: u8)
        ensures
            r == self@.current_view,
    {
        self.current_view
    }

    /// A book is open.
    pub fn is_open(&self) -> (r: bool)
        ensures
            r == self@.epub_is_open,
    {
        self.epub_is_open
    }

    /// Fills the metadata from what the book gives, as `metadata_filled`
    /// says.
    pub fn fill_metadata(
        &mut self,
        creator: Option<String>,
        title: Option<String>,
        description: Option<String>,
        language: Option<String>,
        css: Option<Option<String>>,
        stylesheet: Option<Option<String>>,
    )
        ensures
            final(self)@ == (ReaderView {
                metadata: metadata_filled(
                    old(self)@.metadata,
                    creator,
                    title,
                    description,
                    language,
                    css,
                    stylesheet,
                ),
                ..old(self)@
            }),
    {
        let ghost m0 = self@.metadata;
        let ghost (c0, t0, d0, l0, s0, y0) = (creator, title, description, language, css, stylesheet);
        if let Some(a) = creator {
            self.metadata.author = a;
        }
        if let Some(t) = title {
            self.metadata.title = t;
        }
        if let Some(d) = description {
            self.metadata.description = d;
        }
        if let Some(l) = language {
            self.metadata.language = l;
        }
        let chosen = if css.is_some() {
            css
        } else {
            stylesheet
        };
        if let Some(Some(text)) = chosen {
            self.metadata.stylesheet = text;
        }
        self.metadata.generator = "eeBOOK Reader".to_owned();
        assert(self@.metadata == metadata_filled(m0, c0, t0, d0, l0, s0, y0));
    }

    /// Decodes the cover that `cover_pixels` holds as read from the book (a
    /// JPEG) into RGBA pixels, records them with the picture's size, and
    /// names `cover.jpeg` as the cover image. `false`, with nothing changed,
    /// when the bytes do not decode.
    pub fn set_cover(&mut self) -> (ok: bool)
        ensures
            ok == decoded_rgba(old(self)@.cover_pixels) is Some,
            ok ==> final(self)@ == cover_decoded(
                old(self)@,
                decoded_rgba(old(self)@.cover_pixels)->0,
                "cover.jpeg"@,
            ),
            !ok ==> final(self)@ == old(self)@,
    {
        match decode_rgba(self.cover_pixels.as_slice()) {
            Some((pixels, width, height)) => {
                self.cover_pixels = pixels;
                self.width_cover = width;
                self.height_cover = height;
                self.metadata.cover_image = "cover.jpeg".to_owned();
                true
            },
            None => false,
        }
    }

    /// Records the default cover, whose encoded bytes (a JPEG) are `encoded`
    /// when they could be read, and names `no_cover.jpeg` as the cover image.
    /// Without bytes the cover is left empty and its size as it was. `false`,
    /// with nothing changed, when the bytes do not decode.
    pub fn set_default_cover(&mut self, encoded: Option<&[u8]>) -> (ok: bool)
        ensures
            match encoded {
                None => ok && final(self)@ == (ReaderView {
                    cover_pixels: seq![],
                    metadata: MetadataView { cover_image: "no_cover.jpeg"@, ..old(self)@.metadata },
                    ..old(self)@
                }),
                Some(e) => {
                    &&& ok == decoded_rgba(e@) is Some
                    &&& ok ==> final(self)@ == cover_decoded(
                        old(self)@,
                        decoded_rgba(e@)->0,
                        "no_cover.jpeg"@,
                    )
                    &&& !ok ==> final(self)@ == old(self)@
                },
            },
    {
        match encoded {
            None => {
                self.cover_pixels = Vec::new();
                self.metadata.cover_image = "no_cover.jpeg".to_owned();
                true
            },
            Some(e) => match decode_rgba(e) {
                Some((pixels, width, height)) => {
                    self.cover_pixels = pixels;
                    self.width_cover = width;
                    self.height_cover = height;
                    self.metadata.cover_image = "no_cover.jpeg".to_owned();
                    true
                },
                None => false,
            },
        }
    }

    /// Takes the cover of a book being opened: the book's own cover when it
    /// has one (recorded as read, then decoded as `set_cover` says), else the
    /// default one (`set_default_cover`, over `default_cover`). `false`,
    /// where the cover to use does not decode.
    pub fn take_cover(&mut self, cover: Option<Vec<u8>>, default_cover: Option<&[u8]>) -> (ok: bool)
        ensures
            match cover {
                Some(c) => {
                    let raw = ReaderView { cover_pixels: c@, book_has_cover: true, ..old(self)@ };
                    &&& ok == decoded_rgba(c@) is Some
                    &&& ok ==> final(self)@ == cover_decoded(raw, decoded_rgba(c@)->0, "cover.jpeg"@)
                    &&& !ok ==> final(self)@ == raw
                },
                None => {
                    let raw = ReaderView { book_has_cover: false, ..old(self)@ };
                    match default_cover {
                        None => ok && final(self)@ == (ReaderView {
                            cover_pixels: seq![],
                            metadata: MetadataView { cover_image: "no_cover.jpeg"@, ..raw.metadata },
                            ..raw
                        }),
                        Some(e) => {
                            &&& ok == decoded_rgba(e@) is Some
                            &&& ok ==> final(self)@ == cover_decoded(
                                raw,
                                decoded_rgba(e@)->0,
                                "no_cover.jpeg"@,
                            )
                            &&& !ok ==> final(self)@ == raw
                        },
                    }
                },
            },
    {
        match cover {
            Some(c) => {
                self.cover_pixels = c;
                self.book_has_cover = true;
                self.set_cover()
            },
            None => {
                self.book_has_cover = false;
                self.set_default_cover(default_cover)
            },
        }
    }

    /// Sets where the book lies.
    pub fn set_filepath(&mut self, path: String)
        ensures
            final(self)@ == (ReaderView { epub_filepath: path@, ..old(self)@ }),
    {
        self.epub_filepath = path;
    }

    /// Where the book lies.
    pub fn filepath(&self) -> (r: String)
        ensures
            r@ == self@.epub_filepath,
    {
        self.epub_filepath.clone()
    }

    /// The number of pages of the book.
    pub fn total_pages(&self) -> (r: i32)
        ensures
            r == self@.total_pages,
    {
        self.total_pages_i32
    }

    /// The cover: its pixels, width and height.
    pub fn cover_image(&self) -> (r: (Vec<u8>, u32, u32))
        ensures
            r.0@ == self@.cover_pixels,
            r.1 == self@.width_cover,
            r.2 == self@.height_cover,
    {
        (self.cover_pixels.clone(), self.width_cover, self.height_cover)
    }
}

/// A one-character string.
fn string_of_char(c: char) -> (s: String)
    ensures
        s@ == seq![c],
{
    let mut v: Vec<char> = Vec::new();
    v.push(c);
    crate::text::string_of(v.as_slice())
}

/// Every character of `s` is a decimal digit (`u8::is_ascii_digit` on each
/// byte).
fn all_digits_chars(s: &[char]) -> (b: bool)
    ensures
        b == all_digits(s@),
{
    crate::text::all_digits_exec(s)
}

} // verus!

//! A chapter of a book: its title, headings and paragraphs, read from the
//! chapter's HTML, and the pages it is cut into.
use vstd::prelude::*;
use vstd::arithmetic::div_mod::{
    lemma_div_is_ordered, lemma_div_multiples_vanish, lemma_fundamental_div_mod_converse,
};
use vstd::string::*;

use crate::constants::ELEMENTS_IN_PAGE;
use crate::text::{
    blank_line, chars_of, concat, contains, contains_chars, lemma_concat_append,
    lemma_concat_push, newline, extend_chars, extend_str, replace, replace_chars, str_eq, string_of, trim, trim_chars,
};

verus! {

// ---------------------------------------------------------------------
// HTML parsing (tl)
// ---------------------------------------------------------------------

/// The nodes of the document that `tl::parse` builds from `html` with the
/// default options, in document order: for an element its tag name and its
/// inner text, for any other node nothing; no document when parsing fails.
pub uninterp spec fn tl_nodes(html: Seq<char>) -> Option<Seq<Option<(Seq<char>, Seq<char>)>>>;

/// The character view of one parsed node.
pub open spec fn node_view(n: Option<(String, String)>) -> Option<(Seq<char>, Seq<char>)> {
    match n {
        Some((name, text)) => Some((name@, text@)),
        None => None,
    }
}

/// The character view of the parsed document.
pub open spec fn nodes_view(r: Option<Vec<Option<(String, String)>>>) -> Option<
    Seq<Option<(Seq<char>, Seq<char>)>>,
> {
    match r {
        Some(v) => Some(v@.map_values(|n: Option<(String, String)>| node_view(n))),
        None => None,
    }
}

/// Calls `tl::parse(html, ParserOptions::default())` and lists, for each node
/// of `VDom::nodes()`, `Node::as_tag()` with the tag's `name()` and the node's
/// `inner_text()`, both decoded by `as_utf8_str`. The contract claims that the
/// list is `tl_nodes(html@)`, and, as `Parser::parse` shows, that parsing
/// fails exactly when the input is longer than `u32::MAX` bytes.
#[verifier::external_body]
fn parse_html(html: &str) -> (r: Option<Vec<Option<(String, String)>>>)
    ensures
        nodes_view(r) == tl_nodes(html@),
        r is None <==> html.spec_bytes().len() > u32::MAX,
{
    match tl::parse(html, tl::ParserOptions::default()) {
        Ok(dom) => {
            let parser = dom.parser();
            Some(
                dom.nodes().iter().map(
                    |node| node.as_tag().map(
                        |tag| (tag.name().as_utf8_str().into_owned(), node.inner_text(parser).into_owned()),
                    ),
                ).collect(),
            )
        },
        Err(_) => None,
    }
}

/// The inner text of the last node among `nodes` whose tag is `name`, or
/// `dflt` when there is none.
pub open spec fn last_text_of(
    nodes: Seq<Option<(Seq<char>, Seq<char>)>>,
    name: Seq<char>,
    dflt: Seq<char>,
) -> Seq<char>
    decreases nodes.len(),
{
    if nodes.len() == 0 {
        dflt
    } else {
        match nodes.last() {
            Some((n, t)) if n == name => t,
            _ => last_text_of(nodes.drop_last(), name, dflt),
        }
    }
}

/// The inner texts of the nodes among `nodes` whose tag is `name`, in order.
pub open spec fn texts_of(nodes: Seq<Option<(Seq<char>, Seq<char>)>>, name: Seq<char>) -> Seq<
    Seq<char>,
>
    decreases nodes.len(),
{
    if nodes.len() == 0 {
        seq![]
    } else {
        match nodes.last() {
            Some((n, t)) if n == name => texts_of(nodes.drop_last(), name).push(t),
            _ => texts_of(nodes.drop_last(), name),
        }
    }
}

/// A chapter's file path as it is stored: trimmed, `"%20"` turned into
/// spaces, and `'/'` into `'\\'`.
pub open spec fn normalize_path(path: Seq<char>) -> Seq<char> {
    let t = trim(path);
    if contains(t, "%20"@) {
        replace(replace(t, "%20"@, " "@), "/"@, "\\"@)
    } else {
        replace(t, "/"@, "\\"@)
    }
}

// ---------------------------------------------------------------------
// The chapter and its model
// ---------------------------------------------------------------------

/// A chapter: where it lies in the book, its title, heading, sub-heading and
/// paragraphs.
#[allow(non_snake_case)]
#[derive(Clone)]
pub struct Chapter {
    path: String,
    id: usize,
    title: String,
    heading: String,
    subHeading: String,
    paragraphs: Vec<String>,
    nParagraphs: usize,
}

/// What a chapter holds, as sequences of characters.
pub struct ChapterView {
    pub path: Seq<char>,
    pub id: nat,
    pub title: Seq<char>,
    pub heading: Seq<char>,
    pub sub_heading: Seq<char>,
    pub paragraphs: Seq<Seq<char>>,
    pub n_paragraphs: nat,
}

/// `"\n"` as characters.
fn newline_chars() -> (v: Vec<char>)
    ensures
        v@ == newline(),
{
    let mut v = Vec::new();
    v.push('\n');
    v
}

/// `"\n\n"` as characters.
fn blank_chars() -> (v: Vec<char>)
    ensures
        v@ == blank_line(),
{
    let mut v = Vec::new();
    v.push('\n');
    v.push('\n');
    v
}

/// The character sequences of a list of strings.
pub open spec fn strings_view(v: Seq<String>) -> Seq<Seq<char>> {
    v.map_values(|s: String| s@)
}

impl View for Chapter {
    type V = ChapterView;

    closed spec fn view(&self) -> ChapterView {
        ChapterView {
            path: self.path@,
            id: self.id as nat,
            title: self.title@,
            heading: self.heading@,
            sub_heading: self.subHeading@,
            paragraphs: strings_view(self.paragraphs@),
            n_paragraphs: self.nParagraphs as nat,
        }
    }
}

/// The chapter `c` after reading `html` (parsed as `nodes`) with the given id
/// and path: the last `head`, `h1` and `h2` texts become title, heading and
/// sub-heading, the `p` texts are added to the paragraphs.
pub open spec fn filled(
    c: ChapterView,
    nodes: Option<Seq<Option<(Seq<char>, Seq<char>)>>>,
    id: nat,
    path: Seq<char>,
) -> ChapterView {
    let paragraphs = match nodes {
        Some(ns) => c.paragraphs + texts_of(ns, "p"@),
        None => c.paragraphs,
    };
    ChapterView {
        path: normalize_path(path),
        id: id,
        title: match nodes {
            Some(ns) => last_text_of(ns, "head"@, c.title),
            None => c.title,
        },
        heading: match nodes {
            Some(ns) => last_text_of(ns, "h1"@, c.heading),
            None => c.heading,
        },
        sub_heading: match nodes {
            Some(ns) => last_text_of(ns, "h2"@, c.sub_heading),
            None => c.sub_heading,
        },
        paragraphs: paragraphs,
        n_paragraphs: paragraphs.len(),
    }
}

/// `c` with empty title, headings and paragraphs.
pub open spec fn cleared(c: ChapterView) -> ChapterView {
    ChapterView {
        title: seq![],
        heading: seq![],
        sub_heading: seq![],
        paragraphs: seq![],
        ..c
    }
}

// ---------------------------------------------------------------------
// Pages
// ---------------------------------------------------------------------

/// How many of title, heading and sub-heading are present.
pub open spec fn header_count(c: ChapterView) -> nat {
    (if c.title.len() > 0 { 1nat } else { 0nat }) + (if c.heading.len() > 0 {
        1nat
    } else {
        0nat
    }) + (if c.sub_heading.len() > 0 { 1nat } else { 0nat })
}

/// The text that opens the first page: the title, then the heading and the
/// sub-heading, each of these two followed by a newline.
pub open spec fn header_text(c: ChapterView) -> Seq<char> {
    (if c.title.len() > 0 { c.title } else { seq![] }) + (if c.heading.len() > 0 {
        c.heading + newline()
    } else {
        seq![]
    }) + (if c.sub_heading.len() > 0 { c.sub_heading + newline() } else { seq![] })
}

/// A paragraph as it is written on a page: followed by a blank line.
pub open spec fn block(p: Seq<char>) -> Seq<char> {
    p + blank_line()
}

/// Paragraphs written one after the other.
pub open spec fn blocks(ps: Seq<Seq<char>>) -> Seq<char> {
    concat(ps.map_values(|p: Seq<char>| block(p)))
}

/// How many paragraphs share the first page with the headers.
pub open spec fn first_page_paragraphs(c: ChapterView) -> int {
    let room = ELEMENTS_IN_PAGE - header_count(c);
    if room <= c.paragraphs.len() {
        room
    } else {
        c.paragraphs.len() as int
    }
}

/// The paragraphs that follow the first page.
pub open spec fn rest_paragraphs(c: ChapterView) -> Seq<Seq<char>> {
    c.paragraphs.subrange(first_page_paragraphs(c), c.paragraphs.len() as int)
}

/// Length of one stretch of the following paragraphs: a full page, then one
/// paragraph that the page break swallows.
pub open spec fn stretch() -> int {
    ELEMENTS_IN_PAGE + 1
}

/// The pages that the paragraphs `r` fill after the first page. Each full page
/// holds `ELEMENTS_IN_PAGE` paragraphs, and the paragraph that comes after a
/// full page is dropped with the page break; the paragraphs left at the end
/// make one more page.
pub open spec fn rest_pages(r: Seq<Seq<char>>) -> Seq<Seq<char>> {
    let q = r.len() as int / stretch();
    let left = r.len() as int % stretch();
    Seq::new(
        q as nat,
        |j: int| blocks(r.subrange(j * stretch(), j * stretch() + ELEMENTS_IN_PAGE)),
    ) + if left > 0 {
        seq![blocks(r.subrange(q * stretch(), r.len() as int))]
    } else {
        seq![]
    }
}

/// The first page: the headers and as many paragraphs as fit after them.
pub open spec fn first_page(c: ChapterView) -> Seq<char> {
    header_text(c) + blocks(c.paragraphs.take(first_page_paragraphs(c)))
}

/// The texts of all pages of the chapter, in order.
pub open spec fn page_texts(c: ChapterView) -> Seq<Seq<char>> {
    seq![first_page(c)] + rest_pages(rest_paragraphs(c))
}

// ---------------------------------------------------------------------
// Styled layout
// ---------------------------------------------------------------------

/// The role of a stretch of text on a rendered page.
#[derive(Clone, Copy, PartialEq, Eq, Structural, Debug)]
pub enum TextStyle {
    Title,
    Heading,
    SubHeading,
    Paragraph,
    Plain,
}

/// A stretch of text and its role.
#[derive(Clone)]
pub struct Piece {
    pub style: TextStyle,
    pub text: String,
}

/// Appends a piece to `out`.
fn push_piece(out: &mut Vec<Piece>, style: TextStyle, text: String)
    ensures
        pieces_view(final(out)@) == pieces_view(old(out)@).push((style, text@)),
{
    let ghost before = out@;
    out.push(Piece { style, text });
    assert(pieces_view(out@) =~= pieces_view(before).push((style, text@)));
}

/// The models of a list of laid-out pages.
pub open spec fn layouts_view(v: Seq<Vec<Piece>>) -> Seq<Seq<(TextStyle, Seq<char>)>> {
    v.map_values(|p: Vec<Piece>| pieces_view(p@))
}

/// The model of a list of pieces.
pub open spec fn pieces_view(ps: Seq<Piece>) -> Seq<(TextStyle, Seq<char>)> {
    ps.map_values(|p: Piece| (p.style, p.text@))
}

/// The text that pieces spell out, one after the other.
pub open spec fn pieces_text(ps: Seq<(TextStyle, Seq<char>)>) -> Seq<char> {
    concat(ps.map_values(|p: (TextStyle, Seq<char>)| p.1))
}

/// The headers as pieces: the title, then the heading and the sub-heading,
/// each followed by a newline.
pub open spec fn header_pieces(c: ChapterView) -> Seq<(TextStyle, Seq<char>)> {
    (if c.title.len() > 0 { seq![(TextStyle::Title, c.title)] } else { seq![] }) + (if c.heading.len()
        > 0 {
        seq![(TextStyle::Heading, c.heading), (TextStyle::Plain, newline())]
    } else {
        seq![]
    }) + (if c.sub_heading.len() > 0 {
        seq![(TextStyle::SubHeading, c.sub_heading), (TextStyle::Plain, newline())]
    } else {
        seq![]
    })
}

/// Paragraphs as pieces, each followed by a blank line.
pub open spec fn paragraph_pieces(ps: Seq<Seq<char>>) -> Seq<(TextStyle, Seq<char>)>
    decreases ps.len(),
{
    if ps.len() == 0 {
        seq![]
    } else {
        paragraph_pieces(ps.drop_last()) + seq![
            (TextStyle::Paragraph, ps.last()),
            (TextStyle::Plain, blank_line()),
        ]
    }
}

/// The layout of the pages, in the same cut as `page_texts`.
pub open spec fn page_layouts(c: ChapterView) -> Seq<Seq<(TextStyle, Seq<char>)>> {
    let r = rest_paragraphs(c);
    let q = r.len() as int / stretch();
    let left = r.len() as int % stretch();
    seq![header_pieces(c) + paragraph_pieces(c.paragraphs.take(first_page_paragraphs(c)))]
        + Seq::new(
        q as nat,
        |j: int| paragraph_pieces(r.subrange(j * stretch(), j * stretch() + ELEMENTS_IN_PAGE)),
    ) + if left > 0 {
        seq![paragraph_pieces(r.subrange(q * stretch(), r.len() as int))]
    } else {
        seq![]
    }
}

/// How many paragraphs the whole chapter shows.
pub open spec fn chapter_paragraphs(c: ChapterView) -> int {
    if c.n_paragraphs <= c.paragraphs.len() {
        c.n_paragraphs as int
    } else {
        c.paragraphs.len() as int
    }
}

/// The layout of the whole chapter on one page.
pub open spec fn chapter_layout(c: ChapterView) -> Seq<(TextStyle, Seq<char>)> {
    header_pieces(c) + paragraph_pieces(c.paragraphs.take(chapter_paragraphs(c)))
}

// ---------------------------------------------------------------------
// Lemmas
// ---------------------------------------------------------------------

/// When the paragraphs after the first page reach past `q` full stretches,
/// there is a page beyond the first `q + 1`.
proof fn lemma_more_pages(len: int, q: int)
    requires
        0 <= q,
        len >= q * stretch() + stretch(),
    ensures
        len / stretch() >= q + 1,
{
    lemma_div_is_ordered(q * stretch() + stretch(), len, stretch());
    lemma_div_multiples_vanish(q + 1, stretch());
    assert((q + 1) * stretch() == q * stretch() + stretch()) by (nonlinear_arith);
}

proof fn lemma_blocks_push(ps: Seq<Seq<char>>, p: Seq<char>)
    ensures
        blocks(ps.push(p)) == blocks(ps) + block(p),
{
    let f = |q: Seq<char>| block(q);
    assert(ps.push(p).map_values(f) == ps.map_values(f).push(block(p)));
    lemma_concat_push(ps.map_values(f), block(p));
}

proof fn lemma_blocks_empty()
    ensures
        blocks(Seq::<Seq<char>>::empty()) == Seq::<char>::empty(),
{
    let f = |q: Seq<char>| block(q);
    assert(Seq::<Seq<char>>::empty().map_values(f) == Seq::<Seq<char>>::empty());
}

proof fn lemma_pieces_text_append(a: Seq<(TextStyle, Seq<char>)>, b: Seq<(TextStyle, Seq<char>)>)
    ensures
        pieces_text(a + b) == pieces_text(a) + pieces_text(b),
{
    let f = |p: (TextStyle, Seq<char>)| p.1;
    assert((a + b).map_values(f) == a.map_values(f) + b.map_values(f));
    lemma_concat_append(a.map_values(f), b.map_values(f));
}

proof fn lemma_pieces_text_pair(x: (TextStyle, Seq<char>), y: (TextStyle, Seq<char>))
    ensures
        pieces_text(seq![x, y]) == x.1 + y.1,
        pieces_text(seq![x]) == x.1,
        pieces_text(Seq::<(TextStyle, Seq<char>)>::empty()) == Seq::<char>::empty(),
{
    let f = |p: (TextStyle, Seq<char>)| p.1;
    assert(seq![x, y].map_values(f) == seq![x.1, y.1]);
    assert(seq![x].map_values(f) == seq![x.1]);
    assert(Seq::<(TextStyle, Seq<char>)>::empty().map_values(f) == Seq::<Seq<char>>::empty());
    assert(seq![x.1, y.1].drop_last() == seq![x.1]);
    assert(seq![x.1].drop_last() == Seq::<Seq<char>>::empty());
    assert(concat(Seq::<Seq<char>>::empty()) == Seq::<char>::empty());
    assert(Seq::<char>::empty() + x.1 == x.1);
    assert(concat(seq![x.1]) == x.1);
    assert(concat(seq![x.1, y.1]) == concat(seq![x.1]) + y.1);
}

/// Paragraph pieces spell out the paragraphs' blocks.
proof fn lemma_paragraph_pieces_text(ps: Seq<Seq<char>>)
    ensures
        pieces_text(paragraph_pieces(ps)) == blocks(ps),
    decreases ps.len(),
{
    if ps.len() == 0 {
        lemma_pieces_text_pair(
            (TextStyle::Plain, Seq::<char>::empty()),
            (TextStyle::Plain, Seq::<char>::empty()),
        );
        lemma_blocks_empty();
    } else {
        lemma_paragraph_pieces_text(ps.drop_last());
        let pair = seq![(TextStyle::Paragraph, ps.last()), (TextStyle::Plain, blank_line())];
        lemma_pieces_text_append(paragraph_pieces(ps.drop_last()), pair);
        lemma_pieces_text_pair((TextStyle::Paragraph, ps.last()), (TextStyle::Plain, blank_line()));
        lemma_blocks_push(ps.drop_last(), ps.last());
        assert(ps.drop_last().push(ps.last()) == ps);
        assert(blocks(ps.drop_last()) + (ps.last() + blank_line()) == blocks(ps.drop_last()) + ps.last()
            + blank_line());
    }
}

/// The header pieces spell out the header text.
proof fn lemma_header_pieces_text(c: ChapterView)
    ensures
        pieces_text(header_pieces(c)) == header_text(c),
{
    let t: Seq<(TextStyle, Seq<char>)> = if c.title.len() > 0 {
        seq![(TextStyle::Title, c.title)]
    } else {
        seq![]
    };
    let h: Seq<(TextStyle, Seq<char>)> = if c.heading.len() > 0 {
        seq![(TextStyle::Heading, c.heading), (TextStyle::Plain, newline())]
    } else {
        seq![]
    };
    let s: Seq<(TextStyle, Seq<char>)> = if c.sub_heading.len() > 0 {
        seq![(TextStyle::SubHeading, c.sub_heading), (TextStyle::Plain, newline())]
    } else {
        seq![]
    };
    lemma_pieces_text_append(t + h, s);
    lemma_pieces_text_append(t, h);
    lemma_pieces_text_pair((TextStyle::Title, c.title), (TextStyle::Plain, newline()));
    lemma_pieces_text_pair((TextStyle::Heading, c.heading), (TextStyle::Plain, newline()));
    lemma_pieces_text_pair((TextStyle::SubHeading, c.sub_heading), (TextStyle::Plain, newline()));
}

/// The styled layout of each page spells out exactly the text of that page:
/// the rendered pages and the plain pages that searches run on agree.
pub proof fn law_layout_matches_text(c: ChapterView)
    ensures
        page_layouts(c).len() == page_texts(c).len(),
        forall|k: int|
            0 <= k < page_texts(c).len() ==> pieces_text(#[trigger] page_layouts(c)[k])
                == page_texts(c)[k],
{
    let r = rest_paragraphs(c);
    let q = r.len() as int / stretch();
    let left = r.len() as int % stretch();
    assert forall|k: int| 0 <= k < page_texts(c).len() implies pieces_text(
        #[trigger] page_layouts(c)[k],
    ) == page_texts(c)[k] by {
        if k == 0 {
            let first = c.paragraphs.take(first_page_paragraphs(c));
            lemma_pieces_text_append(header_pieces(c), paragraph_pieces(first));
            lemma_header_pieces_text(c);
            lemma_paragraph_pieces_text(first);
        } else if k - 1 < q {
            let j = k - 1;
            lemma_paragraph_pieces_text(r.subrange(j * stretch(), j * stretch() + ELEMENTS_IN_PAGE));
        } else {
            lemma_paragraph_pieces_text(r.subrange(q * stretch(), r.len() as int));
        }
    }
}

// ---------------------------------------------------------------------
// Executable functions
// ---------------------------------------------------------------------

#[allow(non_snake_case)]
impl Chapter {
    /// An empty chapter.
    pub fn new() -> (c: Chapter)
        ensures
            c@ == (ChapterView {
                path: seq![],
                id: 0,
                title: seq![],
                heading: seq![],
                sub_heading: seq![],
                paragraphs: seq![],
                n_paragraphs: 0,
            }),
    {
        let c = Chapter {
            path: String::new(),
            id: 0,
            title: String::new(),
            heading: String::new(),
            subHeading: String::new(),
            paragraphs: Vec::new(),
            nParagraphs: 0,
        };
        assert(strings_view(c.paragraphs@) == Seq::<Seq<char>>::empty());
        c
    }

    /// Reads the chapter from its HTML: the last `head`, `h1` and `h2`
    /// elements give title, heading and sub-heading, every `p` element adds a
    /// paragraph; `id` and the normalized `path` are recorded.
    pub fn fill(&mut self, html: String, id: usize, path: String)
        ensures
            final(self)@ == filled(old(self)@, tl_nodes(html@), id as nat, path@),
    {
        self.id = id;
        let parsed = parse_html(html.as_str());
        if let Some(nodes) = parsed {
            let ghost ns = nodes@.map_values(|n: Option<(String, String)>| node_view(n));
            let ghost title0 = self.title@;
            let ghost heading0 = self.heading@;
            let ghost sub0 = self.subHeading@;
            let ghost paras0 = strings_view(self.paragraphs@);
            let mut i: usize = 0;
            assert(ns.take(0) == Seq::<Option<(Seq<char>, Seq<char>)>>::empty());
            assert(paras0 + texts_of(ns.take(0), "p"@) == paras0);
            while i < nodes.len()
                invariant
                    i <= nodes.len(),
                    ns == nodes@.map_values(|n: Option<(String, String)>| node_view(n)),
                    self.title@ == last_text_of(ns.take(i as int), "head"@, title0),
                    self.heading@ == last_text_of(ns.take(i as int), "h1"@, heading0),
                    self.subHeading@ == last_text_of(ns.take(i as int), "h2"@, sub0),
                    strings_view(self.paragraphs@) == paras0 + texts_of(ns.take(i as int), "p"@),
                    self.id == id,
                decreases nodes.len() - i,
            {
                let ghost pre = ns.take(i as int);
                assert(ns.take(i + 1).drop_last() == pre);
                assert(ns.take(i + 1).last() == node_view(nodes@[i as int]));
                if let Some((name, text)) = &nodes[i] {
                    if str_eq(name.as_str(), "head") {
                        self.addTitle(text.as_str());
                    }
                    if str_eq(name.as_str(), "h1") {
                        self.addHeading(text.as_str());
                    }
                    if str_eq(name.as_str(), "h2") {
                        self.addSubHeading(text.as_str());
                    }
                    if str_eq(name.as_str(), "p") {
                        let ghost before = self.paragraphs@;
                        self.paragraphs.push(text.clone());
                        proof {
                            assert(strings_view(self.paragraphs@) == strings_view(before).push(
                                text@,
                            ));
                        }
                    }
                }
                i = i + 1;
            }
            assert(ns.take(nodes.len() as int) == ns);
        }
        self.nParagraphs = self.paragraphs.len();
        let p = chars_of(path.as_str());
        let t = trim_chars(p.as_slice());
        let pct = chars_of("%20");
        let space = chars_of(" ");
        let slash = chars_of("/");
        let backslash = chars_of("\\");
        proof {
            reveal_strlit("%20");
            reveal_strlit("/");
        }
        if contains_chars(t.as_slice(), pct.as_slice()) {
            let a = replace_chars(t.as_slice(), pct.as_slice(), space.as_slice());
            let b = replace_chars(a.as_slice(), slash.as_slice(), backslash.as_slice());
            self.addPath(string_of(b.as_slice()));
        } else {
            let b = replace_chars(t.as_slice(), slash.as_slice(), backslash.as_slice());
            self.addPath(string_of(b.as_slice()));
        }
    }

    /// Reads the chapter again from new HTML, keeping its id and path.
    pub fn update(&mut self, html: &str)
        ensures
            final(self)@ == filled(
                cleared(old(self)@),
                tl_nodes(html@),
                old(self)@.id,
                old(self)@.path,
            ),
    {
        let html = html.to_owned();
        let path = self.path.clone();
        self.clear();
        let id = self.id;
        self.fill(html, id, path);
    }

    /// Empties title, headings and paragraphs.
    fn clear(&mut self)
        ensures
            final(self)@ == cleared(old(self)@),
    {
        self.title = String::new();
        self.heading = String::new();
        self.subHeading = String::new();
        self.paragraphs = Vec::new();
        assert(strings_view(self.paragraphs@) == Seq::<Seq<char>>::empty());
    }

    /// Sets the chapter's path.
    pub fn addPath(&mut self, path: String)
        ensures
            final(self)@ == (ChapterView { path: path@, ..old(self)@ }),
    {
        self.path = path;
    }

    /// The chapter's path.
    pub fn getPath(&self) -> (p: &String)
        ensures
            p@ == self@.path,
    {
        &self.path
    }

    /// Sets the chapter's title.
    pub fn addTitle(&mut self, title: &str)
        ensures
            final(self)@ == (ChapterView { title: title@, ..old(self)@ }),
    {
        self.title = title.to_owned();
    }

    /// Sets the chapter's heading.
    pub fn addHeading(&mut self, heading: &str)
        ensures
            final(self)@ == (ChapterView { heading: heading@, ..old(self)@ }),
    {
        self.heading = heading.to_owned();
    }

    /// Sets the chapter's sub-heading.
    pub fn addSubHeading(&mut self, subHeading: &str)
        ensures
            final(self)@ == (ChapterView { sub_heading: subHeading@, ..old(self)@ }),
    {
        self.subHeading = subHeading.to_owned();
    }

    /// Appends the header text to `cur` and tells how many headers there are.
    fn push_header(&self, cur: &mut Vec<char>) -> (h: usize)
        ensures
            final(cur)@ == old(cur)@ + header_text(self@),
            h == header_count(self@),
    {
        let ghost start = cur@;
        let mut h: usize = 0;
        let nl = newline_chars();
        if !self.title.as_str().is_empty() {
            extend_str(cur, self.title.as_str());
            h = h + 1;
        }
        let ghost after_title = cur@;
        if !self.heading.as_str().is_empty() {
            extend_str(cur, self.heading.as_str());
            h = h + 1;
            extend_chars(cur, nl.as_slice());
        }
        let ghost after_heading = cur@;
        if !self.subHeading.as_str().is_empty() {
            extend_str(cur, self.subHeading.as_str());
            h = h + 1;
            extend_chars(cur, nl.as_slice());
        }
        proof {
            let c = self@;
            let t: Seq<char> = if c.title.len() > 0 { c.title } else { seq![] };
            let hd: Seq<char> = if c.heading.len() > 0 { c.heading + newline() } else { seq![] };
            let sb: Seq<char> = if c.sub_heading.len() > 0 {
                c.sub_heading + newline()
            } else {
                seq![]
            };
            assert(after_title == start + t);
            assert(after_heading == start + t + hd);
            assert(cur@ == start + t + hd + sb);
            assert(start + t + hd + sb == start + (t + hd + sb));
        }
        h
    }

    /// The plain text of the chapter cut into pages, each page with its number.
    /// The first page holds the title, the heading and the sub-heading that are
    /// present and then paragraphs up to `ELEMENTS_IN_PAGE` elements; the
    /// following pages hold `ELEMENTS_IN_PAGE` paragraphs each, and the
    /// paragraph met when a page is full is dropped with the page break.
    /// Pages are numbered on from `pageCounter`, which ends at the last number.
    pub fn createPlainPages(&self, pageCounter: &mut i32) -> (pages: Vec<(String, i32)>)
        requires
            *old(pageCounter) + page_texts(self@).len() <= i32::MAX,
        ensures
            pages@.len() == page_texts(self@).len(),
            forall|k: int|
                0 <= k < pages@.len() ==> (#[trigger] pages@[k]).0@ == page_texts(self@)[k]
                    && pages@[k].1 == *old(pageCounter) + k + 1,
            *final(pageCounter) == *old(pageCounter) + pages@.len(),
    {
        let ghost c = self@;
        let ghost base = *pageCounter;
        let mut pages: Vec<(String, i32)> = Vec::new();
        let mut cur: Vec<char> = Vec::new();
        let h = self.push_header(&mut cur);
        let ghost head = cur@;
        let room = ELEMENTS_IN_PAGE - h;
        let n = self.paragraphs.len();
        let blank = blank_chars();
        let mut i: usize = 0;
        assert(c.paragraphs.take(0) == Seq::<Seq<char>>::empty());
        proof {
            lemma_blocks_empty();
        }
        while i < room
            invariant
                i <= room,
                room == ELEMENTS_IN_PAGE - header_count(c),
                n == c.paragraphs.len(),
                c == self@,
                blank@ == blank_line(),
                head == header_text(c),
                cur@ == head + blocks(c.paragraphs.take(if i <= n { i as int } else { n as int })),
            decreases room - i,
        {
            if i < n {
                let ghost before = cur@;
                extend_str(&mut cur, self.paragraphs[i].as_str());
                extend_chars(&mut cur, blank.as_slice());
                proof {
                    assert(self.paragraphs@[i as int]@ == c.paragraphs[i as int]);
                    assert(c.paragraphs.take(i as int).push(c.paragraphs[i as int])
                        == c.paragraphs.take(i + 1));
                    lemma_blocks_push(c.paragraphs.take(i as int), c.paragraphs[i as int]);
                    assert(before + self.paragraphs@[i as int]@ + blank_line() == head + (blocks(
                        c.paragraphs.take(i as int),
                    ) + block(c.paragraphs[i as int])));
                }
            }
            i = i + 1;
        }
        let first = if room <= n { room } else { n };
        assert(cur@ == first_page(c));
        *pageCounter = *pageCounter + 1;
        pages.push((string_of(cur.as_slice()), *pageCounter));
        let ghost rest = rest_paragraphs(c);
        let mut cur: Vec<char> = Vec::new();
        let mut elem: usize = 0;
        let ghost mut q: int = 0;
        let mut j: usize = first;
        assert(rest.subrange(0, 0) == Seq::<Seq<char>>::empty());
        while j < n
            invariant
                first <= j <= n,
                n == c.paragraphs.len(),
                c == self@,
                first == first_page_paragraphs(c),
                rest == c.paragraphs.subrange(first as int, n as int),
                blank@ == blank_line(),
                j - first == q * stretch() + elem,
                0 <= q,
                elem <= ELEMENTS_IN_PAGE,
                cur@ == blocks(rest.subrange(q * stretch(), q * stretch() + elem)),
                pages@.len() == 1 + q,
                pages@[0].0@ == first_page(c),
                forall|k: int|
                    1 <= k < pages@.len() ==> (#[trigger] pages@[k]).0@ == blocks(
                        rest.subrange((k - 1) * stretch(), (k - 1) * stretch() + ELEMENTS_IN_PAGE),
                    ),
                forall|k: int| 0 <= k < pages@.len() ==> (#[trigger] pages@[k]).1 == base + k + 1,
                *pageCounter == base + pages@.len(),
                base + page_texts(c).len() <= i32::MAX,
            decreases n - j,
        {
            if elem == ELEMENTS_IN_PAGE {
                proof {
                    lemma_more_pages(rest.len() as int, q);
                }
                *pageCounter = *pageCounter + 1;
                pages.push((string_of(cur.as_slice()), *pageCounter));
                elem = 0;
                cur = Vec::new();
                proof {
                    q = q + 1;
                    assert(rest.subrange(q * stretch(), q * stretch()) == Seq::<Seq<char>>::empty());
                    lemma_blocks_empty();
                }
            } else {
                let ghost before = cur@;
                extend_str(&mut cur, self.paragraphs[j].as_str());
                extend_chars(&mut cur, blank.as_slice());
                proof {
                    let lo = q * stretch();
                    assert(self.paragraphs@[j as int]@ == c.paragraphs[j as int]);
                    assert(rest[lo + elem] == c.paragraphs[j as int]);
                    assert(rest.subrange(lo, lo + elem).push(rest[lo + elem]) == rest.subrange(
                        lo,
                        lo + elem + 1,
                    ));
                    lemma_blocks_push(rest.subrange(lo, lo + elem), rest[lo + elem]);
                }
                elem = elem + 1;
            }
            j = j + 1;
        }
        proof {
            lemma_fundamental_div_mod_converse(rest.len() as int, stretch(), q, elem as int);
        }
        let ghost full = pages@;
        if elem != 0 {
            *pageCounter = *pageCounter + 1;
            pages.push((string_of(cur.as_slice()), *pageCounter));
            assert(pages@[pages@.len() - 1].0@ == page_texts(c)[pages@.len() - 1]);
        }
        assert forall|k: int| 0 <= k < pages@.len() implies (#[trigger] pages@[k]).0@
            == page_texts(c)[k] by {
            if 1 <= k < full.len() {
                assert(pages@[k] == full[k]);
            }
        }
        pages
    }

    /// Appends the header pieces to `out` and tells how many headers there are.
    fn push_header_pieces(&self, out: &mut Vec<Piece>) -> (h: usize)
        ensures
            pieces_view(final(out)@) == pieces_view(old(out)@) + header_pieces(self@),
            h == header_count(self@),
    {
        let ghost start = pieces_view(out@);
        let mut h: usize = 0;
        if !self.title.as_str().is_empty() {
            push_piece(out, TextStyle::Title, self.title.clone());
            h = h + 1;
        }
        let ghost after_title = pieces_view(out@);
        if !self.heading.as_str().is_empty() {
            push_piece(out, TextStyle::Heading, self.heading.clone());
            h = h + 1;
            let nl = newline_chars();
            push_piece(out, TextStyle::Plain, string_of(nl.as_slice()));
        }
        let ghost after_heading = pieces_view(out@);
        if !self.subHeading.as_str().is_empty() {
            push_piece(out, TextStyle::SubHeading, self.subHeading.clone());
            h = h + 1;
            let nl = newline_chars();
            push_piece(out, TextStyle::Plain, string_of(nl.as_slice()));
        }
        proof {
            let c = self@;
            let t: Seq<(TextStyle, Seq<char>)> = if c.title.len() > 0 {
                seq![(TextStyle::Title, c.title)]
            } else {
                seq![]
            };
            let hd: Seq<(TextStyle, Seq<char>)> = if c.heading.len() > 0 {
                seq![(TextStyle::Heading, c.heading), (TextStyle::Plain, newline())]
            } else {
                seq![]
            };
            let sb: Seq<(TextStyle, Seq<char>)> = if c.sub_heading.len() > 0 {
                seq![(TextStyle::SubHeading, c.sub_heading), (TextStyle::Plain, newline())]
            } else {
                seq![]
            };
            assert(after_title == start + t);
            assert(after_heading == start + t + hd);
            assert(pieces_view(out@) == start + t + hd + sb);
            assert(start + t + hd + sb == start + (t + hd + sb));
        }
        h
    }

    /// Appends paragraph `i` and the blank line after it to `out`.
    fn push_paragraph_piece(&self, out: &mut Vec<Piece>, i: usize)
        requires
            i < self@.paragraphs.len(),
        ensures
            pieces_view(final(out)@) == pieces_view(old(out)@) + seq![
                (TextStyle::Paragraph, self@.paragraphs[i as int]),
                (TextStyle::Plain, blank_line()),
            ],
    {
        let ghost start = pieces_view(out@);
        push_piece(out, TextStyle::Paragraph, self.paragraphs[i].clone());
        let blank = blank_chars();
        push_piece(out, TextStyle::Plain, string_of(blank.as_slice()));
        assert(self.paragraphs@[i as int]@ == self@.paragraphs[i as int]);
        assert(pieces_view(out@) == start + seq![
            (TextStyle::Paragraph, self@.paragraphs[i as int]),
            (TextStyle::Plain, blank_line()),
        ]);
    }

    /// The styled layout of the pages that `createPlainPages` cuts: the same
    /// pages, each a list of styled pieces (title, heading, sub-heading,
    /// paragraph, or plain separator) for the renderer.
    pub fn createRTFPages(&self) -> (pages: Vec<Vec<Piece>>)
        ensures
            layouts_view(pages@) == page_layouts(self@),
    {
        let ghost c = self@;
        let mut pages: Vec<Vec<Piece>> = Vec::new();
        let mut cur: Vec<Piece> = Vec::new();
        let h = self.push_header_pieces(&mut cur);
        let ghost head = pieces_view(cur@);
        assert(head == header_pieces(c));
        let room = ELEMENTS_IN_PAGE - h;
        let n = self.paragraphs.len();
        let mut i: usize = 0;
        assert(c.paragraphs.take(0) == Seq::<Seq<char>>::empty());
        assert(head + paragraph_pieces(Seq::<Seq<char>>::empty()) == head);
        while i < room
            invariant
                i <= room,
                room == ELEMENTS_IN_PAGE - header_count(c),
                n == c.paragraphs.len(),
                c == self@,
                head == header_pieces(c),
                pieces_view(cur@) == head + paragraph_pieces(
                    c.paragraphs.take(if i <= n { i as int } else { n as int }),
                ),
            decreases room - i,
        {
            if i < n {
                let ghost before = pieces_view(cur@);
                self.push_paragraph_piece(&mut cur, i);
                proof {
                    let t = c.paragraphs.take(i as int);
                    assert(c.paragraphs.take(i + 1).drop_last() == t);
                    assert(c.paragraphs.take(i + 1).last() == c.paragraphs[i as int]);
                }
            }
            i = i + 1;
        }
        let first = if room <= n { room } else { n };
        let ghost first_layout = pieces_view(cur@);
        pages.push(cur);
        let ghost rest = rest_paragraphs(c);
        let mut cur: Vec<Piece> = Vec::new();
        let mut elem: usize = 0;
        let ghost mut q: int = 0;
        let mut j: usize = first;
        assert(rest.subrange(0, 0) == Seq::<Seq<char>>::empty());
        assert(pieces_view(cur@) == Seq::<(TextStyle, Seq<char>)>::empty());
        while j < n
            invariant
                first <= j <= n,
                n == c.paragraphs.len(),
                c == self@,
                first == first_page_paragraphs(c),
                rest == c.paragraphs.subrange(first as int, n as int),
                j - first == q * stretch() + elem,
                0 <= q,
                elem <= ELEMENTS_IN_PAGE,
                pieces_view(cur@) == paragraph_pieces(
                    rest.subrange(q * stretch(), q * stretch() + elem),
                ),
                pages@.len() == 1 + q,
                pieces_view(pages@[0]@) == first_layout,
                first_layout == header_pieces(c) + paragraph_pieces(c.paragraphs.take(first as int)),
                forall|k: int|
                    1 <= k < pages@.len() ==> pieces_view((#[trigger] pages@[k])@)
                        == paragraph_pieces(
                        rest.subrange((k - 1) * stretch(), (k - 1) * stretch() + ELEMENTS_IN_PAGE),
                    ),
            decreases n - j,
        {
            if elem == ELEMENTS_IN_PAGE {
                pages.push(cur);
                elem = 0;
                cur = Vec::new();
                proof {
                    q = q + 1;
                    assert(rest.subrange(q * stretch(), q * stretch()) == Seq::<Seq<char>>::empty());
                    assert(pieces_view(cur@) == Seq::<(TextStyle, Seq<char>)>::empty());
                }
            } else {
                self.push_paragraph_piece(&mut cur, j);
                proof {
                    let lo = q * stretch();
                    assert(rest[lo + elem] == c.paragraphs[j as int]);
                    assert(rest.subrange(lo, lo + elem + 1).drop_last() == rest.subrange(
                        lo,
                        lo + elem,
                    ));
                    assert(rest.subrange(lo, lo + elem + 1).last() == rest[lo + elem]);
                }
                elem = elem + 1;
            }
            j = j + 1;
        }
        proof {
            lemma_fundamental_div_mod_converse(rest.len() as int, stretch(), q, elem as int);
        }
        let ghost full = pages@;
        if elem != 0 {
            pages.push(cur);
        }
        assert(layouts_view(pages@) =~= page_layouts(c)) by {
            assert forall|k: int| 0 <= k < pages@.len() implies #[trigger] layouts_view(pages@)[k]
                == page_layouts(c)[k] by {
                if 1 <= k < full.len() {
                    assert(pages@[k] == full[k]);
                }
            }
        }
        pages
    }

    /// The styled layout of the whole chapter on one page: the headers, then
    /// the chapter's paragraphs, each followed by a blank line.
    pub fn createRTFChap(&self) -> (layout: Vec<Piece>)
        ensures
            pieces_view(layout@) == chapter_layout(self@),
    {
        let ghost c = self@;
        let mut cur: Vec<Piece> = Vec::new();
        self.push_header_pieces(&mut cur);
        let ghost head = pieces_view(cur@);
        let n = self.paragraphs.len();
        let m = self.nParagraphs;
        let mut i: usize = 0;
        assert(c.paragraphs.take(0) == Seq::<Seq<char>>::empty());
        assert(head + paragraph_pieces(Seq::<Seq<char>>::empty()) == head);
        while i < m
            invariant
                i <= m,
                m == c.n_paragraphs,
                n == c.paragraphs.len(),
                c == self@,
                head == header_pieces(c),
                pieces_view(cur@) == head + paragraph_pieces(
                    c.paragraphs.take(if i <= n { i as int } else { n as int }),
                ),
            decreases m - i,
        {
            if i < n {
                self.push_paragraph_piece(&mut cur, i);
                proof {
                    let t = c.paragraphs.take(i as int);
                    assert(c.paragraphs.take(i + 1).drop_last() == t);
                    assert(c.paragraphs.take(i + 1).last() == c.paragraphs[i as int]);
                }
            }
            i = i + 1;
        }
        cur
    }

    /// The plain text of the whole chapter: what `createRTFChap` spells out.
    pub fn createPlainChapter(&self) -> (text: String)
        ensures
            text@ == pieces_text(chapter_layout(self@)),
    {
        let layout = self.createRTFChap();
        let mut out: Vec<char> = Vec::new();
        let mut i: usize = 0;
        let ghost ps = pieces_view(layout@);
        proof {
            lemma_pieces_text_pair(
                (TextStyle::Plain, Seq::<char>::empty()),
                (TextStyle::Plain, Seq::<char>::empty()),
            );
            assert(ps.take(0) == Seq::<(TextStyle, Seq<char>)>::empty());
        }
        while i < layout.len()
            invariant
                i <= layout.len(),
                ps == pieces_view(layout@),
                out@ == pieces_text(ps.take(i as int)),
            decreases layout.len() - i,
        {
            extend_str(&mut out, layout[i].text.as_str());
            proof {
                assert(ps.take(i + 1) == ps.take(i as int) + seq![ps[i as int]]);
                lemma_pieces_text_append(ps.take(i as int), seq![ps[i as int]]);
                lemma_pieces_text_pair(ps[i as int], ps[i as int]);
            }
            i = i + 1;
        }
        assert(ps.take(layout.len() as int) == ps);
        string_of(out.as_slice())
    }
}

} // verus!

//! Writing the edited book back as an epub: which documents go into it, in
//! which order and under which names, and the epub builder that packs them.
use vstd::prelude::*;

use epub_builder::{EpubBuilder, EpubContent, ReferenceType, ZipLibrary};

use super::implementation::{BookMetadata, MetadataView};
use crate::text::{chars_of, replace, replace_chars, string_of};

verus! {

// ---------------------------------------------------------------------
// What goes into the written book
// ---------------------------------------------------------------------

/// A document of the book, in reading order: the stem of its file name, its
/// path without its first folder, and its text when it could be read.
pub struct SourceDoc {
    pub stem: String,
    pub tail: String,
    pub text: Option<String>,
}

/// The book's cover: its path without its first folder, its bytes when they
/// could be read, and its media type.
pub struct SourceCover {
    pub tail: String,
    pub bytes: Option<Vec<u8>>,
    pub mime: String,
}

/// Something that goes into the written book.
pub enum EpubItem {
    /// The cover image: its path in the book, bytes and media type.
    Cover { href: String, bytes: Vec<u8>, mime: String },
    /// A chapter: its path in the book, its title in the table of contents,
    /// and its HTML.
    Chapter { href: String, title: String, text: String },
}

/// The model of a document.
pub struct DocView {
    pub stem: Seq<char>,
    pub tail: Seq<char>,
    pub text: Option<Seq<char>>,
}

/// The model of the cover.
pub struct CoverView {
    pub tail: Seq<char>,
    pub bytes: Option<Seq<u8>>,
    pub mime: Seq<char>,
}

/// The model of an item.
pub enum ItemView {
    Cover(Seq<char>, Seq<u8>, Seq<char>),
    Chapter(Seq<char>, Seq<char>, Seq<char>),
}

impl View for SourceDoc {
    type V = DocView;

    open spec fn view(&self) -> DocView {
        DocView {
            stem: self.stem@,
            tail: self.tail@,
            text: match self.text {
                Some(t) => Some(t@),
                None => None,
            },
        }
    }
}

impl View for SourceCover {
    type V = CoverView;

    open spec fn view(&self) -> CoverView {
        CoverView {
            tail: self.tail@,
            bytes: match self.bytes {
                Some(b) => Some(b@),
                None => None,
            },
            mime: self.mime@,
        }
    }
}

impl View for EpubItem {
    type V = ItemView;

    open spec fn view(&self) -> ItemView {
        match self {
            EpubItem::Cover { href, bytes, mime } => ItemView::Cover(href@, bytes@, mime@),
            EpubItem::Chapter { href, title, text } => ItemView::Chapter(href@, title@, text@),
        }
    }
}

/// The models of a list of documents.
pub open spec fn docs_view(v: Seq<SourceDoc>) -> Seq<DocView> {
    v.map_values(|d: SourceDoc| d@)
}

/// The models of a list of items.
pub open spec fn items_view(v: Seq<EpubItem>) -> Seq<ItemView> {
    v.map_values(|i: EpubItem| i@)
}

/// The models of a list of strings.
pub open spec fn pages_view(v: Seq<String>) -> Seq<Seq<char>> {
    v.map_values(|s: String| s@)
}

/// The title a document takes in the table of contents: its file stem,
/// `%20` written `_`.
pub open spec fn toc_title(stem: Seq<char>) -> Seq<char> {
    replace(stem, "%20"@, "_"@)
}

/// The path a file takes in the book: `\` written `/` and `%20` written `_`.
pub open spec fn book_href(tail: Seq<char>) -> Seq<char> {
    replace(replace(tail, "\\"@, "/"@), "%20"@, "_"@)
}

/// How many documents after the first were read.
pub open spec fn read_after_first(docs: Seq<DocView>) -> nat
    decreases docs.len(),
{
    if docs.len() <= 1 {
        0
    } else {
        read_after_first(docs.drop_last()) + (if docs.last().text is Some {
            1nat
        } else {
            0nat
        })
    }
}

/// The text an item brings into the book: a chapter's HTML; none for the
/// cover image.
pub open spec fn item_text(i: ItemView) -> Seq<char> {
    match i {
        ItemView::Cover(..) => seq![],
        ItemView::Chapter(_, _, t) => t,
    }
}

/// The cover image, when its bytes were read.
pub open spec fn cover_items(c: CoverView) -> Seq<ItemView> {
    match c.bytes {
        Some(b) => seq![ItemView::Cover(book_href(c.tail), b, c.mime)],
        None => seq![],
    }
}

/// What goes into the written book, in order. The first document, when it
/// was read and the book has a cover, brings the cover image and then itself
/// as it was read; each later document that was read brings, in its place,
/// the next edited page of `modified`. Documents that were not read bring
/// nothing.
pub open spec fn epub_plan(docs: Seq<DocView>, cover: Option<CoverView>, modified: Seq<Seq<char>>) -> Seq<
    ItemView,
>
    decreases docs.len(),
{
    if docs.len() == 0 {
        seq![]
    } else {
        let before = epub_plan(docs.drop_last(), cover, modified);
        let d = docs.last();
        match d.text {
            None => before,
            Some(t) => if docs.len() == 1 {
                match cover {
                    Some(c) => before + cover_items(c) + seq![
                        ItemView::Chapter(book_href(d.tail), toc_title(d.stem), t),
                    ],
                    None => before,
                }
            } else {
                before.push(
                    ItemView::Chapter(
                        book_href(d.tail),
                        toc_title(d.stem),
                        modified[read_after_first(docs.drop_last()) as int],
                    ),
                )
            },
        }
    }
}

/// The cover goes into the written book only with the first document, when
/// that document was read.
pub open spec fn uses_cover(docs: Seq<DocView>) -> bool {
    docs.len() > 0 && docs[0].text is Some
}

/// Where the first document was not read, the cover changes nothing.
proof fn lemma_plan_without_cover(docs: Seq<DocView>, cover: Option<CoverView>, modified: Seq<Seq<char>>)
    requires
        !uses_cover(docs),
    ensures
        epub_plan(docs, cover, modified) == epub_plan(docs, None, modified),
    decreases docs.len(),
{
    if docs.len() > 1 {
        assert(docs.drop_last()[0] == docs[0]);
        lemma_plan_without_cover(docs.drop_last(), cover, modified);
    } else if docs.len() == 1 {
        assert(docs.last() == docs[0]);
        assert(epub_plan(docs.drop_last(), cover, modified) =~= Seq::<ItemView>::empty());
        assert(epub_plan(docs.drop_last(), None, modified) =~= Seq::<ItemView>::empty());
    }
}

/// Whether the written book takes the cover, as `uses_cover` says: only
/// then does `epub_items` look at it.
pub fn takes_cover(docs: &Vec<SourceDoc>) -> (b: bool)
    ensures
        b == uses_cover(docs_view(docs@)),
        !b ==> forall|c: Option<CoverView>, m: Seq<Seq<char>>|
            #[trigger] epub_plan(docs_view(docs@), c, m) == epub_plan(docs_view(docs@), None, m),
{
    proof {
        if !uses_cover(docs_view(docs@)) {
            assert forall|c: Option<CoverView>, m: Seq<Seq<char>>|
                #[trigger] epub_plan(docs_view(docs@), c, m) == epub_plan(docs_view(docs@), None, m) by {
                lemma_plan_without_cover(docs_view(docs@), c, m);
            }
        }
    }
    docs.len() > 0 && docs[0].text.is_some()
}

fn clean_chars(s: &str, pat: &str, rep: &str) -> (r: String)
    requires
        pat@.len() > 0,
    ensures
        r@ == replace(s@, pat@, rep@),
{
    let a = chars_of(s);
    let p = chars_of(pat);
    let b = chars_of(rep);
    string_of(replace_chars(a.as_slice(), p.as_slice(), b.as_slice()).as_slice())
}

fn toc_title_exec(stem: &str) -> (r: String)
    ensures
        r@ == toc_title(stem@),
{
    proof {
        reveal_strlit("%20");
    }
    clean_chars(stem, "%20", "_")
}

fn book_href_exec(tail: &str) -> (r: String)
    ensures
        r@ == book_href(tail@),
{
    proof {
        reveal_strlit("%20");
        reveal_strlit("\\");
    }
    let slashed = clean_chars(tail, "\\", "/");
    clean_chars(slashed.as_str(), "%20", "_")
}

/// What goes into the written book, as `epub_plan` says.
pub fn epub_items(docs: &Vec<SourceDoc>, cover: &Option<SourceCover>, modified: &Vec<String>) -> (r: Vec<
    EpubItem,
>)
    requires
        read_after_first(docs_view(docs@)) <= modified@.len(),
    ensures
        items_view(r@) == epub_plan(
            docs_view(docs@),
            match cover {
                Some(c) => Some(c@),
                None => None,
            },
            pages_view(modified@),
        ),
{
    let ghost ds = docs_view(docs@);
    let ghost cv = match cover {
        Some(c) => Some(c@),
        None => None,
    };
    let ghost ms = pages_view(modified@);
    let mut out: Vec<EpubItem> = Vec::new();
    let mut used: usize = 0;
    let mut i: usize = 0;
    assert(ds.take(0) == Seq::<DocView>::empty());
    while i < docs.len()
        invariant
            i <= docs.len(),
            ds == docs_view(docs@),
            ms == pages_view(modified@),
            cv == match cover {
                Some(c) => Some(c@),
                None => None,
            },
            read_after_first(ds) <= modified@.len(),
            used == read_after_first(ds.take(i as int)),
            items_view(out@) == epub_plan(ds.take(i as int), cv, ms),
        decreases docs.len() - i,
    {
        let ghost before = out@;
        let ghost k = i as int;
        assert(ds.take(k + 1).drop_last() == ds.take(k));
        assert(ds.take(k + 1).last() == ds[k]);
        proof {
            lemma_read_after_first_prefix(ds, k + 1);
        }
        let d = &docs[i];
        match &d.text {
            None => {},
            Some(t) => {
                let href = book_href_exec(d.tail.as_str());
                let title = toc_title_exec(d.stem.as_str());
                if i == 0 {
                    match cover {
                        Some(c) => {
                            match &c.bytes {
                                Some(b) => {
                                    let cover_href = book_href_exec(c.tail.as_str());
                                    out.push(
                                        EpubItem::Cover {
                                            href: cover_href,
                                            bytes: copy_bytes(b),
                                            mime: c.mime.clone(),
                                        },
                                    );
                                },
                                None => {},
                            }
                            out.push(EpubItem::Chapter { href, title, text: t.clone() });
                            assert(items_view(out@) =~= items_view(before) + cover_items(c@) + seq![
                                ItemView::Chapter(book_href(ds[k].tail), toc_title(ds[k].stem), t@),
                            ]);
                        },
                        None => {},
                    }
                } else {
                    assert(read_after_first(ds.take(k + 1)) == used + 1);
                    assert(used + 1 <= modified.len());
                    let page = modified[used].clone();
                    out.push(EpubItem::Chapter { href, title, text: page });
                    assert(items_view(out@) =~= items_view(before).push(
                        ItemView::Chapter(book_href(ds[k].tail), toc_title(ds[k].stem), ms[used as int]),
                    ));
                    used = used + 1;
                }
            },
        }
        i = i + 1;
    }
    assert(ds.take(docs.len() as int) == ds);
    out
}

/// A prefix has no more later documents read than the whole list.
proof fn lemma_read_after_first_prefix(ds: Seq<DocView>, k: int)
    requires
        0 <= k <= ds.len(),
    ensures
        read_after_first(ds.take(k)) <= read_after_first(ds),
    decreases ds.len() - k,
{
    if k < ds.len() {
        lemma_read_after_first_prefix(ds, k + 1);
        assert(ds.take(k + 1).drop_last() == ds.take(k));
    } else {
        assert(ds.take(k) == ds);
    }
}

/// A copy of `v`.
fn copy_bytes(v: &Vec<u8>) -> (r: Vec<u8>)
    ensures
        r@ == v@,
{
    let mut r: Vec<u8> = Vec::new();
    let mut i: usize = 0;
    while i < v.len()
        invariant
            i <= v.len(),
            r@ == v@.take(i as int),
        decreases v.len() - i,
    {
        r.push(v[i]);
        assert(v@.take(i + 1) == v@.take(i as int).push(v@[i as int]));
        i = i + 1;
    }
    assert(v@.take(v.len() as int) == v@);
    r
}

// ---------------------------------------------------------------------
// Packing the book (epub_builder)
// ---------------------------------------------------------------------

/// An epub being packed in memory by `epub_builder`.
#[verifier::external_body]
pub struct EpubWriter {
    builder: EpubBuilder<ZipLibrary>,
}

/// The covers and chapters added to `w` so far, in order.
pub uninterp spec fn writer_items(w: EpubWriter) -> Seq<ItemView>;

/// The builder's metadata in `w`: for each key it knows, its values (one
/// for a key holding one text; none, one or more for a key holding a list
/// or an optional text).
pub uninterp spec fn writer_meta(w: EpubWriter) -> Map<Seq<char>, Seq<Seq<char>>>;

/// The stylesheets added to `w` so far, in order.
pub uninterp spec fn writer_styles(w: EpubWriter) -> Seq<Seq<char>>;

/// The archive being written in `w` is still open: no write to it has
/// failed.
pub uninterp spec fn writer_open(w: EpubWriter) -> bool;

/// What an epub being packed holds: its metadata, stylesheets and items.
pub struct PackedView {
    pub metadata: Map<Seq<char>, Seq<Seq<char>>>,
    pub stylesheets: Seq<Seq<char>>,
    pub items: Seq<ItemView>,
}

/// The model of an epub being packed.
pub open spec fn writer_view(w: EpubWriter) -> PackedView {
    PackedView { metadata: writer_meta(w), stylesheets: writer_styles(w), items: writer_items(w) }
}

/// A metadata key that `EpubBuilder::metadata` knows.
pub open spec fn known_metadata_key(key: Seq<char>) -> bool {
    ||| key == "author"@
    ||| key == "title"@
    ||| key == "lang"@
    ||| key == "generator"@
    ||| key == "description"@
    ||| key == "subject"@
    ||| key == "license"@
    ||| key == "toc_name"@
}

/// A key whose values form a list, which an empty value clears.
pub open spec fn list_metadata_key(key: Seq<char>) -> bool {
    key == "author"@ || key == "description"@ || key == "subject"@
}

/// The metadata of a new builder: no title, author, description, subject or
/// license, language `en`, the builder as generator, and its name for the
/// table of contents.
pub open spec fn default_metadata() -> Map<Seq<char>, Seq<Seq<char>>> {
    map![
        "title"@ => seq![seq![]],
        "author"@ => seq![],
        "lang"@ => seq!["en"@],
        "generator"@ => seq!["Rust EPUB library"@],
        "toc_name"@ => seq!["Table Of Contents"@],
        "description"@ => seq![],
        "subject"@ => seq![],
        "license"@ => seq![],
    ]
}

/// The metadata `m` after `key` was set to `value`: a list key gets `value`
/// appended, or is cleared when `value` is empty; any other key it knows
/// holds `value` alone; an unknown key changes nothing.
pub open spec fn metadata_set(
    m: Map<Seq<char>, Seq<Seq<char>>>,
    key: Seq<char>,
    value: Seq<char>,
) -> Map<Seq<char>, Seq<Seq<char>>> {
    if !known_metadata_key(key) {
        m
    } else if list_metadata_key(key) {
        if value.len() == 0 {
            m.insert(key, seq![])
        } else {
            m.insert(key, m[key].push(value))
        }
    } else {
        m.insert(key, seq![value])
    }
}

/// The metadata `m` after the book's metadata was set: author, title,
/// language and description, and this reader as generator.
pub open spec fn with_book_metadata(
    m: Map<Seq<char>, Seq<Seq<char>>>,
    meta: MetadataView,
) -> Map<Seq<char>, Seq<Seq<char>>> {
    metadata_set(
        metadata_set(
            metadata_set(
                metadata_set(metadata_set(m, "author"@, meta.author), "title"@, meta.title),
                "lang"@,
                meta.language,
            ),
            "description"@,
            meta.description,
        ),
        "generator"@,
        "eeBook Reader"@,
    )
}

/// What a book with metadata `m` and the items `items` is packed from.
pub open spec fn packed_plan(m: MetadataView, items: Seq<ItemView>) -> PackedView {
    PackedView {
        metadata: with_book_metadata(default_metadata(), m),
        stylesheets: seq![m.stylesheet],
        items: items,
    }
}

/// A text whose UTF-8 encoding surely fits in a file of the archive (at most
/// four bytes a character, at most `u32::MAX` bytes).
pub open spec fn text_fits(t: Seq<char>) -> bool {
    4 * t.len() <= u32::MAX
}

/// An item that fits in a file of the archive.
pub open spec fn item_fits(i: ItemView) -> bool {
    match i {
        ItemView::Cover(_, bytes, _) => bytes.len() <= u32::MAX,
        ItemView::Chapter(_, _, text) => text_fits(text),
    }
}

/// Every item of `items` fits in a file of the archive.
pub open spec fn items_fit(items: Seq<ItemView>) -> bool {
    forall|k: int| 0 <= k < items.len() ==> item_fits(#[trigger] items[k])
}

/// Calls `ZipLibrary::new()` and `EpubBuilder::new` on it. The contract
/// claims what their source shows: both only write fixed files into an
/// archive in memory, so they succeed; the builder holds no item and no
/// stylesheet, its metadata is the default, and its archive is open.
#[verifier::external_body]
fn new_writer() -> (r: Option<EpubWriter>)
    ensures
        r is Some,
        r matches Some(w) ==> writer_items(w) == Seq::<ItemView>::empty(),
        r matches Some(w) ==> writer_meta(w) == default_metadata(),
        r matches Some(w) ==> writer_styles(w) == Seq::<Seq<char>>::empty(),
        r matches Some(w) ==> writer_open(w),
{
    match ZipLibrary::new() {
        Ok(zip) => EpubBuilder::new(zip).ok().map(|builder| EpubWriter { builder }),
        Err(_) => None,
    }
}

/// Calls `EpubBuilder::metadata(key, value)`. The contract claims what its
/// source shows: it succeeds exactly for the keys it knows, sets the
/// metadata as `metadata_set` says, and touches neither the items, the
/// stylesheets nor the archive.
#[verifier::external_body]
fn writer_metadata(w: &mut EpubWriter, key: &str, value: &str) -> (ok: bool)
    ensures
        ok == known_metadata_key(key@),
        writer_meta(*final(w)) == metadata_set(writer_meta(*old(w)), key@, value@),
        writer_items(*final(w)) == writer_items(*old(w)),
        writer_styles(*final(w)) == writer_styles(*old(w)),
        writer_open(*final(w)) == writer_open(*old(w)),
{
    w.builder.metadata(key, value).is_ok()
}

/// Calls `EpubBuilder::stylesheet(css)`. The contract claims what its source
/// and that of `zip` show: on success the stylesheet is recorded and the
/// archive stays open, on failure nothing is recorded; it succeeds when the
/// archive is open and the stylesheet fits in one of its files; it touches
/// neither items nor metadata.
#[verifier::external_body]
fn writer_stylesheet(w: &mut EpubWriter, css: &str) -> (ok: bool)
    ensures
        writer_open(*old(w)) && text_fits(css@) ==> ok,
        ok ==> writer_open(*final(w)),
        ok ==> writer_styles(*final(w)) == writer_styles(*old(w)).push(css@),
        !ok ==> writer_styles(*final(w)) == writer_styles(*old(w)),
        writer_items(*final(w)) == writer_items(*old(w)),
        writer_meta(*final(w)) == writer_meta(*old(w)),
{
    w.builder.stylesheet(css.as_bytes()).is_ok()
}

/// Calls `EpubBuilder::add_cover_image(href, bytes, mime)`. The contract
/// claims what its source and that of `zip` show: on success the cover is
/// added after the items already there and the archive stays open, on
/// failure nothing is added; it succeeds when the archive is open and the
/// image fits in one of its files.
#[verifier::external_body]
fn writer_cover(w: &mut EpubWriter, href: &str, bytes: &[u8], mime: &str) -> (ok: bool)
    ensures
        writer_open(*old(w)) && bytes@.len() <= u32::MAX ==> ok,
        ok ==> writer_open(*final(w)),
        ok ==> writer_items(*final(w)) == writer_items(*old(w)).push(
            ItemView::Cover(href@, bytes@, mime@),
        ),
        !ok ==> writer_items(*final(w)) == writer_items(*old(w)),
        writer_meta(*final(w)) == writer_meta(*old(w)),
        writer_styles(*final(w)) == writer_styles(*old(w)),
{
    w.builder.add_cover_image(href, bytes, mime).is_ok()
}

/// Calls `EpubBuilder::add_content` with `EpubContent::new(href, text)`,
/// titled `title`, of reference type `Text`. The contract claims what its
/// source and that of `zip` show: on success the chapter is added after the
/// items already there and the archive stays open, on failure nothing is
/// added; it succeeds when the archive is open and the text fits in one of
/// its files.
#[verifier::external_body]
fn writer_chapter(w: &mut EpubWriter, href: &str, title: &str, text: &str) -> (ok: bool)
    ensures
        writer_open(*old(w)) && text_fits(text@) ==> ok,
        ok ==> writer_open(*final(w)),
        ok ==> writer_items(*final(w)) == writer_items(*old(w)).push(
            ItemView::Chapter(href@, title@, text@),
        ),
        !ok ==> writer_items(*final(w)) == writer_items(*old(w)),
        writer_meta(*final(w)) == writer_meta(*old(w)),
        writer_styles(*final(w)) == writer_styles(*old(w)),
{
    let content = EpubContent::new(href, text.as_bytes()).title(title).reftype(ReferenceType::Text);
    w.builder.add_content(content).is_ok()
}

/// Calls `EpubBuilder::generate` into a new `Vec<u8>` and gives what was
/// written, also when generating failed part way. Nothing is claimed of the
/// bytes: they hold the time of the call and a random identifier.
#[verifier::external_body]
fn writer_generate(w: &mut EpubWriter) -> (r: Vec<u8>) {
    let mut epub = Vec::new();
    let _ = w.builder.generate(&mut epub);
    epub
}

/// Adds `items` in order to `w`; `false`, and the items added so far, when
/// one could not be added. That does not happen when the archive is open and
/// every item fits.
fn add_items(w: &mut EpubWriter, items: &Vec<EpubItem>) -> (ok: bool)
    ensures
        writer_open(*old(w)) && items_fit(items_view(items@)) ==> ok,
        ok ==> writer_items(*final(w)) == writer_items(*old(w)) + items_view(items@),
        !ok ==> exists|k: int|
            0 <= k < items@.len() && writer_items(*final(w)) == writer_items(*old(w))
                + #[trigger] items_view(items@).take(k),
        writer_meta(*final(w)) == writer_meta(*old(w)),
        writer_styles(*final(w)) == writer_styles(*old(w)),
{
    let ghost start = writer_items(*w);
    let ghost opened = writer_open(*w);
    let mut i: usize = 0;
    while i < items.len()
        invariant
            i <= items.len(),
            writer_items(*w) == start + items_view(items@).take(i as int),
            start == writer_items(*old(w)),
            writer_meta(*w) == writer_meta(*old(w)),
            writer_styles(*w) == writer_styles(*old(w)),
            opened == writer_open(*old(w)),
            opened && items_fit(items_view(items@)) ==> writer_open(*w),
        decreases items.len() - i,
    {
        let ghost fits = items_fit(items_view(items@));
        proof {
            if fits {
                assert(item_fits(items_view(items@)[i as int]));
            }
        }
        let ok = match &items[i] {
            EpubItem::Cover { href, bytes, mime } => writer_cover(w, href.as_str(), bytes.as_slice(), mime.as_str()),
            EpubItem::Chapter { href, title, text } => writer_chapter(w, href.as_str(), title.as_str(), text.as_str()),
        };
        if !ok {
            assert(0 <= i < items@.len() && writer_items(*w) == start + items_view(items@).take(
                i as int,
            ));
            return false;
        }
        assert(items_view(items@).take(i + 1) == items_view(items@).take(i as int).push(items@[i as int]@));
        i = i + 1;
    }
    assert(items_view(items@).take(items.len() as int) == items_view(items@));
    true
}

/// Gives `w` the book's metadata (see `with_book_metadata`), its stylesheet,
/// and `items` in order. The metadata keys are all ones the builder knows,
/// so the metadata is always set; `false` when the stylesheet or an item
/// could not be added, with what was added before it. That does not happen
/// when the archive is open and the stylesheet and every item fit.
pub fn fill_writer(w: &mut EpubWriter, meta: &BookMetadata, items: &Vec<EpubItem>) -> (ok: bool)
    ensures
        writer_open(*old(w)) && text_fits(meta.stylesheet@) && items_fit(items_view(items@)) ==> ok,
        writer_meta(*final(w)) == with_book_metadata(writer_meta(*old(w)), meta@),
        ok ==> writer_styles(*final(w)) == writer_styles(*old(w)).push(meta.stylesheet@),
        ok ==> writer_items(*final(w)) == writer_items(*old(w)) + items_view(items@),
        !ok ==> {
            ||| writer_styles(*final(w)) == writer_styles(*old(w)) && writer_items(*final(w))
                == writer_items(*old(w))
            ||| writer_styles(*final(w)) == writer_styles(*old(w)).push(meta.stylesheet@)
                && exists|k: int|
                0 <= k < items@.len() && writer_items(*final(w)) == writer_items(*old(w))
                    + #[trigger] items_view(items@).take(k)
        },
{
    let ghost m0 = writer_meta(*w);
    proof {
        reveal_strlit("author");
        reveal_strlit("title");
        reveal_strlit("lang");
        reveal_strlit("description");
        reveal_strlit("generator");
    }
    let a = writer_metadata(w, "author", meta.author.as_str());
    let t = writer_metadata(w, "title", meta.title.as_str());
    let l = writer_metadata(w, "lang", meta.language.as_str());
    let d = writer_metadata(w, "description", meta.description.as_str());
    let g = writer_metadata(w, "generator", "eeBook Reader");
    assert(a && t && l && d && g);
    if !writer_stylesheet(w, meta.stylesheet.as_str()) {
        return false;
    }
    add_items(w, items)
}

/// Packs the book from a new writer given the book's metadata, stylesheet
/// and `items` (see `fill_writer`): `None` when the stylesheet or an item
/// cannot be added, which does not happen when they all fit in a file of the
/// archive; else the bytes that generating wrote, also when generating failed
/// part way. Beside them comes the model of the writer the bytes were
/// generated from, which is exactly `packed_plan`; nothing is promised of
/// the bytes themselves, which hold the time they were made and a random
/// identifier.
pub fn build_epub(meta: &BookMetadata, items: &Vec<EpubItem>) -> (r: (
    Option<Vec<u8>>,
    Ghost<Option<PackedView>>,
))
    ensures
        text_fits(meta.stylesheet@) && items_fit(items_view(items@)) ==> r.0 is Some,
        r.0 is Some <==> r.1@ is Some,
        r.1@ matches Some(p) ==> p == packed_plan(meta@, items_view(items@)),
{
    let mut w = match new_writer() {
        Some(w) => w,
        None => return (None, Ghost(None)),
    };
    if !fill_writer(&mut w, meta, items) {
        return (None, Ghost(None));
    }
    assert(writer_styles(w) =~= seq![meta.stylesheet@]);
    assert(writer_items(w) =~= items_view(items@));
    let ghost packed = writer_view(w);
    let bytes = writer_generate(&mut w);
    (Some(bytes), Ghost(Some(packed)))
}

} // verus!

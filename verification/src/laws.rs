//! Properties of the reader that relate several of its operations.
use vstd::prelude::*;

use crate::chapter::{law_layout_matches_text, page_layouts, ChapterView};
use crate::commands::{planned_writes, writes_for};
use crate::constants::{COLORS_AVAILABLE, GO_NEXT, GO_PREV, JUMP_BY_BUTTON};
use crate::ebook::{
    initial_view, loaded, EpubView, all_layouts, belongs_map, can_scroll, can_setup, chapter_of_page, contains_map, jumped,
    lemma_total_pages_mono, page_number, plain_pages, scrolled, searched, set_up, total_pages,
    updated, BookView, ViewState,
};
use crate::ebook_mod::export::{epub_plan, item_text, read_after_first, DocView, ItemView};
use crate::ebook_mod::implementation::{first_set_up, next_number, pages_read, previous_number, ReaderView};
use crate::ebook_mod::search::first_hit;
use crate::search::{all_pages, best_image, best_page, line_hits};
use crate::text::{
    contains, decimal, is_digit, lemma_nat_digits, matches_at, nat_digits, parse_i32, replace,
};

verus! {

// ---------------------------------------------------------------------
// Page numbers
// ---------------------------------------------------------------------

proof fn lemma_plain_pages_drop_last(chaps: Seq<ChapterView>)
    requires
        chaps.len() > 0,
    ensures
        plain_pages(chaps).drop_last() == plain_pages(chaps.drop_last()),
{
    let d = chaps.drop_last();
    assert forall|c: int| 0 <= c < d.len() implies plain_pages(chaps)[c] =~= plain_pages(d)[c] by {
        assert(chaps.take(c) == d.take(c));
        assert(chaps[c] == d[c]);
    }
    assert(plain_pages(chaps).drop_last() =~= plain_pages(d));
}

/// The pages of the book are numbered 1, 2, 3, … in reading order, chapter
/// after chapter, with no gap and no repeat.
pub proof fn law_pages_numbered_in_order(chaps: Seq<ChapterView>)
    requires
        total_pages(chaps) <= i32::MAX,
    ensures
        all_pages(plain_pages(chaps)).len() == total_pages(chaps),
        forall|i: int|
            0 <= i < all_pages(plain_pages(chaps)).len() ==> #[trigger] all_pages(
                plain_pages(chaps),
            )[i].1 == i + 1,
    decreases chaps.len(),
{
    if chaps.len() > 0 {
        let d = chaps.drop_last();
        let last = chaps.last();
        lemma_total_pages_mono(chaps, chaps.len() - 1);
        assert(chaps.take(chaps.len() - 1) == d);
        law_pages_numbered_in_order(d);
        lemma_plain_pages_drop_last(chaps);
        law_layout_matches_text(last);
        let pp = plain_pages(chaps);
        let before = all_pages(pp.drop_last());
        assert(all_pages(pp) == before + pp.last());
        assert forall|i: int| 0 <= i < all_pages(pp).len() implies #[trigger] all_pages(pp)[i].1
            == i + 1 by {
            if i >= before.len() {
                let t = i - before.len();
                assert(all_pages(pp)[i] == pp[chaps.len() - 1][t]);
                assert(page_number(chaps, chaps.len() - 1, t) == total_pages(d) + t + 1);
            } else {
                assert(all_pages(pp)[i] == before[i]);
            }
        }
    }
}

// ---------------------------------------------------------------------
// Setting up a book
// ---------------------------------------------------------------------

proof fn lemma_chapter_of_page(chaps: Seq<ChapterView>, c: int, t: int)
    requires
        0 <= c < chaps.len(),
        0 <= t < page_layouts(chaps[c]).len(),
    ensures
        chapter_of_page(chaps, page_number(chaps, c, t)) == c + 1,
        1 <= page_number(chaps, c, t) <= total_pages(chaps),
    decreases chaps.len(),
{
    let d = chaps.drop_last();
    lemma_total_pages_mono(chaps, c + 1);
    assert(chaps.take(c + 1).drop_last() == chaps.take(c));
    assert(chaps.take(c + 1).last() == chaps[c]);
    if c < chaps.len() - 1 {
        assert(d.take(c) == chaps.take(c));
        assert(d[c] == chaps[c]);
        lemma_chapter_of_page(d, c, t);
    } else {
        assert(chaps.take(c) == d);
    }
}

proof fn lemma_all_layouts_index(chaps: Seq<ChapterView>, c: int, t: int)
    requires
        0 <= c < chaps.len(),
        0 <= t < page_layouts(chaps[c]).len(),
    ensures
        page_number(chaps, c, t) - 1 < all_layouts(chaps).len(),
        all_layouts(chaps)[page_number(chaps, c, t) - 1] == page_layouts(chaps[c])[t],
    decreases chaps.len(),
{
    let d = chaps.drop_last();
    if c < chaps.len() - 1 {
        assert(d.take(c) == chaps.take(c));
        assert(d[c] == chaps[c]);
        lemma_all_layouts_index(d, c, t);
    } else {
        assert(chaps.take(c) == d);
        crate::ebook::lemma_all_layouts_len(d);
    }
}

/// After a book is set up, its two indexes agree with each other and with
/// the pages: every page listed for chapter `c` is recorded as belonging to
/// chapter `c`, and is the matching page of that chapter's layout.
pub proof fn law_setup_indexes_agree(b: BookView, n: i32, c: int, t: int)
    requires
        can_setup(b),
        1 <= c <= b.chaps.len(),
        0 <= t < page_layouts(b.chaps[c - 1]).len(),
    ensures
        set_up(b, n).chapter_contains.contains_key(c as i32),
        t < set_up(b, n).chapter_contains[c as i32].len(),
        ({
            let a = set_up(b, n);
            let p = a.chapter_contains[c as i32][t];
            &&& a.page_belongs.contains_key(p)
            &&& a.page_belongs[p] == c
            &&& a.pages[b.pages.len() + p - 1] == page_layouts(b.chaps[c - 1])[t]
        }),
{
    let chaps = b.chaps;
    lemma_chapter_of_page(chaps, c - 1, t);
    lemma_all_layouts_index(chaps, c - 1, t);
    assert(contains_map(chaps).contains_key(c as i32));
    let p = page_number(chaps, c - 1, t) as i32;
    assert(belongs_map(chaps).contains_key(p));
}

// ---------------------------------------------------------------------
// Navigation
// ---------------------------------------------------------------------

/// Writing a page number in the cursor box and pressing the jump button, in
/// reading mode, goes to that page when the book has it.
pub proof fn law_cursor_jump(b: BookView, n: i32)
    requires
        b.current_view == ViewState::ReadMode,
        1 <= n <= b.tot_pages,
    ensures
        jumped(BookView { cursor: decimal(n as int), ..b }, JUMP_BY_BUTTON) == updated(
            BookView { current_page: n, cursor: decimal(n as int), ..b },
            b.current_chap,
            n,
            ViewState::ReadMode,
        ),
{
    crate::text::lemma_decimal_parse_roundtrip(n);
    lemma_nat_digits(n as nat);
}

/// A page forward and then a page back, in reading mode, return to the page
/// the reader was on, and remember the page in between as the previous one.
pub proof fn law_scroll_forward_back(b: BookView)
    requires
        b.current_view == ViewState::ReadMode,
        can_scroll(b, GO_NEXT),
        can_scroll(scrolled(b, GO_NEXT), GO_PREV),
    ensures
        scrolled(scrolled(b, GO_NEXT), GO_PREV).current_page == b.current_page,
        scrolled(scrolled(b, GO_NEXT), GO_PREV).previous_page == b.current_page + 1,
{
}

/// Successive searches cycle through the colours available.
pub proof fn law_search_colours(b: BookView, ranges: Seq<(usize, usize)>)
    ensures
        searched(b, ranges).number_of_search < COLORS_AVAILABLE,
{
}

/// The decimal that the reader writes for a number reads back as that number.
pub proof fn law_decimal_roundtrip(n: i32)
    ensures
        parse_i32(decimal(n as int)) == Some(n),
{
    if n >= 0 {
        lemma_nat_digits(n as nat);
        assert(decimal(n as int)[0] != '-' && decimal(n as int)[0] != '+') by {
            assert(is_digit(nat_digits(n as nat)[0]));
        }
    } else {
        let m = (-(n as int)) as nat;
        lemma_nat_digits(m);
        let s = decimal(n as int);
        assert(s.drop_first() == nat_digits(m));
    }
}

// ---------------------------------------------------------------------
// The line-based reader
// ---------------------------------------------------------------------

/// Turning pages never leaves the book: forward stops at the last page,
/// backward at the first.
pub proof fn law_turning_stays_in_book(b: ReaderView)
    requires
        parse_i32(b.page_box) is Some,
    ensures
        next_number(b) <= b.total_pages,
        previous_number(b) >= 1,
{
}

/// A search lands on the first page that contains the text searched for.
pub proof fn law_search_finds_first(pages: Seq<Seq<char>>, key: Seq<char>)
    ensures
        first_hit(pages, key) matches Some(i) ==> {
            &&& 0 <= i < pages.len()
            &&& contains(pages[i], key)
            &&& forall|j: int| 0 <= j < i ==> !contains(#[trigger] pages[j], key)
        },
        first_hit(pages, key) is None ==> forall|j: int|
            0 <= j < pages.len() ==> !contains(#[trigger] pages[j], key),
    decreases pages.len(),
{
    if pages.len() > 0 {
        let d = pages.drop_first();
        law_search_finds_first(d, key);
        assert forall|j: int| 1 <= j < pages.len() implies pages[j] == d[j - 1] by {}
    }
}

// ---------------------------------------------------------------------
// Searching by photo
// ---------------------------------------------------------------------

/// The page chosen for a photo has the most lines in common with it: no page
/// has more, and the chosen number is that of a page with that many.
pub proof fn law_best_page_is_best(pages: Seq<(Seq<char>, i32)>, lines: Seq<Seq<char>>)
    ensures
        forall|i: int|
            0 <= i < pages.len() ==> line_hits(#[trigger] pages[i].0, lines) <= best_page(
                pages,
                lines,
            ).0,
        pages.len() > 0 ==> exists|i: int|
            0 <= i < pages.len() && #[trigger] pages[i].1 == best_page(pages, lines).1 && line_hits(
                pages[i].0,
                lines,
            ) == best_page(pages, lines).0,
    decreases pages.len(),
{
    if pages.len() > 0 {
        let d = pages.drop_last();
        law_best_page_is_best(d, lines);
        assert forall|i: int| 0 <= i < pages.len() implies line_hits(
            #[trigger] pages[i].0,
            lines,
        ) <= best_page(pages, lines).0 by {
            if i < d.len() {
                assert(pages[i] == d[i]);
            }
        }
        let best = best_page(pages, lines);
        if line_hits(pages.last().0, lines) >= best_page(d, lines).0 {
            assert(pages[pages.len() - 1].1 == best.1);
        } else {
            let i = choose|i: int|
                0 <= i < d.len() && #[trigger] d[i].1 == best_page(d, lines).1 && line_hits(
                    d[i].0,
                    lines,
                ) == best_page(d, lines).0;
            assert(pages[i] == d[i]);
        }
    }
}

/// The photo chosen for the current page has the most lines in common with
/// it: no photo whose text was read has more, and when the chosen one has
/// any, it is a photo with that many.
pub proof fn law_best_image_is_best(
    text: Seq<char>,
    outputs: Seq<Option<Seq<char>>>,
    paths: Seq<Seq<char>>,
)
    ensures
        forall|i: int|
            0 <= i < outputs.len() ==> (#[trigger] outputs[i] matches Some(o) ==> line_hits(
                text,
                crate::text::lines(o),
            ) <= best_image(text, outputs, paths).0),
        best_image(text, outputs, paths).0 > 0 ==> exists|i: int|
            #![trigger outputs[i]]
            {
                &&& 0 <= i < outputs.len()
                &&& outputs[i] matches Some(o)
                &&& line_hits(text, crate::text::lines(o)) == best_image(text, outputs, paths).0
                &&& paths[i] == best_image(text, outputs, paths).1
            },
    decreases outputs.len(),
{
    if outputs.len() > 0 {
        let d = outputs.drop_last();
        law_best_image_is_best(text, d, paths);
        let best = best_image(text, outputs, paths);
        assert forall|i: int| 0 <= i < outputs.len() implies (#[trigger] outputs[i] matches Some(
            o,
        ) ==> line_hits(text, crate::text::lines(o)) <= best.0) by {
            if i < d.len() {
                assert(outputs[i] == d[i]);
            }
        }
        if best.0 > 0 {
            let k = outputs.len() - 1;
            if best != best_image(text, d, paths) {
                assert(outputs[k] is Some);
            } else {
                let i = choose|i: int|
                    #![trigger d[i]]
                    {
                        &&& 0 <= i < d.len()
                        &&& d[i] matches Some(o)
                        &&& line_hits(text, crate::text::lines(o)) == best_image(text, d, paths).0
                        &&& paths[i] == best_image(text, d, paths).1
                    };
                assert(outputs[i] == d[i]);
            }
        }
    }
}

// ---------------------------------------------------------------------
// Saving
// ---------------------------------------------------------------------

proof fn lemma_writes_for_sound(s: usize, source: Seq<char>, paths: Seq<Seq<char>>, n: nat)
    requires
        paths.len() <= usize::MAX,
    ensures
        forall|k: int|
            0 <= k < writes_for(s, source, paths, n).len() ==> {
                let w = #[trigger] writes_for(s, source, paths, n)[k];
                &&& w.0 == s
                &&& w.1 < paths.len()
                &&& w.1 < n
                &&& contains(source, paths[w.1 as int])
            },
    decreases paths.len(),
{
    if paths.len() > 0 {
        let d = paths.drop_last();
        let i = paths.len() - 1;
        lemma_writes_for_sound(s, source, d, n);
        let before = writes_for(s, source, d, n);
        let all = writes_for(s, source, paths, n);
        assert forall|k: int| 0 <= k < all.len() implies {
            let w = #[trigger] all[k];
            &&& w.0 == s
            &&& w.1 < paths.len()
            &&& w.1 < n
            &&& contains(source, paths[w.1 as int])
        } by {
            if k < before.len() {
                assert(all[k] == before[k]);
                assert(paths[before[k].1 as int] == d[before[k].1 as int]);
            } else {
                assert(all[k] == (s, i as usize));
            }
        }
    }
}

/// Saving writes a chapter's HTML only into a file of the unpacked book whose
/// path contains the chapter's path, and only HTML that exists.
pub proof fn law_writes_match_paths(sources: Seq<Seq<char>>, paths: Seq<Seq<char>>, n: nat)
    requires
        sources.len() <= usize::MAX,
        paths.len() <= usize::MAX,
    ensures
        forall|k: int|
            0 <= k < planned_writes(sources, paths, n).len() ==> {
                let w = #[trigger] planned_writes(sources, paths, n)[k];
                &&& w.0 < sources.len()
                &&& w.1 < paths.len()
                &&& w.1 < n
                &&& contains(sources[w.0 as int], paths[w.1 as int])
            },
    decreases sources.len(),
{
    if sources.len() > 0 {
        let d = sources.drop_last();
        let s = sources.len() - 1;
        law_writes_match_paths(d, paths, n);
        lemma_writes_for_sound(s as usize, sources[s], paths, n);
        let a = planned_writes(d, paths, n);
        let w = writes_for(s as usize, sources[s], paths, n);
        assert forall|k: int| 0 <= k < planned_writes(sources, paths, n).len() implies {
            let x = #[trigger] planned_writes(sources, paths, n)[k];
            &&& x.0 < sources.len()
            &&& x.1 < paths.len()
            &&& x.1 < n
            &&& contains(sources[x.0 as int], paths[x.1 as int])
        } by {
            if k < a.len() {
                assert(planned_writes(sources, paths, n)[k] == a[k]);
                assert(sources[a[k].0 as int] == d[a[k].0 as int]);
            } else {
                assert(planned_writes(sources, paths, n)[k] == w[k - a.len()]);
            }
        }
    }
}

// ---------------------------------------------------------------------
// Chapter paths
// ---------------------------------------------------------------------

proof fn lemma_replace_removes_char(s: Seq<char>, c: char, rep: Seq<char>)
    requires
        forall|i: int| 0 <= i < rep.len() ==> rep[i] != c,
    ensures
        forall|i: int| 0 <= i < replace(s, seq![c], rep).len() ==> replace(s, seq![c], rep)[i] != c,
    decreases s.len(),
{
    if s.len() > 0 {
        if matches_at(s, seq![c], 0) {
            let t = s.subrange(1, s.len() as int);
            lemma_replace_removes_char(t, c, rep);
            let r = replace(t, seq![c], rep);
            assert forall|i: int| 0 <= i < (rep + r).len() implies (rep + r)[i] != c by {
                if i >= rep.len() {
                    assert((rep + r)[i] == r[i - rep.len()]);
                }
            }
        } else {
            assert(s[0] != c) by {
                if s[0] == c {
                    assert(s.subrange(0, 1) =~= seq![c]);
                }
            }
            lemma_replace_removes_char(s.drop_first(), c, rep);
            let r = replace(s.drop_first(), seq![c], rep);
            assert forall|i: int| 0 <= i < (seq![s[0]] + r).len() implies (seq![s[0]] + r)[i] != c by {
                if i >= 1 {
                    assert((seq![s[0]] + r)[i] == r[i - 1]);
                }
            }
        }
    }
}

/// A chapter's stored path uses backslashes only: no `'/'` is left in it.
pub proof fn law_path_has_no_slash(path: Seq<char>)
    ensures
        !contains(crate::chapter::normalize_path(path), "/"@),
{
    reveal_strlit("/");
    reveal_strlit("\\");
    assert("/"@ == seq!['/']);
    let t = crate::text::trim(path);
    let src = if contains(t, "%20"@) {
        replace(t, "%20"@, " "@)
    } else {
        t
    };
    lemma_replace_removes_char(src, '/', "\\"@);
    let r = crate::chapter::normalize_path(path);
    if contains(r, "/"@) {
        let i = choose|i: int| matches_at(r, "/"@, i);
        assert(r.subrange(i, i + 1)[0] == r[i]);
    }
}

// ---------------------------------------------------------------------
// The line-based reader: opening and writing back a book
// ---------------------------------------------------------------------

/// Opening a book keeps each page's HTML twice, as read and as the start of
/// its edits, and gives each page one stripped text; the book then has as
/// many pages as it has documents read.
pub proof fn law_pages_read_keep_html(b: ReaderView, htmls: Seq<Seq<char>>)
    requires
        htmls.len() <= i32::MAX,
    ensures
        pages_read(b, htmls).raw_pages == b.raw_pages + htmls,
        pages_read(b, htmls).raw_pages_modified == b.raw_pages_modified + htmls,
        pages_read(b, htmls).parsed_pages.len() == b.parsed_pages.len() + htmls.len(),
        first_set_up(pages_read(b, htmls), 1, htmls.len() as i32).total_pages == htmls.len(),
    decreases htmls.len(),
{
    if htmls.len() > 0 {
        law_pages_read_keep_html(b, htmls.drop_last());
        assert(b.raw_pages + htmls.drop_last() + seq![htmls.last()] == b.raw_pages + htmls);
        assert(b.raw_pages_modified + htmls.drop_last() + seq![htmls.last()] == b.raw_pages_modified
            + htmls);
    } else {
        assert(b.raw_pages + htmls == b.raw_pages);
        assert(b.raw_pages_modified + htmls == b.raw_pages_modified);
    }
}

/// A book without a cover is written back with the edited pages, in order,
/// one for each document after the first that was read, and nothing else.
pub proof fn law_plan_uses_edited_pages(docs: Seq<DocView>, modified: Seq<Seq<char>>)
    requires
        read_after_first(docs) <= modified.len(),
    ensures
        epub_plan(docs, None, modified).map_values(|i: ItemView| item_text(i)) == modified.take(
            read_after_first(docs) as int,
        ),
        forall|k: int|
            0 <= k < epub_plan(docs, None, modified).len() ==> #[trigger] epub_plan(
                docs,
                None,
                modified,
            )[k] is Chapter,
    decreases docs.len(),
{
    let f = |i: ItemView| item_text(i);
    if docs.len() == 0 {
        assert(modified.take(0) =~= Seq::<Seq<char>>::empty());
    } else if docs.len() == 1 {
        assert(docs.drop_last().len() == 0);
        assert(modified.take(0) =~= Seq::<Seq<char>>::empty());
        assert(epub_plan(docs.drop_last(), None, modified) == Seq::<ItemView>::empty());
    } else {
        let d = docs.drop_last();
        law_plan_uses_edited_pages(d, modified);
        let before = epub_plan(d, None, modified);
        let n = read_after_first(d);
        match docs.last().text {
            None => {},
            Some(t) => {
                let item = ItemView::Chapter(
                    crate::ebook_mod::export::book_href(docs.last().tail),
                    crate::ebook_mod::export::toc_title(docs.last().stem),
                    modified[n as int],
                );
                assert(epub_plan(docs, None, modified) == before.push(item));
                assert(before.push(item).map_values(f) =~= before.map_values(f).push(item_text(item)));
                assert(modified.take(n as int).push(modified[n as int]) =~= modified.take(n as int + 1));
            },
        }
    }
}

// ---------------------------------------------------------------------
// Opening a book over another, editing navigation, photo matching, markup
// ---------------------------------------------------------------------

/// Opening a book while another is open closes the other first: the
/// chapters, their HTML, the pages and their layouts, the totals and what is
/// shown are exactly those a reader with nothing open would get from the same
/// epub; nothing of the book open before remains.
pub proof fn law_loading_replaces_book(b: BookView, e: EpubView)
    requires
        b.object_type == crate::constants::EPUB_LOADING,
        b.pages.len() > 0,
    ensures
        ({
            let n = loaded(b, Some(e));
            let f = loaded(initial_view(), Some(e));
            &&& n.chaps == f.chaps
            &&& n.htmls == f.htmls
            &&& n.pages == f.pages
            &&& n.chapters == f.chapters
            &&& n.tot_pages == f.tot_pages
            &&& n.tot_chaps == f.tot_chaps
            &&& n.current_page == f.current_page
            &&& n.current_chap == f.current_chap
            &&& n.page_shown == f.page_shown
            &&& n.chap_shown == f.chap_shown
            &&& n.current_html == f.current_html
            &&& n.cursor == f.cursor
            &&& n.epub_open
        }),
{
    let i = initial_view();
    assert(i.pages.len() == 0);
    let c = crate::ebook::cleared_book(b);
    assert(c.chaps == i.chaps);
    assert(c.htmls == i.htmls);
    assert(c.pages == i.pages);
    assert(c.chapters == i.chapters);
    assert(c.current_html == i.current_html);
    assert(c.page_shown == i.page_shown);
    assert(c.chap_shown == i.chap_shown);
}

/// A photo's text matches a page by the number of its non-empty lines that
/// occur in the page: every such line counts once, and no other line counts.
pub proof fn law_line_hits_count_lines(text: Seq<char>, lines: Seq<Seq<char>>)
    ensures
        line_hits(text, lines) == lines.filter(|l: Seq<char>| l.len() > 0 && contains(text, l)).len(),
        lines.len() == 1 && lines[0].len() > 0 && contains(text, lines[0]) ==> line_hits(text, lines)
            == 1,
    decreases lines.len(),
{
    let f = |l: Seq<char>| l.len() > 0 && contains(text, l);
    reveal(Seq::filter);
    if lines.len() > 0 {
        law_line_hits_count_lines(text, lines.drop_last());
        assert(lines.filter(f) == if f(lines.last()) {
            lines.drop_last().filter(f).push(lines.last())
        } else {
            lines.drop_last().filter(f)
        });
        if lines.len() == 1 {
            assert(lines.drop_last().len() == 0);
            assert(line_hits(text, lines.drop_last()) == 0);
            assert(lines.last() == lines[0]);
        }
    }
}

/// In editing mode, scrolling forward goes to the next chapter and scrolling
/// back to the one before, so forward then back returns to the chapter the
/// reader was on.
pub proof fn law_scroll_chapters(b: BookView)
    requires
        b.current_view == ViewState::EditMode,
        i32::MIN + 1 < b.current_chap < i32::MAX - 1,
    ensures
        scrolled(b, GO_NEXT).current_chap == b.current_chap + 1,
        scrolled(b, GO_PREV).current_chap == b.current_chap - 1,
        scrolled(b, GO_PREV).cursor == decimal(b.current_chap - 1),
        scrolled(scrolled(b, GO_NEXT), GO_PREV).current_chap == b.current_chap,
{
}

/// Writing a chapter number in the cursor box and pressing the jump button,
/// in editing mode, goes to that chapter whenever the book has it, the first
/// chapter included, and the cursor then shows it.
pub proof fn law_cursor_jump_chapter(b: BookView, n: i32)
    requires
        b.current_view == ViewState::EditMode,
        1 <= n <= b.tot_chaps,
    ensures
        jumped(BookView { cursor: decimal(n as int), ..b }, JUMP_BY_BUTTON).current_chap == n,
        jumped(BookView { cursor: decimal(n as int), ..b }, JUMP_BY_BUTTON).cursor == decimal(
            n as int,
        ),
        jumped(BookView { cursor: decimal(n as int), ..b }, JUMP_BY_BUTTON).current_view
            == ViewState::EditMode,
{
    crate::text::lemma_decimal_parse_roundtrip(n);
    lemma_nat_digits(n as nat);
}

/// Trimming leaves no whitespace at either end.
proof fn lemma_trim_ends(s: Seq<char>)
    ensures
        crate::text::trim(s).len() > 0 ==> !crate::text::is_ws(crate::text::trim(s)[0])
            && !crate::text::is_ws(crate::text::trim(s).last()),
{
    lemma_trim_start_first(s);
    lemma_trim_end_keeps_first(crate::text::trim_start(s));
}

proof fn lemma_trim_start_first(s: Seq<char>)
    ensures
        crate::text::trim_start(s).len() > 0 ==> !crate::text::is_ws(crate::text::trim_start(s)[0]),
    decreases s.len(),
{
    if s.len() > 0 && crate::text::is_ws(s[0]) {
        lemma_trim_start_first(s.drop_first());
    }
}

/// `trim_end` keeps a first character that is not whitespace, and leaves no
/// whitespace at the end.
proof fn lemma_trim_end_keeps_first(s: Seq<char>)
    ensures
        crate::text::trim_end(s).len() > 0 ==> !crate::text::is_ws(crate::text::trim_end(s).last()),
        crate::text::trim_end(s).len() > 0 ==> crate::text::trim_end(s)[0] == s[0],
    decreases s.len(),
{
    if s.len() > 0 && crate::text::is_ws(s.last()) {
        lemma_trim_end_keeps_first(s.drop_last());
        if crate::text::trim_end(s.drop_last()).len() > 0 {
            assert(s.drop_last()[0] == s[0]);
        }
    }
}

/// The text kept of a line of markup has no whitespace at either end: the
/// indentation of the HTML and the spaces after its tags are dropped.
pub proof fn law_stripped_lines_trimmed(line: Seq<char>)
    ensures
        crate::ebook_mod::rendering::line_text(line).len() > 0 ==> !crate::text::is_ws(
            crate::ebook_mod::rendering::line_text(line)[0],
        ) && !crate::text::is_ws(crate::ebook_mod::rendering::line_text(line).last()),
{
    let l = crate::ebook_mod::rendering::without_breaks(line);
    let r = crate::ebook_mod::rendering::regex_replaced(
        crate::ebook_mod::rendering::address_pattern(),
        crate::ebook_mod::rendering::regex_replaced(
            crate::ebook_mod::rendering::doctype_pattern(),
            crate::ebook_mod::rendering::regex_replaced(crate::ebook_mod::rendering::tag_pattern(), l, ""@),
            ""@,
        ),
        ""@,
    );
    lemma_trim_ends(r);
}

} // verus!

//! Searching the book: by a pattern in the current page or chapter, and by
//! the text recognised on a photo of a paper page.
use vstd::prelude::*;
use vstd::string::*;

use crate::chapter::{law_layout_matches_text, ChapterView};
use crate::constants::{ENGLISH, ITALIAN, JUMP_BY_OCR_SEARCH};
use crate::ebook::{
    jumped, lemma_total_pages_mono, page_number, plain_chapters, plain_pages, reactToSearch, searched, texts_view,
    total_pages, BookState, BookView,
};
use crate::text::{
    chars_of, contains, contains_chars, count_char, count_char_exec, lines, lines_of, seqs_of,
    str_eq,
};

verus! {

// ---------------------------------------------------------------------
// Regular expressions (regex)
// ---------------------------------------------------------------------

/// For the regular expression `pattern` and the text `text`: no value when
/// `pattern` is not a valid expression, else, for each successive
/// non-overlapping match, the byte range of the whole match (capture 0), if
/// any.
pub uninterp spec fn regex_captures(pattern: Seq<char>, text: Seq<char>) -> Option<
    Seq<Option<(usize, usize)>>,
>;

/// The model of the matches found.
pub open spec fn captures_view(r: Option<Vec<Option<(usize, usize)>>>) -> Option<
    Seq<Option<(usize, usize)>>,
> {
    match r {
        Some(v) => Some(v@),
        None => None,
    }
}

/// Calls `regex::Regex::new(pattern)` and, when it succeeds,
/// `Regex::captures_iter(text)`, keeping of each `Captures` the range of
/// `get(0)`. The contract claims that the result is
/// `regex_captures(pattern@, text@)`, and, as `Match::start` and
/// `Match::end` document, that every range has its start before its end.
#[verifier::external_body]
fn regex_find(pattern: &str, text: &str) -> (r: Option<Vec<Option<(usize, usize)>>>)
    ensures
        captures_view(r) == regex_captures(pattern@, text@),
        r matches Some(v) ==> forall|i: int|
            0 <= i < v@.len() ==> (#[trigger] v@[i] matches Some(m) ==> m.0 <= m.1),
{
    match regex::Regex::new(pattern) {
        Ok(re) => Some(
            re.captures_iter(text).map(|c| c.get(0).map(|m| (m.start(), m.end()))).collect(),
        ),
        Err(_) => None,
    }
}

/// The ranges of the matches of `pattern` in `text`; none when `pattern` is
/// not a valid expression.
pub open spec fn match_ranges(pattern: Seq<char>, text: Seq<char>) -> Seq<(usize, usize)> {
    match regex_captures(pattern, text) {
        Some(cs) => present(cs),
        None => seq![],
    }
}

/// The ranges that are there, in order.
pub open spec fn present(cs: Seq<Option<(usize, usize)>>) -> Seq<(usize, usize)>
    decreases cs.len(),
{
    if cs.len() == 0 {
        seq![]
    } else {
        match cs.last() {
            Some(r) => present(cs.drop_last()).push(r),
            None => present(cs.drop_last()),
        }
    }
}

/// The ranges of the matches of `pattern` in `text`.
pub fn find_ranges(pattern: &str, text: &str) -> (r: Vec<(usize, usize)>)
    ensures
        r@ == match_ranges(pattern@, text@),
{
    let mut out: Vec<(usize, usize)> = Vec::new();
    if let Some(found) = regex_find(pattern, text) {
        let mut i: usize = 0;
        assert(found@.take(0) == Seq::<Option<(usize, usize)>>::empty());
        while i < found.len()
            invariant
                i <= found.len(),
                out@ == present(found@.take(i as int)),
            decreases found.len() - i,
        {
            assert(found@.take(i + 1).drop_last() == found@.take(i as int));
            assert(found@.take(i + 1).last() == found@[i as int]);
            if let Some(m) = found[i] {
                out.push(m);
            }
            i = i + 1;
        }
        assert(found@.take(found.len() as int) == found@);
    }
    out
}

// ---------------------------------------------------------------------
// Pattern search in the shown page or chapter
// ---------------------------------------------------------------------

/// The text of the first page among `pages` that has number `n`.
pub open spec fn page_numbered(pages: Seq<(Seq<char>, i32)>, n: i32) -> Option<Seq<char>>
    decreases pages.len(),
{
    if pages.len() == 0 {
        None
    } else if pages[0].1 == n {
        Some(pages[0].0)
    } else {
        page_numbered(pages.drop_first(), n)
    }
}

/// The ranges a search for `key` finds in the current page of the current
/// chapter.
pub open spec fn page_search(b: BookView, key: Seq<char>) -> Seq<(usize, usize)> {
    let pp = plain_pages(b.chaps);
    if 1 <= b.current_chap && b.current_chap <= pp.len() {
        match page_numbered(pp[b.current_chap - 1], b.current_page) {
            Some(text) => match_ranges(key, text),
            None => seq![],
        }
    } else {
        seq![]
    }
}

/// The ranges a search for `key` finds in the current chapter.
pub open spec fn chapter_search(b: BookView, key: Seq<char>) -> Seq<(usize, usize)> {
    let pc = plain_chapters(b.chaps);
    if 1 <= b.current_chap && b.current_chap <= pc.len() {
        match_ranges(key, pc[b.current_chap - 1])
    } else {
        seq![]
    }
}

/// Marks the matches of the pattern `key` in the current page.
#[allow(non_snake_case)]
pub fn looksForMatchesInPage(bookState: &mut BookState, key: &String)
    requires
        total_pages(old(bookState)@.chaps) <= i32::MAX,
        old(bookState)@.current_chap > i32::MIN,
        old(bookState)@.number_of_search < u8::MAX,
    ensures
        final(bookState)@ == searched(old(bookState)@, page_search(old(bookState)@, key@)),
{
    let ghost b = bookState@;
    let plainPages = bookState.getPlainPages();
    let mut indexMatches: Vec<(usize, usize)> = Vec::new();
    let currentChapterNumber = bookState.getCurrentChap();
    if currentChapterNumber >= 1 && ((currentChapterNumber - 1) as usize) < plainPages.len() {
        let chapter = &plainPages[(currentChapterNumber - 1) as usize];
        let currentPageNumber = bookState.getCurrentPage();
        let ghost pages = plain_pages(b.chaps)[currentChapterNumber - 1];
        assert(pages == chapter@.map_values(|x: (String, i32)| (x.0@, x.1)));
        let mut i: usize = 0;
        let mut found: Option<usize> = None;
        assert(pages.subrange(0, pages.len() as int) == pages);
        while i < chapter.len()
            invariant
                i <= chapter.len(),
                pages == chapter@.map_values(|x: (String, i32)| (x.0@, x.1)),
                found is None ==> page_numbered(pages, currentPageNumber) == page_numbered(
                    pages.subrange(i as int, pages.len() as int),
                    currentPageNumber,
                ),
                found matches Some(k) ==> k < chapter.len() && page_numbered(
                    pages,
                    currentPageNumber,
                ) == Some(pages[k as int].0),
            decreases chapter.len() - i,
        {
            if found.is_none() {
                let ghost rest = pages.subrange(i as int, pages.len() as int);
                assert(rest[0] == pages[i as int]);
                assert(rest.drop_first() == pages.subrange(i + 1, pages.len() as int));
                if chapter[i].1 == currentPageNumber {
                    found = Some(i);
                }
            }
            i = i + 1;
        }
        match found {
            Some(k) => {
                indexMatches = find_ranges(key.as_str(), chapter[k].0.as_str());
            },
            None => {
                assert(pages.subrange(i as int, pages.len() as int).len() == 0);
            },
        }
    }
    reactToSearch(bookState, &indexMatches);
}

/// Marks the matches of the pattern `key` in the current chapter.
#[allow(non_snake_case)]
pub fn looksForMatchesInChapter(bookState: &mut BookState, key: &String)
    requires
        old(bookState)@.current_chap > i32::MIN,
        old(bookState)@.number_of_search < u8::MAX,
    ensures
        final(bookState)@ == searched(old(bookState)@, chapter_search(old(bookState)@, key@)),
{
    let mut indexMatches: Vec<(usize, usize)> = Vec::new();
    let chapters = bookState.getPlainChapters();
    let c = bookState.getCurrentChap();
    if c >= 1 && ((c - 1) as usize) < chapters.len() {
        indexMatches = find_ranges(key.as_str(), chapters[(c - 1) as usize].as_str());
    }
    reactToSearch(bookState, &indexMatches);
}

// ---------------------------------------------------------------------
// Search by a photo of a paper page
// ---------------------------------------------------------------------

/// How many of the non-empty `lines` occur in `text`.
pub open spec fn line_hits(text: Seq<char>, lines: Seq<Seq<char>>) -> nat
    decreases lines.len(),
{
    if lines.len() == 0 {
        0
    } else {
        line_hits(text, lines.drop_last()) + (if lines.last().len() > 0 && contains(
            text,
            lines.last(),
        ) {
            1nat
        } else {
            0nat
        })
    }
}

/// All numbered pages of the book, one chapter after the other.
pub open spec fn all_pages(pp: Seq<Seq<(Seq<char>, i32)>>) -> Seq<(Seq<char>, i32)>
    decreases pp.len(),
{
    if pp.len() == 0 {
        seq![]
    } else {
        all_pages(pp.drop_last()) + pp.last()
    }
}

/// The best match for `lines` among `pages`: the last page with the most
/// hits, with its number of hits; `(0, 0)` when there are no pages.
pub open spec fn best_page(pages: Seq<(Seq<char>, i32)>, lines: Seq<Seq<char>>) -> (nat, i32)
    decreases pages.len(),
{
    if pages.len() == 0 {
        (0, 0)
    } else {
        let before = best_page(pages.drop_last(), lines);
        let h = line_hits(pages.last().0, lines);
        if h >= before.0 {
            (h, pages.last().1)
        } else {
            before
        }
    }
}

/// Number of words of `s`, as `split(" ").count()` counts them.
pub open spec fn word_count(s: Seq<char>) -> nat {
    count_char(s, ' ') + 1
}

/// Words per paper page after a photo with `words` words: the first photo
/// sets it, later ones average with it.
pub open spec fn paper_words_after(previous: u32, words: nat) -> u32 {
    if previous == 0 {
        words as u32
    } else {
        ((previous + (words as u32)) / 2) as u32
    }
}

/// The state after a photo whose recognised text is `key`: the words per
/// paper page are updated, and the reader jumps to the page that contains
/// the most of the photo's lines (the last such page).
pub open spec fn ocr_searched(b: BookView, key: Seq<char>) -> BookView {
    let best = best_page(all_pages(plain_pages(b.chaps)), lines(key));
    let b1 = BookView {
        paper_words: paper_words_after(b.paper_words, word_count(key)),
        current_page: best.1,
        ..b
    };
    jumped(b1, JUMP_BY_OCR_SEARCH)
}

/// What `directOCR` needs.
pub open spec fn can_ocr(b: BookView, key: Seq<char>) -> bool {
    &&& total_pages(b.chaps) <= i32::MAX
    &&& key.len() < usize::MAX
    &&& b.paper_words != 0 ==> b.paper_words + (word_count(key) as u32) <= u32::MAX
}

/// How many of the non-empty `lines` occur in `text`.
fn count_hits(text: &[char], lines: &Vec<Vec<char>>) -> (h: usize)
    ensures
        h == line_hits(text@, seqs_of(lines@)),
{
    let ghost ls = seqs_of(lines@);
    let mut h: usize = 0;
    let mut i: usize = 0;
    while i < lines.len()
        invariant
            i <= lines.len(),
            ls == seqs_of(lines@),
            h == line_hits(text@, ls.take(i as int)),
            h <= i,
        decreases lines.len() - i,
    {
        assert(ls.take(i + 1).drop_last() == ls.take(i as int));
        assert(ls.take(i + 1).last() == lines@[i as int]@);
        if lines[i].len() > 0 && contains_chars(text, lines[i].as_slice()) {
            h = h + 1;
        }
        i = i + 1;
    }
    assert(ls.take(lines.len() as int) == ls);
    h
}

proof fn lemma_all_pages_positive(pp: Seq<Seq<(Seq<char>, i32)>>)
    requires
        forall|c: int, t: int|
            0 <= c < pp.len() && 0 <= t < pp[c].len() ==> #[trigger] pp[c][t].1 >= 1,
    ensures
        forall|i: int| 0 <= i < all_pages(pp).len() ==> #[trigger] all_pages(pp)[i].1 >= 1,
    decreases pp.len(),
{
    if pp.len() > 0 {
        let d = pp.drop_last();
        assert forall|c: int, t: int| 0 <= c < d.len() && 0 <= t < d[c].len() implies #[trigger] d[c][t].1
            >= 1 by {
            assert(d[c] == pp[c]);
        }
        lemma_all_pages_positive(d);
        let a = all_pages(d);
        assert forall|i: int| 0 <= i < all_pages(pp).len() implies #[trigger] all_pages(pp)[i].1
            >= 1 by {
            if i >= a.len() {
                assert(all_pages(pp)[i] == pp[pp.len() - 1][i - a.len()]);
            } else {
                assert(all_pages(pp)[i] == a[i]);
            }
        }
    }
}

proof fn lemma_best_page_nonneg(pages: Seq<(Seq<char>, i32)>, lines: Seq<Seq<char>>)
    requires
        forall|i: int| 0 <= i < pages.len() ==> #[trigger] pages[i].1 >= 1,
    ensures
        best_page(pages, lines).1 >= 0,
    decreases pages.len(),
{
    if pages.len() > 0 {
        let d = pages.drop_last();
        assert forall|i: int| 0 <= i < d.len() implies #[trigger] d[i].1 >= 1 by {
            assert(d[i] == pages[i]);
        }
        lemma_best_page_nonneg(d, lines);
        assert(pages[pages.len() - 1].1 >= 1);
    }
}

proof fn lemma_page_numbers_positive(chaps: Seq<ChapterView>)
    requires
        total_pages(chaps) <= i32::MAX,
    ensures
        forall|i: int|
            0 <= i < all_pages(plain_pages(chaps)).len() ==> #[trigger] all_pages(
                plain_pages(chaps),
            )[i].1 >= 1,
{
    let pp = plain_pages(chaps);
    assert forall|c: int, t: int| 0 <= c < pp.len() && 0 <= t < pp[c].len() implies #[trigger] pp[c][t].1
        >= 1 by {
        law_layout_matches_text(chaps[c]);
        lemma_total_pages_mono(chaps, c + 1);
        assert(chaps.take(c + 1).drop_last() == chaps.take(c));
        assert(chaps.take(c + 1).last() == chaps[c]);
        assert(page_number(chaps, c, t) <= total_pages(chaps));
    }
    lemma_all_pages_positive(pp);
}

/// Goes to the page that best matches the text recognised on a photo of a
/// paper page, as `ocr_searched` says.
#[allow(non_snake_case)]
pub fn directOCR(bookState: &mut BookState, key: &String)
    requires
        can_ocr(old(bookState)@, key@),
    ensures
        final(bookState)@ == ocr_searched(old(bookState)@, key@),
{
    let ghost b = bookState@;
    let plainPages = bookState.getPlainPages();
    let ghost pp = plain_pages(b.chaps);
    let keyChars = chars_of(key.as_str());
    let keyWordsCount = count_char_exec(keyChars.as_slice(), ' ') + 1;
    if bookState.getPaperWordsEvaluetion() == 0 {
        bookState.setPaperWordsEvaluetion(keyWordsCount as u32);
    } else {
        let previousValue = bookState.getPaperWordsEvaluetion();
        let average = (previousValue + keyWordsCount as u32) / 2;
        bookState.setPaperWordsEvaluetion(average);
    }
    let keyLines = lines_of(keyChars.as_slice());
    let mut bestHits: usize = 0;
    let mut bestPage: i32 = 0;
    let mut c: usize = 0;
    assert(pp.take(0) == Seq::<Seq<(Seq<char>, i32)>>::empty());
    while c < plainPages.len()
        invariant
            c <= plainPages.len(),
            pp == crate::ebook::plain_pages_view(plainPages@),
            seqs_of(keyLines@) == lines(key@),
            (bestHits as nat, bestPage) == best_page(all_pages(pp.take(c as int)), lines(key@)),
        decreases plainPages.len() - c,
    {
        let pages = &plainPages[c];
        let ghost done = all_pages(pp.take(c as int));
        let ghost chap = pp[c as int];
        assert(chap == crate::ebook::numbered_view(pages@));
        let mut t: usize = 0;
        assert(done + chap.take(0) == done);
        while t < pages.len()
            invariant
                t <= pages.len(),
                chap == crate::ebook::numbered_view(pages@),
                seqs_of(keyLines@) == lines(key@),
                (bestHits as nat, bestPage) == best_page(done + chap.take(t as int), lines(key@)),
            decreases pages.len() - t,
        {
            let page = chars_of(pages[t].0.as_str());
            let hits = count_hits(page.as_slice(), &keyLines);
            let ghost seen = done + chap.take(t as int);
            assert((done + chap.take(t + 1)).drop_last() == seen);
            assert((done + chap.take(t + 1)).last() == chap[t as int]);
            if hits >= bestHits {
                bestHits = hits;
                bestPage = pages[t].1;
            }
            t = t + 1;
        }
        assert(chap.take(pages.len() as int) == chap);
        assert(pp.take(c + 1).drop_last() == pp.take(c as int));
        assert(pp.take(c + 1).last() == chap);
        c = c + 1;
    }
    assert(pp.take(plainPages.len() as int) == pp);
    proof {
        lemma_page_numbers_positive(b.chaps);
        lemma_best_page_nonneg(all_pages(pp), lines(key@));
    }
    bookState.setCurrentPage(bestPage);
    bookState.jump(JUMP_BY_OCR_SEARCH);
}

/// The code of a book's language for the OCR engine: Italian or, for any
/// other language, English.
pub open spec fn ocr_language(lang: Seq<char>) -> Seq<char> {
    if lang == ITALIAN@ {
        "ita"@
    } else {
        "eng"@
    }
}

/// The language code the photos are read in when looking for the photo of
/// the current page: Italian, whatever the book's language.
pub fn photo_language() -> (code: String)
    ensures
        code@ == "ita"@,
{
    "ita".to_owned()
}

/// The code of the book's language for the OCR engine.
pub fn tesseract_language(lang: &str) -> (code: String)
    ensures
        code@ == ocr_language(lang@),
{
    if str_eq(lang, ITALIAN) {
        "ita".to_owned()
    } else if str_eq(lang, ENGLISH) {
        "eng".to_owned()
    } else {
        "eng".to_owned()
    }
}


// ---------------------------------------------------------------------
// From a digital page to the photo of its paper page
// ---------------------------------------------------------------------

/// Words on the pages among `pages` numbered up to `page`.
pub open spec fn words_up_to(pages: Seq<(Seq<char>, i32)>, page: i32) -> nat
    decreases pages.len(),
{
    if pages.len() == 0 {
        0
    } else {
        words_up_to(pages.drop_last(), page) + (if pages.last().1 <= page {
            word_count(pages.last().0)
        } else {
            0nat
        })
    }
}

/// Words on all the pages of all chapters.
pub open spec fn all_words(pp: Seq<Seq<(Seq<char>, i32)>>) -> nat
    decreases pp.len(),
{
    if pp.len() == 0 {
        0
    } else {
        all_words(pp.drop_last()) + words_up_to(pp.last(), i32::MAX)
    }
}

/// Paper pages that `words` words fill, `per_page` words a page.
pub open spec fn paper_pages(words: nat, per_page: nat) -> nat {
    words / per_page + (if words % per_page != 0 { 1nat } else { 0nat })
}

/// The paper pages that the chapters up to the current one fill, up to the
/// current page, counted chapter by chapter.
pub open spec fn digital_count(
    pp: Seq<Seq<(Seq<char>, i32)>>,
    current_chap: i32,
    current_page: i32,
    per_page: nat,
) -> nat
    decreases pp.len(),
{
    if pp.len() == 0 {
        0
    } else {
        digital_count(pp.drop_last(), current_chap, current_page, per_page) + (if ((pp.len() - 1) as usize)
            <= (current_chap as usize) {
            paper_pages(words_up_to(pp.last(), current_page), per_page)
        } else {
            0nat
        })
    }
}

/// The text of the last page among `pages` that has number `n`.
pub open spec fn last_page_numbered(pages: Seq<(Seq<char>, i32)>, n: i32) -> Option<Seq<char>>
    decreases pages.len(),
{
    if pages.len() == 0 {
        None
    } else if pages.last().1 == n {
        Some(pages.last().0)
    } else {
        last_page_numbered(pages.drop_last(), n)
    }
}

/// The plain text of the current page, found in the current chapter.
pub open spec fn current_page_text(b: BookView) -> Option<Seq<char>> {
    let pp = plain_pages(b.chaps);
    if 1 <= b.current_chap && b.current_chap <= pp.len() {
        last_page_numbered(pp[b.current_chap - 1], b.current_page)
    } else {
        None
    }
}

/// The photo whose recognised text best matches `text`: the last with the
/// most hits, with its number of hits; photos whose text could not be read
/// are skipped.
pub open spec fn best_image(
    text: Seq<char>,
    outputs: Seq<Option<Seq<char>>>,
    paths: Seq<Seq<char>>,
) -> (nat, Seq<char>)
    decreases outputs.len(),
{
    if outputs.len() == 0 {
        (0, seq![])
    } else {
        let i = outputs.len() - 1;
        let before = best_image(text, outputs.drop_last(), paths);
        match outputs[i] {
            Some(o) => {
                let h = line_hits(text, lines(o));
                if h >= before.0 {
                    (h, paths[i])
                } else {
                    before
                }
            },
            None => before,
        }
    }
}

/// The photo that `reverseOCR` gives: the best match for the current page,
/// if it shares at least one line with it; else the empty string.
pub open spec fn reverse_result(b: BookView, outputs: Seq<Option<Seq<char>>>) -> Seq<char> {
    match current_page_text(b) {
        Some(text) => {
            let best = best_image(text, outputs, b.img_list_path);
            if best.0 != 0 {
                best.1
            } else {
                seq![]
            }
        },
        None => seq![],
    }
}

/// What `reverseOCR` needs.
pub open spec fn can_reverse_ocr(b: BookView, outputs: Seq<Option<Seq<char>>>) -> bool {
    &&& total_pages(b.chaps) <= i32::MAX
    &&& b.chaps.len() > 0 ==> b.paper_words > 0
    &&& all_words(plain_pages(b.chaps)) <= usize::MAX
    &&& outputs.len() == b.img_list_path.len()
    &&& b.current_chap > i32::MIN
}

/// The model of the texts recognised on the photos.
pub open spec fn outputs_view(v: Seq<Option<String>>) -> Seq<Option<Seq<char>>> {
    v.map_values(|o: Option<String>| crate::ebook::opt_text(o))
}

proof fn lemma_paper_pages_le(words: nat, per_page: nat)
    requires
        per_page > 0,
    ensures
        paper_pages(words, per_page) <= words,
{
    if words > 0 {
        assert(words / per_page * per_page + words % per_page == words) by (nonlinear_arith)
            requires
                per_page > 0,
        ;
        assert(words / per_page <= words) by (nonlinear_arith)
            requires
                per_page > 0,
        ;
        if per_page == 1 {
            assert(words % per_page == 0);
        } else {
            assert(words / per_page < words) by (nonlinear_arith)
                requires
                    per_page > 1,
                    words > 0,
            ;
        }
    }
}

proof fn lemma_words_up_to_le(pages: Seq<(Seq<char>, i32)>, page: i32)
    ensures
        words_up_to(pages, page) <= words_up_to(pages, i32::MAX),
    decreases pages.len(),
{
    if pages.len() > 0 {
        lemma_words_up_to_le(pages.drop_last(), page);
    }
}

/// Words on the pages numbered up to `page`.
fn words_in(pages: &Vec<(String, i32)>, page: i32) -> (w: usize)
    requires
        words_up_to(crate::ebook::numbered_view(pages@), i32::MAX) <= usize::MAX,
    ensures
        w == words_up_to(crate::ebook::numbered_view(pages@), page),
{
    let ghost ps = crate::ebook::numbered_view(pages@);
    let mut w: usize = 0;
    let mut i: usize = 0;
    while i < pages.len()
        invariant
            i <= pages.len(),
            ps == crate::ebook::numbered_view(pages@),
            words_up_to(ps, i32::MAX) <= usize::MAX,
            w == words_up_to(ps.take(i as int), page),
            words_up_to(ps.take(i as int), i32::MAX) <= words_up_to(ps, i32::MAX),
        decreases pages.len() - i,
    {
        assert(ps.take(i + 1).drop_last() == ps.take(i as int));
        assert(ps.take(i + 1).last() == ps[i as int]);
        proof {
            lemma_words_up_to_le(ps.take(i + 1), page);
            lemma_words_prefix(ps, i + 1);
        }
        if pages[i].1 <= page {
            let cs = chars_of(pages[i].0.as_str());
            let n = count_char_exec(cs.as_slice(), ' ');
            w = w + n + 1;
        }
        i = i + 1;
    }
    assert(ps.take(pages.len() as int) == ps);
    w
}

proof fn lemma_words_prefix(ps: Seq<(Seq<char>, i32)>, k: int)
    requires
        0 <= k <= ps.len(),
    ensures
        words_up_to(ps.take(k), i32::MAX) <= words_up_to(ps, i32::MAX),
    decreases ps.len() - k,
{
    if k < ps.len() {
        lemma_words_prefix(ps, k + 1);
        assert(ps.take(k + 1).drop_last() == ps.take(k));
    } else {
        assert(ps.take(k) == ps);
    }
}

proof fn lemma_all_words_prefix(pp: Seq<Seq<(Seq<char>, i32)>>, k: int)
    requires
        0 <= k <= pp.len(),
    ensures
        all_words(pp.take(k)) <= all_words(pp),
    decreases pp.len() - k,
{
    if k < pp.len() {
        lemma_all_words_prefix(pp, k + 1);
        assert(pp.take(k + 1).drop_last() == pp.take(k));
    } else {
        assert(pp.take(k) == pp);
    }
}

#[allow(non_snake_case)]
impl BookState {
    /// The plain text of the current page, as the photos are matched against.
    pub fn pageForReverseOCR(&self) -> (r: Option<String>)
        requires
            total_pages(self@.chaps) <= i32::MAX,
            self@.current_chap > i32::MIN,
        ensures
            match r {
                Some(t) => current_page_text(self@) == Some(t@),
                None => current_page_text(self@) is None,
            },
    {
        let plainPages = self.getPlainPages();
        let c = self.getCurrentChap();
        if c >= 1 && ((c - 1) as usize) < plainPages.len() {
            let pages = &plainPages[(c - 1) as usize];
            let ghost ps = plain_pages(self@.chaps)[c - 1];
            assert(ps == crate::ebook::numbered_view(pages@));
            let mut found: Option<String> = None;
            let mut i: usize = 0;
            assert(ps.take(0) == Seq::<(Seq<char>, i32)>::empty());
            while i < pages.len()
                invariant
                    i <= pages.len(),
                    ps == crate::ebook::numbered_view(pages@),
                    match found {
                        Some(t) => last_page_numbered(ps.take(i as int), self@.current_page)
                            == Some(t@),
                        None => last_page_numbered(ps.take(i as int), self@.current_page) is None,
                    },
                decreases pages.len() - i,
            {
                assert(ps.take(i + 1).drop_last() == ps.take(i as int));
                assert(ps.take(i + 1).last() == ps[i as int]);
                if pages[i].1 == self.getCurrentPage() {
                    found = Some(pages[i].0.clone());
                }
                i = i + 1;
            }
            assert(ps.take(pages.len() as int) == ps);
            found
        } else {
            None
        }
    }
}

/// The paper pages up to the current page, as `digital_count` counts them.
fn count_paper_pages(
    plainPages: &Vec<Vec<(String, i32)>>,
    currentChap: i32,
    currentPage: i32,
    paper: u32,
) -> (n: usize)
    requires
        crate::ebook::plain_pages_view(plainPages@).len() > 0 ==> paper > 0,
        all_words(crate::ebook::plain_pages_view(plainPages@)) <= usize::MAX,
    ensures
        n == digital_count(
            crate::ebook::plain_pages_view(plainPages@),
            currentChap,
            currentPage,
            paper as nat,
        ),
{
    let ghost pp = crate::ebook::plain_pages_view(plainPages@);
    let mut nPageCount: usize = 0;
    let mut indexChap: usize = 0;
    assert(pp.take(0) == Seq::<Seq<(Seq<char>, i32)>>::empty());
    while indexChap < plainPages.len()
        invariant
            indexChap <= plainPages.len(),
            pp == crate::ebook::plain_pages_view(plainPages@),
            pp.len() > 0 ==> paper > 0,
            all_words(pp) <= usize::MAX,
            nPageCount == digital_count(pp.take(indexChap as int), currentChap, currentPage, paper as nat),
            nPageCount <= all_words(pp.take(indexChap as int)),
        decreases plainPages.len() - indexChap,
    {
        let ghost i = indexChap as int;
        proof {
            assert(pp.take(i + 1).drop_last() == pp.take(i));
            assert(pp.take(i + 1).last() == pp[i]);
            lemma_all_words_prefix(pp, i + 1);
            lemma_words_up_to_le(pp[i], currentPage);
        }
        if indexChap <= currentChap as usize {
            let wordsCount2 = words_in(&plainPages[indexChap], currentPage);
            proof {
                lemma_paper_pages_le(wordsCount2 as nat, paper as nat);
            }
            let mut add = wordsCount2 / paper as usize;
            if wordsCount2 % paper as usize != 0 {
                add = add + 1;
            }
            nPageCount = nPageCount + add;
        }
        indexChap = indexChap + 1;
    }
    assert(pp.take(plainPages.len() as int) == pp);
    nPageCount
}

/// The best match for `text` among the photos, as `best_image` says.
fn best_image_of(text: &String, ocrOutputs: &Vec<Option<String>>, imagesPath: &Vec<String>) -> (r: (
    usize,
    String,
))
    requires
        ocrOutputs@.len() == imagesPath@.len(),
    ensures
        (r.0 as nat, r.1@) == best_image(text@, outputs_view(ocrOutputs@), texts_view(imagesPath@)),
{
    let textChars = chars_of(text.as_str());
    let ghost outs = outputs_view(ocrOutputs@);
    let ghost paths = texts_view(imagesPath@);
    let mut bestHits: usize = 0;
    let mut bestPath: String = String::new();
    let mut id: usize = 0;
    assert(outs.take(0) == Seq::<Option<Seq<char>>>::empty());
    while id < ocrOutputs.len()
        invariant
            id <= ocrOutputs.len(),
            outs == outputs_view(ocrOutputs@),
            paths == texts_view(imagesPath@),
            outs.len() == paths.len(),
            textChars@ == text@,
            (bestHits as nat, bestPath@) == best_image(text@, outs.take(id as int), paths),
        decreases ocrOutputs.len() - id,
    {
        let ghost k = id as int;
        assert(outs.take(k + 1).drop_last() == outs.take(k));
        assert(outs.take(k + 1)[k] == outs[k]);
        assert(outs[k] == crate::ebook::opt_text(ocrOutputs@[k]));
        if let Some(output) = &ocrOutputs[id] {
            let outChars = chars_of(output.as_str());
            let outLines = lines_of(outChars.as_slice());
            let currHits = count_hits(textChars.as_slice(), &outLines);
            if currHits >= bestHits {
                bestHits = currHits;
                bestPath = imagesPath[id].clone();
            }
        }
        id = id + 1;
    }
    assert(outs.take(ocrOutputs.len() as int) == outs);
    (bestHits, bestPath)
}

/// Estimates the paper page of the current digital page, and finds among
/// the photos the one whose recognised text (`ocrOutputs`, one per photo;
/// `None` where it could not be read) best matches the current page, as
/// `reverse_result` says.
#[allow(non_snake_case)]
pub fn reverseOCR(bookState: &mut BookState, ocrOutputs: &Vec<Option<String>>) -> (path: String)
    requires
        can_reverse_ocr(old(bookState)@, outputs_view(ocrOutputs@)),
    ensures
        path@ == reverse_result(old(bookState)@, outputs_view(ocrOutputs@)),
        final(bookState)@ == (BookView {
            digital_pages: digital_count(
                plain_pages(old(bookState)@.chaps),
                old(bookState)@.current_chap,
                old(bookState)@.current_page,
                old(bookState)@.paper_words as nat,
            ) as u32,
            ..old(bookState)@
        }),
{
    let ghost b = bookState@;
    let plainPages = bookState.getPlainPages();
    let currentPage = bookState.getCurrentPage();
    let currentChap = bookState.getCurrentChap();
    let paper = bookState.getPaperWordsEvaluetion();
    let nPageCount = count_paper_pages(&plainPages, currentChap, currentPage, paper);
    bookState.setDigitalPageEvaluetion(nPageCount as u32);
    let ghost b2 = bookState@;
    assert(b2.chaps == b.chaps && b2.current_chap == b.current_chap && b2.current_page
        == b.current_page);
    match bookState.pageForReverseOCR() {
        Some(text) => {
            let imagesPath = bookState.getImagesPathList();
            let (bestHits, bestPath) = best_image_of(&text, ocrOutputs, &imagesPath);
            if bestHits != 0 {
                return bestPath;
            }
            String::new()
        },
        None => String::new(),
    }
}

} // verus!

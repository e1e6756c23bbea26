//! Searching the line-based reader's pages for the text of the search bar.
use vstd::prelude::*;

use super::implementation::{can_jump, jumped_to, strs, BookState, ReaderView, JUMP_BY_SEARCH};
use crate::text::{chars_of, contains, contains_chars};

verus! {

/// The position of the first of `pages` that contains `key`.
pub open spec fn first_hit(pages: Seq<Seq<char>>, key: Seq<char>) -> Option<int>
    decreases pages.len(),
{
    if pages.len() == 0 {
        None
    } else if contains(pages[0], key) {
        Some(0)
    } else {
        match first_hit(pages.drop_first(), key) {
            Some(i) => Some(i + 1),
            None => None,
        }
    }
}

/// The state once the search found its page: the first page that contains
/// the text of the search bar becomes current.
pub open spec fn hit_found(b: ReaderView) -> ReaderView {
    match first_hit(b.parsed_pages, b.bar_text) {
        Some(i) => ReaderView { current_page: (i + 1) as i32, ..b },
        None => b,
    }
}

proof fn lemma_first_hit_skip(pages: Seq<Seq<char>>, key: Seq<char>, i: int)
    requires
        0 <= i < pages.len(),
        forall|j: int| 0 <= j < i ==> !contains(#[trigger] pages[j], key),
    ensures
        first_hit(pages, key) == match first_hit(pages.subrange(i, pages.len() as int), key) {
            Some(k) => Some(k + i),
            None => None,
        },
    decreases i,
{
    if i > 0 {
        let d = pages.drop_first();
        assert forall|j: int| 0 <= j < i - 1 implies !contains(#[trigger] d[j], key) by {
            assert(d[j] == pages[j + 1]);
        }
        lemma_first_hit_skip(d, key, i - 1);
        assert(d.subrange(i - 1, d.len() as int) == pages.subrange(i, pages.len() as int));
    } else {
        assert(pages.subrange(0, pages.len() as int) == pages);
    }
}

/// Goes to the first page that contains the text of the search bar.
pub fn search_chapter(data: &mut BookState)
    requires
        can_jump(hit_found(old(data)@), JUMP_BY_SEARCH),
    ensures
        final(data)@ == jumped_to(hit_found(old(data)@), JUMP_BY_SEARCH),
{
    let ghost b = data@;
    let pages = data.parsed_pages();
    let key = chars_of(data.bar_text().as_str());
    let mut index: usize = 0;
    let mut hit: Option<usize> = None;
    while index < pages.len() && hit.is_none()
        invariant
            index <= pages.len(),
            strs(pages@) == b.parsed_pages,
            key@ == b.bar_text,
            hit matches Some(k) ==> first_hit(b.parsed_pages, b.bar_text) == Some(k as int) && k
                < pages.len(),
            data@ == b,
            hit is None ==> forall|j: int| 0 <= j < index ==> !contains(
                #[trigger] b.parsed_pages[j],
                b.bar_text,
            ),
        decreases pages.len() - index,
    {
        let page = chars_of(pages[index].as_str());
        assert(page@ == b.parsed_pages[index as int]);
        if contains_chars(page.as_slice(), key.as_slice()) {
            proof {
                lemma_first_hit_skip(b.parsed_pages, b.bar_text, index as int);
            }
            hit = Some(index);
        }
        index = index + 1;
    }
    if let Some(k) = hit {
        data.set_current_page((k + 1) as i32);
        assert(data@ == hit_found(b));
    } else {
        proof {
            if b.parsed_pages.len() > 0 {
                lemma_first_hit_skip(b.parsed_pages, b.bar_text, b.parsed_pages.len() - 1);
                let last = b.parsed_pages.subrange(
                    b.parsed_pages.len() - 1,
                    b.parsed_pages.len() as int,
                );
                assert(last[0] == b.parsed_pages[b.parsed_pages.len() - 1]);
                assert(last.drop_first().len() == 0);
                assert(!contains(last[0], b.bar_text));
                assert(first_hit(last.drop_first(), b.bar_text) is None);
                assert(first_hit(last, b.bar_text) is None);
            }
            assert(first_hit(b.parsed_pages, b.bar_text) is None);
        }
    }
    data.jump_to_page(JUMP_BY_SEARCH);
}

} // verus!

//! Saving an edited book: the names of the files involved and which files of
//! the unpacked book receive which edited HTML.
use vstd::prelude::*;

use crate::chapter::{Chapter, ChapterView};
use crate::ebook::{chapters_view, texts_view};
use crate::text::{chars_of, contains, contains_chars, replace, replace_chars, string_of};

verus! {

/// Opens and saves books for the reader.
pub struct Explorer;

/// The writes due for the file `source` (number `s`): for each chapter, in
/// order, whose path occurs in the file's path and that has HTML, the pair of
/// the file and the chapter.
pub open spec fn writes_for(
    s: usize,
    source: Seq<char>,
    chapter_paths: Seq<Seq<char>>,
    n_htmls: nat,
) -> Seq<(usize, usize)>
    decreases chapter_paths.len(),
{
    if chapter_paths.len() == 0 {
        seq![]
    } else {
        let i = chapter_paths.len() - 1;
        let before = writes_for(s, source, chapter_paths.drop_last(), n_htmls);
        if contains(source, chapter_paths[i]) && i < n_htmls {
            before.push((s, i as usize))
        } else {
            before
        }
    }
}

/// The writes due for all the files `sources`, file after file.
pub open spec fn planned_writes(
    sources: Seq<Seq<char>>,
    chapter_paths: Seq<Seq<char>>,
    n_htmls: nat,
) -> Seq<(usize, usize)>
    decreases sources.len(),
{
    if sources.len() == 0 {
        seq![]
    } else {
        let s = sources.len() - 1;
        planned_writes(sources.drop_last(), chapter_paths, n_htmls) + writes_for(
            s as usize,
            sources[s],
            chapter_paths,
            n_htmls,
        )
    }
}

/// The paths of a list of chapters.
pub open spec fn chapter_paths(chaps: Seq<ChapterView>) -> Seq<Seq<char>> {
    chaps.map_values(|c: ChapterView| c.path)
}

#[allow(non_snake_case)]
impl Explorer {
    /// Which files of the unpacked book get which chapter's HTML: the pairs
    /// (file, chapter), in the order the writes are done, of a file whose
    /// path contains the chapter's path.
    pub fn plannedWrites(sources: &Vec<String>, chapters: &Vec<Chapter>, htmls: &Vec<String>) -> (r:
        Vec<(usize, usize)>)
        ensures
            r@ == planned_writes(
                texts_view(sources@),
                chapter_paths(chapters_view(chapters@)),
                htmls@.len(),
            ),
    {
        let ghost srcs = texts_view(sources@);
        let ghost cps = chapter_paths(chapters_view(chapters@));
        let mut out: Vec<(usize, usize)> = Vec::new();
        let mut s: usize = 0;
        assert(srcs.take(0) == Seq::<Seq<char>>::empty());
        while s < sources.len()
            invariant
                s <= sources.len(),
                srcs == texts_view(sources@),
                cps == chapter_paths(chapters_view(chapters@)),
                out@ == planned_writes(srcs.take(s as int), cps, htmls@.len()),
            decreases sources.len() - s,
        {
            let sourcePath = chars_of(sources[s].as_str());
            let ghost before = out@;
            let mut index: usize = 0;
            assert(cps.take(0) == Seq::<Seq<char>>::empty());
            while index < chapters.len()
                invariant
                    index <= chapters.len(),
                    cps == chapter_paths(chapters_view(chapters@)),
                    sourcePath@ == srcs[s as int],
                    s < srcs.len(),
                    out@ == before + writes_for(s, srcs[s as int], cps.take(index as int), htmls@.len()),
                decreases chapters.len() - index,
            {
                let p = chars_of(chapters[index].getPath().as_str());
                assert(cps.take(index + 1).drop_last() == cps.take(index as int));
                assert(cps.take(index + 1)[index as int] == chapters@[index as int]@.path);
                if contains_chars(sourcePath.as_slice(), p.as_slice()) {
                    if index < htmls.len() {
                        out.push((s, index));
                    }
                }
                index = index + 1;
            }
            assert(cps.take(chapters.len() as int) == cps);
            assert(srcs.take(s + 1).drop_last() == srcs.take(s as int));
            assert(srcs.take(s + 1)[s as int] == srcs[s as int]);
            s = s + 1;
        }
        assert(srcs.take(sources.len() as int) == srcs);
        out
    }

    /// The path of the archive copy of the book: `".epub"` becomes `".zip"`.
    pub fn zipPath(epubModPath: &str) -> (r: String)
        ensures
            r@ == replace(epubModPath@, ".epub"@, ".zip"@),
    {
        let p = chars_of(epubModPath);
        let a = chars_of(".epub");
        let b = chars_of(".zip");
        proof {
            reveal_strlit(".epub");
        }
        string_of(replace_chars(p.as_slice(), a.as_slice(), b.as_slice()).as_slice())
    }

    /// The folder the book is unpacked into: `".epub"` is dropped.
    pub fn folderPath(epubModPath: &str) -> (r: String)
        ensures
            r@ == replace(epubModPath@, ".epub"@, ""@),
    {
        let p = chars_of(epubModPath);
        let a = chars_of(".epub");
        let b = chars_of("");
        proof {
            reveal_strlit(".epub");
        }
        string_of(replace_chars(p.as_slice(), a.as_slice(), b.as_slice()).as_slice())
    }

    /// The name the packed archive takes back: `".zip"` becomes `".epub"`.
    pub fn epubPath(epubModPath: &str) -> (r: String)
        ensures
            r@ == replace(epubModPath@, ".zip"@, ".epub"@),
    {
        let p = chars_of(epubModPath);
        let a = chars_of(".zip");
        let b = chars_of(".epub");
        proof {
            reveal_strlit(".zip");
        }
        string_of(replace_chars(p.as_slice(), a.as_slice(), b.as_slice()).as_slice())
    }
}

} // verus!

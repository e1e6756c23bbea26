//! The line-based reader: pages of an epub stripped of their markup, the
//! formatting read from the markup line by line, and the layout of a page.
use std::collections::HashMap;
use vstd::prelude::*;

use crate::text::{
    chars_of, contains, contains_chars, extend_chars, lines, lines_of, newline,
    replace, replace_chars, seqs_of, string_of, trim, trim_chars,
};

verus! {

broadcast use vstd::std_specs::hash::group_hash_axioms;

/// How a line of a page is formatted, as its markup says.
#[derive(Clone, Copy, PartialEq, Eq, Structural, Debug)]
pub enum FormattingInfo {
    Title,
    Heading,
    Heading2,
    Italic,
    Bold,
    Ignore,
}

/// The formatting of the lines of the pages: for a page and a line, the
/// formatting last recorded. Kept page by page, each page's lines by number.
pub struct FormatMap {
    pages: HashMap<usize, HashMap<usize, FormattingInfo>>,
}

/// The formatting that the pages `pages` record, by (page, line).
pub open spec fn flatten_pages(pages: Map<usize, HashMap<usize, FormattingInfo>>) -> Map<
    (usize, usize),
    FormattingInfo,
> {
    Map::new(
        |k: (usize, usize)| pages.contains_key(k.0) && pages[k.0]@.contains_key(k.1),
        |k: (usize, usize)| pages[k.0]@[k.1],
    )
}

impl View for FormatMap {
    type V = Map<(usize, usize), FormattingInfo>;

    closed spec fn view(&self) -> Map<(usize, usize), FormattingInfo> {
        flatten_pages(self.pages@)
    }
}

impl FormatMap {
    /// No formatting recorded.
    pub fn new() -> (m: FormatMap)
        ensures
            m@ == Map::<(usize, usize), FormattingInfo>::empty(),
    {
        let m = FormatMap { pages: HashMap::new() };
        assert(m@ =~= Map::<(usize, usize), FormattingInfo>::empty());
        m
    }

    /// Records `f` for `key`.
    pub fn insert(&mut self, key: (usize, usize), f: FormattingInfo)
        ensures
            final(self)@ == old(self)@.insert(key, f),
    {
        let ghost before = self.pages@;
        let mut lines = match self.pages.remove(&key.0) {
            Some(lines) => lines,
            None => HashMap::new(),
        };
        let ghost lines0 = lines@;
        assert(before.contains_key(key.0) ==> lines0 == before[key.0]@);
        assert(!before.contains_key(key.0) ==> lines0 == Map::<usize, FormattingInfo>::empty());
        lines.insert(key.1, f);
        self.pages.insert(key.0, lines);
        assert(self@ =~= flatten_pages(before).insert(key, f));
    }

    /// Forgets all formatting.
    pub fn clear(&mut self)
        ensures
            final(self)@ == Map::<(usize, usize), FormattingInfo>::empty(),
    {
        self.pages = HashMap::new();
        assert(self@ =~= Map::<(usize, usize), FormattingInfo>::empty());
    }

    /// The formatting recorded for `key`.
    pub fn get(&self, key: (usize, usize)) -> (r: Option<FormattingInfo>)
        ensures
            r == (if self@.contains_key(key) {
                Some(self@[key])
            } else {
                None
            }),
    {
        match self.pages.get(&key.0) {
            Some(lines) => match lines.get(&key.1) {
                Some(f) => Some(*f),
                None => None,
            },
            None => None,
        }
    }
}

// ---------------------------------------------------------------------
// Regular expressions (regex)
// ---------------------------------------------------------------------

/// `pattern` is a valid regular expression.
pub uninterp spec fn regex_compiles(pattern: Seq<char>) -> bool;

/// `text` with every non-overlapping match of `pattern` replaced by `rep`.
pub uninterp spec fn regex_replaced(pattern: Seq<char>, text: Seq<char>, rep: Seq<char>) -> Seq<
    char,
>;

/// For each successive match of `pattern` in `text`, the text of the whole
/// match and then the texts of the capture groups that took part in it, in
/// group order; all matches one after the other.
pub uninterp spec fn regex_groups(pattern: Seq<char>, text: Seq<char>) -> Seq<Seq<char>>;

/// Calls `regex::Regex::new(pattern)` and tells whether it succeeds. The
/// contract claims that the answer is `regex_compiles(pattern@)`.
#[verifier::external_body]
pub fn regex_valid(pattern: &str) -> (ok: bool)
    ensures
        ok == regex_compiles(pattern@),
{
    regex::Regex::new(pattern).is_ok()
}

/// Calls `Regex::new(pattern)` and `Regex::replace_all(text, rep)`. The
/// contract claims that the result is `regex_replaced(pattern@, text@,
/// rep@)`; `requires` leaves out the patterns on which `Regex::new` fails.
#[verifier::external_body]
fn regex_replace_all(pattern: &str, text: &str, rep: &str) -> (r: String)
    requires
        regex_compiles(pattern@),
    ensures
        r@ == regex_replaced(pattern@, text@, rep@),
{
    regex::Regex::new(pattern).unwrap().replace_all(text, rep).into_owned()
}

/// Calls `Regex::new(pattern)` and `Regex::captures_iter(text)`, and lists,
/// capture after capture, the texts of `Captures::iter()` that are present.
/// The contract claims that the list is `regex_groups(pattern@, text@)`;
/// `requires` leaves out the patterns on which `Regex::new` fails.
#[verifier::external_body]
fn regex_capture_texts(pattern: &str, text: &str) -> (r: Vec<String>)
    requires
        regex_compiles(pattern@),
    ensures
        texts_of(r@) == regex_groups(pattern@, text@),
{
    regex::Regex::new(pattern).unwrap().captures_iter(text).flat_map(
        |c| c.iter().flatten().map(|m| m.as_str().to_owned()).collect::<Vec<String>>(),
    ).collect()
}

/// The character sequences of a list of strings.
pub open spec fn texts_of(v: Seq<String>) -> Seq<Seq<char>> {
    v.map_values(|s: String| s@)
}

// ---------------------------------------------------------------------
// Stripping the markup
// ---------------------------------------------------------------------

/// Any tag.
pub open spec fn tag_pattern() -> Seq<char> {
    "<(.*?)>"@
}

/// A document type declaration, to the end of the line.
pub open spec fn doctype_pattern() -> Seq<char> {
    "(<!DOCTYPE.*)"@
}

/// A quoted address, to the end of the line.
pub open spec fn address_pattern() -> Seq<char> {
    "(\"http.*)"@
}

/// The three patterns compile.
pub open spec fn calibre_patterns_ok() -> bool {
    &&& regex_compiles(tag_pattern())
    &&& regex_compiles(doctype_pattern())
    &&& regex_compiles(address_pattern())
}

/// A line without its `<br/>` tags.
pub open spec fn without_breaks(line: Seq<char>) -> Seq<char> {
    replace(line, "<br/>"@, ""@)
}

/// The text of a line: without tags, document type and addresses, trimmed.
pub open spec fn line_text(line: Seq<char>) -> Seq<char> {
    let l = without_breaks(line);
    trim(
        regex_replaced(
            address_pattern(),
            regex_replaced(doctype_pattern(), regex_replaced(tag_pattern(), l, ""@), ""@),
            ""@,
        ),
    )
}

/// The formatting that a piece of markup announces.
pub open spec fn format_of(capture: Seq<char>) -> Option<FormattingInfo> {
    if contains(capture, "<img"@) || contains(capture, "<body"@) || contains(capture, "<p>"@) {
        None
    } else if contains(capture, "<title"@) {
        Some(FormattingInfo::Title)
    } else if contains(capture, "<h1"@) {
        Some(FormattingInfo::Heading)
    } else if contains(capture, "<h2"@) {
        Some(FormattingInfo::Heading2)
    } else if contains(capture, "<i"@) {
        Some(FormattingInfo::Italic)
    } else if contains(capture, "<b"@) {
        Some(FormattingInfo::Bold)
    } else {
        None
    }
}

/// The formatting that the last of `captures` that announces one announces.
pub open spec fn last_format(captures: Seq<Seq<char>>) -> Option<FormattingInfo>
    decreases captures.len(),
{
    if captures.len() == 0 {
        None
    } else {
        match format_of(captures.last()) {
            Some(f) => Some(f),
            None => last_format(captures.drop_last()),
        }
    }
}

/// The outcome of stripping the lines `ls` of page `page`, starting from the
/// formatting `m0`: the text (each kept line followed by a newline), how many
/// lines were empty and dropped, and the formatting, recorded under the
/// line's number among the kept lines.
pub open spec fn stripped(ls: Seq<Seq<char>>, page: usize, m0: Map<(usize, usize), FormattingInfo>) -> (
    Seq<char>,
    nat,
    Map<(usize, usize), FormattingInfo>,
)
    decreases ls.len(),
{
    if ls.len() == 0 {
        (seq![], 0, m0)
    } else {
        let (out, removed, m) = stripped(ls.drop_last(), page, m0);
        let k = ls.len() - 1;
        let l = without_breaks(ls.last());
        let text = line_text(ls.last());
        if text.len() == 0 {
            (out, removed + 1, m)
        } else {
            let m2 = match last_format(regex_groups(tag_pattern(), l)) {
                Some(f) => m.insert((page, (k - removed) as usize), f),
                None => m,
            };
            (out + text + newline(), removed, m2)
        }
    }
}

/// `parse_calibre` needs the three patterns to compile.
pub fn calibre_patterns_valid() -> (ok: bool)
    ensures
        ok == calibre_patterns_ok(),
{
    regex_valid("<(.*?)>") && regex_valid("(<!DOCTYPE.*)") && regex_valid("(\"http.*)")
}

/// Strips the markup as `parse_calibre` does, when the regular expressions
/// it uses compile; `None`, with the formatting untouched, when they do not.
pub fn parse_calibre_checked(input: &str, page: usize, formatting_info: &mut FormatMap) -> (output:
    Option<String>)
    ensures
        calibre_patterns_ok() ==> (output matches Some(o) && o@ == stripped(
            lines(input@),
            page,
            old(formatting_info)@,
        ).0),
        calibre_patterns_ok() ==> final(formatting_info)@ == stripped(
            lines(input@),
            page,
            old(formatting_info)@,
        ).2,
        !calibre_patterns_ok() ==> output is None && final(formatting_info)@ == old(
            formatting_info,
        )@,
{
    if calibre_patterns_valid() {
        Some(parse_calibre(input, page, formatting_info))
    } else {
        None
    }
}

/// The formatting announced by one piece of markup.
fn format_of_exec(capture: &str) -> (r: Option<FormattingInfo>)
    ensures
        r == format_of(capture@),
{
    let c = chars_of(capture);
    let img = chars_of("<img");
    let body = chars_of("<body");
    let p = chars_of("<p>");
    let title = chars_of("<title");
    let h1 = chars_of("<h1");
    let h2 = chars_of("<h2");
    let i = chars_of("<i");
    let b = chars_of("<b");
    if contains_chars(c.as_slice(), img.as_slice()) || contains_chars(c.as_slice(), body.as_slice())
        || contains_chars(c.as_slice(), p.as_slice()) {
        None
    } else if contains_chars(c.as_slice(), title.as_slice()) {
        Some(FormattingInfo::Title)
    } else if contains_chars(c.as_slice(), h1.as_slice()) {
        Some(FormattingInfo::Heading)
    } else if contains_chars(c.as_slice(), h2.as_slice()) {
        Some(FormattingInfo::Heading2)
    } else if contains_chars(c.as_slice(), i.as_slice()) {
        Some(FormattingInfo::Italic)
    } else if contains_chars(c.as_slice(), b.as_slice()) {
        Some(FormattingInfo::Bold)
    } else {
        None
    }
}

/// Strips the markup from the HTML `input` of page `page`: the text of each
/// non-empty line, one line after the other, and in `formatting_info` the
/// formatting of each kept line, as `stripped` says.
pub fn parse_calibre(input: &str, page: usize, formatting_info: &mut FormatMap) -> (output: String)
    requires
        calibre_patterns_ok(),
    ensures
        output@ == stripped(lines(input@), page, old(formatting_info)@).0,
        final(formatting_info)@ == stripped(lines(input@), page, old(formatting_info)@).2,
{
    let ghost m0 = formatting_info@;
    let cs = chars_of(input);
    let ls = lines_of(cs.as_slice());
    let ghost lv = seqs_of(ls@);
    let br = chars_of("<br/>");
    let empty = chars_of("");
    proof {
        reveal_strlit("<br/>");
    }
    let mut output: Vec<char> = Vec::new();
    let mut lines_removed: usize = 0;
    let mut line_number: usize = 0;
    assert(lv.take(0) == Seq::<Seq<char>>::empty());
    while line_number < ls.len()
        invariant
            line_number <= ls.len(),
            lv == seqs_of(ls@),
            lv == lines(input@),
            br@ == "<br/>"@,
            br@.len() > 0,
            empty@ == ""@,
            calibre_patterns_ok(),
            lines_removed <= line_number,
            (output@, lines_removed as nat, formatting_info@) == stripped(
                lv.take(line_number as int),
                page,
                m0,
            ),
        decreases ls.len() - line_number,
    {
        let ghost k = line_number as int;
        assert(lv.take(k + 1).drop_last() == lv.take(k));
        assert(lv.take(k + 1).last() == ls@[k]@);
        let line = string_of(replace_chars(ls[line_number].as_slice(), br.as_slice(), empty.as_slice()).as_slice());
        let processed = regex_replace_all("<(.*?)>", line.as_str(), "");
        let processed2 = regex_replace_all("(<!DOCTYPE.*)", processed.as_str(), "");
        let processed3 = regex_replace_all("(\"http.*)", processed2.as_str(), "");
        let p3 = chars_of(processed3.as_str());
        let processed_line = trim_chars(p3.as_slice());
        if processed_line.len() > 0 {
            let captures = regex_capture_texts("<(.*?)>", line.as_str());
            let ghost cv = texts_of(captures@);
            let mut found: Option<FormattingInfo> = None;
            let mut j: usize = 0;
            assert(cv.take(0) == Seq::<Seq<char>>::empty());
            while j < captures.len()
                invariant
                    j <= captures.len(),
                    cv == texts_of(captures@),
                    found == last_format(cv.take(j as int)),
                decreases captures.len() - j,
            {
                assert(cv.take(j + 1).drop_last() == cv.take(j as int));
                assert(cv.take(j + 1).last() == captures@[j as int]@);
                if let Some(f) = format_of_exec(captures[j].as_str()) {
                    found = Some(f);
                }
                j = j + 1;
            }
            assert(cv.take(captures.len() as int) == cv);
            if let Some(f) = found {
                formatting_info.insert((page, line_number - lines_removed), f);
            }
            extend_chars(&mut output, processed_line.as_slice());
            output.push('\n');
            assert(output@ =~= stripped(lv.take(k), page, m0).0 + processed_line@ + newline());
        } else {
            lines_removed = lines_removed + 1;
        }
        line_number = line_number + 1;
    }
    assert(lv.take(ls.len() as int) == lv);
    string_of(output.as_slice())
}

// ---------------------------------------------------------------------
// The layout of a page
// ---------------------------------------------------------------------

/// The role of a stretch of text on a page.
#[derive(Clone, Copy, PartialEq, Eq, Structural, Debug)]
pub enum RunStyle {
    Title,
    Heading,
    Heading2,
    Bold,
    Italic,
    Normal,
    Unstyled,
}

/// A stretch of text and its role.
#[derive(Clone)]
pub struct Run {
    pub style: RunStyle,
    pub text: String,
}

/// The model of a list of runs.
pub open spec fn runs_view(v: Seq<Run>) -> Seq<(RunStyle, Seq<char>)> {
    v.map_values(|r: Run| (r.style, r.text@))
}

/// The runs that a line with formatting `f` gives.
pub open spec fn line_runs(line: Seq<char>, f: Option<FormattingInfo>) -> Seq<(RunStyle, Seq<char>)> {
    match f {
        Some(FormattingInfo::Title) => seq![
            (RunStyle::Title, line),
            (RunStyle::Unstyled, newline()),
            (RunStyle::Unstyled, newline()),
            (RunStyle::Unstyled, newline()),
        ],
        Some(FormattingInfo::Heading) => seq![
            (RunStyle::Heading, line),
            (RunStyle::Unstyled, newline()),
            (RunStyle::Unstyled, newline()),
        ],
        Some(FormattingInfo::Heading2) => seq![
            (RunStyle::Heading2, line),
            (RunStyle::Unstyled, newline()),
            (RunStyle::Unstyled, newline()),
        ],
        Some(FormattingInfo::Bold) => seq![(RunStyle::Bold, line), (RunStyle::Unstyled, newline())],
        Some(FormattingInfo::Italic) => seq![
            (RunStyle::Italic, line),
            (RunStyle::Unstyled, newline()),
        ],
        Some(FormattingInfo::Ignore) => seq![(RunStyle::Unstyled, seq![])],
        None => seq![(RunStyle::Normal, line), (RunStyle::Unstyled, newline())],
    }
}

/// The layout of the lines `ls` of page `page`, each line formatted as `info`
/// records for its number.
pub open spec fn page_runs(ls: Seq<Seq<char>>, page: usize, info: Map<(usize, usize), FormattingInfo>) -> Seq<
    (RunStyle, Seq<char>),
>
    decreases ls.len(),
{
    if ls.len() == 0 {
        seq![]
    } else {
        let k = (ls.len() - 1) as usize;
        let f = if info.contains_key((page, k)) {
            Some(info[(page, k)])
        } else {
            None
        };
        page_runs(ls.drop_last(), page, info) + line_runs(ls.last(), f)
    }
}

fn push_run(out: &mut Vec<Run>, style: RunStyle, text: &[char])
    ensures
        runs_view(final(out)@) == runs_view(old(out)@).push((style, text@)),
{
    let ghost before = out@;
    out.push(Run { style, text: string_of(text) });
    assert(runs_view(out@) =~= runs_view(before).push((style, text@)));
}

/// The runs of one line.
fn line_runs_exec(out: &mut Vec<Run>, line: &[char], f: Option<FormattingInfo>)
    ensures
        runs_view(final(out)@) == runs_view(old(out)@) + line_runs(line@, f),
{
    let ghost start = runs_view(out@);
    let mut nl: Vec<char> = Vec::new();
    nl.push('\n');
    assert(nl@ == newline());
    let none: Vec<char> = Vec::new();
    assert(none@ == Seq::<char>::empty());
    match f {
        Some(FormattingInfo::Title) => {
            push_run(out, RunStyle::Title, line);
            push_run(out, RunStyle::Unstyled, nl.as_slice());
            push_run(out, RunStyle::Unstyled, nl.as_slice());
            push_run(out, RunStyle::Unstyled, nl.as_slice());
        },
        Some(FormattingInfo::Heading) => {
            push_run(out, RunStyle::Heading, line);
            push_run(out, RunStyle::Unstyled, nl.as_slice());
            push_run(out, RunStyle::Unstyled, nl.as_slice());
        },
        Some(FormattingInfo::Heading2) => {
            push_run(out, RunStyle::Heading2, line);
            push_run(out, RunStyle::Unstyled, nl.as_slice());
            push_run(out, RunStyle::Unstyled, nl.as_slice());
        },
        Some(FormattingInfo::Bold) => {
            push_run(out, RunStyle::Bold, line);
            push_run(out, RunStyle::Unstyled, nl.as_slice());
        },
        Some(FormattingInfo::Italic) => {
            push_run(out, RunStyle::Italic, line);
            push_run(out, RunStyle::Unstyled, nl.as_slice());
        },
        Some(FormattingInfo::Ignore) => {
            push_run(out, RunStyle::Unstyled, none.as_slice());
        },
        None => {
            push_run(out, RunStyle::Normal, line);
            push_run(out, RunStyle::Unstyled, nl.as_slice());
        },
    }
    assert(runs_view(out@) =~= start + line_runs(line@, f));
}

/// The layout of the stripped page `input` (page `page`), each line
/// formatted as `formatting_info` records, as `page_runs` says.
pub fn create_rich_page(input: &str, page: usize, formatting_info: &FormatMap) -> (runs: Vec<Run>)
    ensures
        runs_view(runs@) == page_runs(lines(input@), page, formatting_info@),
{
    let cs = chars_of(input);
    let ls = lines_of(cs.as_slice());
    let ghost lv = seqs_of(ls@);
    let mut out: Vec<Run> = Vec::new();
    let mut k: usize = 0;
    assert(lv.take(0) == Seq::<Seq<char>>::empty());
    assert(runs_view(out@) =~= Seq::<(RunStyle, Seq<char>)>::empty());
    while k < ls.len()
        invariant
            k <= ls.len(),
            lv == seqs_of(ls@),
            runs_view(out@) == page_runs(lv.take(k as int), page, formatting_info@),
        decreases ls.len() - k,
    {
        assert(lv.take(k + 1).drop_last() == lv.take(k as int));
        assert(lv.take(k + 1).last() == ls@[k as int]@);
        let f = formatting_info.get((page, k));
        line_runs_exec(&mut out, ls[k].as_slice(), f);
        k = k + 1;
    }
    assert(lv.take(ls.len() as int) == lv);
    out
}

} // verus!

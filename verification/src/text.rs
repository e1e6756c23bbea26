//! Plain-text helpers over sequences of characters: whitespace trimming,
//! substring search, replacement, line splitting and decimal numbers.
use vstd::prelude::*;

verus! {

// ---------------------------------------------------------------------
// Specifications
// ---------------------------------------------------------------------

/// Unicode `White_Space`, the property that `char::is_whitespace` tests.
pub open spec fn is_ws(c: char) -> bool {
    let u = c as u32;
    ||| 0x09 <= u <= 0x0D
    ||| u == 0x20
    ||| u == 0x85
    ||| u == 0xA0
    ||| u == 0x1680
    ||| 0x2000 <= u <= 0x200A
    ||| u == 0x2028
    ||| u == 0x2029
    ||| u == 0x202F
    ||| u == 0x205F
    ||| u == 0x3000
}

/// `s` without its leading whitespace.
pub open spec fn trim_start(s: Seq<char>) -> Seq<char>
    decreases s.len(),
{
    if s.len() > 0 && is_ws(s[0]) {
        trim_start(s.drop_first())
    } else {
        s
    }
}

/// `s` without its trailing whitespace.
pub open spec fn trim_end(s: Seq<char>) -> Seq<char>
    decreases s.len(),
{
    if s.len() > 0 && is_ws(s.last()) {
        trim_end(s.drop_last())
    } else {
        s
    }
}

/// `s` without leading and trailing whitespace (`str::trim`).
pub open spec fn trim(s: Seq<char>) -> Seq<char> {
    trim_end(trim_start(s))
}

/// `pat` occurs in `s` starting at position `i`.
pub open spec fn matches_at(s: Seq<char>, pat: Seq<char>, i: int) -> bool {
    &&& 0 <= i
    &&& i + pat.len() <= s.len()
    &&& s.subrange(i, i + pat.len()) == pat
}

/// `pat` occurs somewhere in `s` (`str::contains`).
pub open spec fn contains(s: Seq<char>, pat: Seq<char>) -> bool {
    exists|i: int| matches_at(s, pat, i)
}

/// Every non-overlapping occurrence of `pat` in `s`, found from left to
/// right, replaced by `rep` (`str::replace` with a non-empty pattern).
pub open spec fn replace(s: Seq<char>, pat: Seq<char>, rep: Seq<char>) -> Seq<char>
    recommends
        pat.len() > 0,
    decreases s.len(),
{
    if s.len() == 0 || pat.len() == 0 {
        s
    } else if matches_at(s, pat, 0) {
        rep + replace(s.subrange(pat.len() as int, s.len() as int), pat, rep)
    } else {
        seq![s[0]] + replace(s.drop_first(), pat, rep)
    }
}

/// Position of the first `c` in `s`, or `s.len()` when there is none.
pub open spec fn index_of(s: Seq<char>, c: char) -> int
    decreases s.len(),
{
    if s.len() == 0 {
        0
    } else if s[0] == c {
        0
    } else {
        1 + index_of(s.drop_first(), c)
    }
}

/// `index_of` lies between `0` and `s.len()`; below it no `c` occurs.
pub proof fn lemma_index_of_bounds(s: Seq<char>, c: char)
    ensures
        0 <= index_of(s, c) <= s.len(),
        index_of(s, c) < s.len() ==> s[index_of(s, c)] == c,
        forall|j: int| 0 <= j < index_of(s, c) ==> s[j] != c,
    decreases s.len(),
{
    if s.len() > 0 && s[0] != c {
        lemma_index_of_bounds(s.drop_first(), c);
        assert forall|j: int| 0 <= j < index_of(s, c) implies s[j] != c by {
            if j > 0 {
                assert(s[j] == s.drop_first()[j - 1]);
            }
        }
    }
}

/// A line without the carriage return that ended it.
pub open spec fn strip_cr(s: Seq<char>) -> Seq<char> {
    if s.len() > 0 && s.last() == '\r' {
        s.drop_last()
    } else {
        s
    }
}

/// The lines of `s` as `str::lines` yields them: split after each `'\n'`,
/// the `'\n'` (and a `'\r'` just before it) removed, no final empty line.
pub open spec fn lines(s: Seq<char>) -> Seq<Seq<char>>
    decreases s.len(),
{
    if s.len() == 0 {
        seq![]
    } else {
        let k = index_of(s, '\n');
        proof {
            lemma_index_of_bounds(s, '\n');
        }
        if k >= s.len() {
            seq![s]
        } else {
            seq![strip_cr(s.subrange(0, k))] + lines(s.subrange(k + 1, s.len() as int))
        }
    }
}

/// Number of times `c` occurs in `s`.
pub open spec fn count_char(s: Seq<char>, c: char) -> nat
    decreases s.len(),
{
    if s.len() == 0 {
        0
    } else {
        (if s.last() == c { 1nat } else { 0nat }) + count_char(s.drop_last(), c)
    }
}

/// `c` is an ASCII decimal digit (`char::is_digit(10)`).
pub open spec fn is_digit(c: char) -> bool {
    '0' <= c <= '9'
}

/// Every character of `s` is a decimal digit.
pub open spec fn all_digits(s: Seq<char>) -> bool {
    forall|i: int| 0 <= i < s.len() ==> is_digit(#[trigger] s[i])
}

/// The value of a string of decimal digits.
pub open spec fn digits_value(s: Seq<char>) -> int
    decreases s.len(),
{
    if s.len() == 0 {
        0
    } else {
        digits_value(s.drop_last()) * 10 + (s.last() as int - '0' as int)
    }
}

/// The digit character of `d`, for `0 <= d < 10`.
pub open spec fn digit_char(d: int) -> char {
    if d == 0 {
        '0'
    } else if d == 1 {
        '1'
    } else if d == 2 {
        '2'
    } else if d == 3 {
        '3'
    } else if d == 4 {
        '4'
    } else if d == 5 {
        '5'
    } else if d == 6 {
        '6'
    } else if d == 7 {
        '7'
    } else if d == 8 {
        '8'
    } else {
        '9'
    }
}

/// Decimal digits of a natural number, without leading zeros.
pub open spec fn nat_digits(n: nat) -> Seq<char>
    decreases n,
{
    if n < 10 {
        seq![digit_char(n as int)]
    } else {
        nat_digits(n / 10) + seq![digit_char((n % 10) as int)]
    }
}

/// Decimal representation of an integer, as `to_string` writes it.
pub open spec fn decimal(n: int) -> Seq<char> {
    if n < 0 {
        seq!['-'] + nat_digits((-n) as nat)
    } else {
        nat_digits(n as nat)
    }
}

/// What `str::parse::<i32>` gives on a string of digits: the value, when the
/// string is not empty and the value fits.
pub open spec fn parse_digits_i32(s: Seq<char>) -> Option<i32> {
    if s.len() > 0 && all_digits(s) && digits_value(s) <= i32::MAX {
        Some(digits_value(s) as i32)
    } else {
        None
    }
}

/// The character sequences held by a list of character vectors.
pub open spec fn seqs_of(v: Seq<Vec<char>>) -> Seq<Seq<char>> {
    v.map_values(|x: Vec<char>| x@)
}

/// Appending a vector appends its characters to `seqs_of`.
pub proof fn lemma_seqs_of_push(v: Seq<Vec<char>>, x: Vec<char>)
    ensures
        seqs_of(v.push(x)) == seqs_of(v).push(x@),
{
    assert(seqs_of(v.push(x)) =~= seqs_of(v).push(x@));
}

/// Concatenation of the strings of `parts`.
pub open spec fn concat(parts: Seq<Seq<char>>) -> Seq<char>
    decreases parts.len(),
{
    if parts.len() == 0 {
        seq![]
    } else {
        concat(parts.drop_last()) + parts.last()
    }
}

// ---------------------------------------------------------------------
// Lemmas
// ---------------------------------------------------------------------

/// Concatenation distributes over appending one more part.
pub proof fn lemma_concat_push(parts: Seq<Seq<char>>, p: Seq<char>)
    ensures
        concat(parts.push(p)) == concat(parts) + p,
{
    assert(parts.push(p).drop_last() == parts);
}

/// Concatenation distributes over the concatenation of two lists.
pub proof fn lemma_concat_append(a: Seq<Seq<char>>, b: Seq<Seq<char>>)
    ensures
        concat(a + b) == concat(a) + concat(b),
    decreases b.len(),
{
    if b.len() == 0 {
        assert(a + b == a);
        assert(concat(b) == Seq::<char>::empty());
    } else {
        lemma_concat_append(a, b.drop_last());
        assert((a + b).drop_last() == a + b.drop_last());
        assert(concat(a) + concat(b.drop_last()) + b.last() == concat(a) + (concat(
            b.drop_last(),
        ) + b.last()));
    }
}

/// Digit values are never negative.
pub proof fn lemma_digits_value_nonneg(s: Seq<char>)
    requires
        all_digits(s),
    ensures
        digits_value(s) >= 0,
    decreases s.len(),
{
    if s.len() > 0 {
        assert(all_digits(s.drop_last())) by {
            assert forall|i: int| 0 <= i < s.drop_last().len() implies is_digit(
                #[trigger] s.drop_last()[i],
            ) by {
                assert(s.drop_last()[i] == s[i]);
            }
        }
        lemma_digits_value_nonneg(s.drop_last());
        assert(is_digit(s[s.len() - 1]));
    }
}

/// The digits of a natural number are decimal digits and read back as it.
pub proof fn lemma_nat_digits(n: nat)
    ensures
        nat_digits(n).len() > 0,
        all_digits(nat_digits(n)),
        digits_value(nat_digits(n)) == n,
    decreases n,
{
    if n < 10 {
        let s = nat_digits(n);
        assert(s.drop_last() == Seq::<char>::empty());
        assert(digit_char(n as int) as int - '0' as int == n);
        assert(digits_value(Seq::<char>::empty()) == 0);
        assert(digits_value(s) == digits_value(s.drop_last()) * 10 + (s.last() as int - '0' as int));
    } else {
        lemma_nat_digits(n / 10);
        let s = nat_digits(n);
        let t = nat_digits(n / 10);
        assert(s.drop_last() == t);
        let d = (n % 10) as int;
        assert(s.last() == digit_char(d));
        assert(digit_char(d) as int - '0' as int == d);
        assert(n == (n / 10) * 10 + n % 10);
        assert(digits_value(s) == digits_value(t) * 10 + (s.last() as int - '0' as int));
        assert forall|i: int| 0 <= i < s.len() implies is_digit(#[trigger] s[i]) by {
            if i < t.len() {
                assert(s[i] == t[i]);
            }
        }
    }
}

/// Reading back the decimal of a non-negative `i32` gives the number.
pub proof fn lemma_decimal_parse_roundtrip(n: i32)
    requires
        n >= 0,
    ensures
        parse_digits_i32(decimal(n as int)) == Some(n),
{
    lemma_nat_digits(n as nat);
}

// ---------------------------------------------------------------------
// Executable functions
// ---------------------------------------------------------------------

/// The characters of `s`, in order.
pub fn chars_of(s: &str) -> (v: Vec<char>)
    ensures
        v@ == s@,
{
    let mut v: Vec<char> = Vec::new();
    for c in it: s.chars()
        invariant
            v@ == it.seq().take(it.index() as int),
            it.seq() == s@,
    {
        v.push(c);
    }
    v
}

/// A `String` holding the characters of `v`.
#[verifier::external_body]
pub fn string_of(v: &[char]) -> (s: String)
    ensures
        s@ == v@,
{
    v.iter().collect::<String>()
}

/// Exec test for `is_ws`.
pub fn is_whitespace(c: char) -> (b: bool)
    ensures
        b == is_ws(c),
{
    let u = c as u32;
    (0x09 <= u && u <= 0x0D) || u == 0x20 || u == 0x85 || u == 0xA0 || u == 0x1680 || (0x2000
        <= u && u <= 0x200A) || u == 0x2028 || u == 0x2029 || u == 0x202F || u == 0x205F || u
        == 0x3000
}

proof fn lemma_trim_start_skip(s: Seq<char>, i: int)
    requires
        0 <= i <= s.len(),
        forall|j: int| 0 <= j < i ==> is_ws(#[trigger] s[j]),
    ensures
        trim_start(s) == trim_start(s.subrange(i, s.len() as int)),
    decreases i,
{
    if i > 0 {
        assert(is_ws(s[0]));
        let t = s.drop_first();
        assert forall|j: int| 0 <= j < i - 1 implies is_ws(#[trigger] t[j]) by {
            assert(t[j] == s[j + 1]);
        }
        lemma_trim_start_skip(t, i - 1);
        assert(t.subrange(i - 1, t.len() as int) == s.subrange(i, s.len() as int));
    } else {
        assert(s.subrange(0, s.len() as int) == s);
    }
}

proof fn lemma_trim_end_cut(s: Seq<char>, k: int)
    requires
        0 <= k <= s.len(),
        forall|j: int| k <= j < s.len() ==> is_ws(#[trigger] s[j]),
    ensures
        trim_end(s) == trim_end(s.subrange(0, k)),
    decreases s.len() - k,
{
    if k < s.len() {
        assert(is_ws(s.last()));
        let t = s.drop_last();
        assert forall|j: int| k <= j < t.len() implies is_ws(#[trigger] t[j]) by {
            assert(t[j] == s[j]);
        }
        lemma_trim_end_cut(t, k);
        assert(t.subrange(0, k) == s.subrange(0, k));
    } else {
        assert(s.subrange(0, k) == s);
    }
}

/// `s` without leading and trailing whitespace.
pub fn trim_chars(s: &[char]) -> (r: Vec<char>)
    ensures
        r@ == trim(s@),
{
    let n = s.len();
    let mut i: usize = 0;
    while i < n && is_whitespace(s[i])
        invariant
            i <= n,
            n == s@.len(),
            forall|j: int| 0 <= j < i ==> is_ws(#[trigger] s@[j]),
        decreases n - i,
    {
        i = i + 1;
    }
    proof {
        lemma_trim_start_skip(s@, i as int);
    }
    let ghost rest = s@.subrange(i as int, n as int);
    assert(i == n || !is_ws(rest[0]));
    assert(trim_start(rest) == rest);
    let mut k: usize = n;
    while k > i && is_whitespace(s[k - 1])
        invariant
            i <= k <= n,
            n == s@.len(),
            forall|j: int| k <= j < n ==> is_ws(#[trigger] s@[j]),
        decreases k,
    {
        k = k - 1;
    }
    proof {
        assert forall|j: int| k - i <= j < rest.len() implies is_ws(#[trigger] rest[j]) by {
            assert(rest[j] == s@[j + i]);
        }
        lemma_trim_end_cut(rest, k - i);
        let t = rest.subrange(0, k - i);
        assert(t == s@.subrange(i as int, k as int));
        if t.len() > 0 {
            assert(t.last() == s@[k - 1]);
        }
        assert(trim_end(t) == t);
    }
    let mut r: Vec<char> = Vec::new();
    let mut j: usize = i;
    while j < k
        invariant
            i <= j <= k <= n,
            n == s@.len(),
            r@ == s@.subrange(i as int, j as int),
        decreases k - j,
    {
        r.push(s[j]);
        j = j + 1;
        assert(r@ == s@.subrange(i as int, j as int));
    }
    r
}

/// `pat` occurs in `s` at position `i`.
pub fn matches_at_exec(s: &[char], pat: &[char], i: usize) -> (b: bool)
    ensures
        b == matches_at(s@, pat@, i as int),
{
    if pat.len() > s.len() || i > s.len() - pat.len() {
        return false;
    }
    let mut j: usize = 0;
    while j < pat.len()
        invariant
            j <= pat.len(),
            i + pat.len() <= s.len(),
            forall|k: int| 0 <= k < j ==> s@[i + k] == pat@[k],
        decreases pat.len() - j,
    {
        if s[i + j] != pat[j] {
            assert(s@.subrange(i as int, i + pat.len())[j as int] != pat@[j as int]);
            return false;
        }
        j = j + 1;
    }
    assert(s@.subrange(i as int, i + pat.len()) == pat@);
    true
}

/// `pat` occurs somewhere in `s`.
pub fn contains_chars(s: &[char], pat: &[char]) -> (b: bool)
    ensures
        b == contains(s@, pat@),
{
    if pat.len() > s.len() {
        assert forall|i: int| !matches_at(s@, pat@, i) by {}
        return false;
    }
    let last = s.len() - pat.len();
    let mut i: usize = 0;
    while i <= last
        invariant
            last + pat.len() == s.len(),
            forall|k: int| 0 <= k < i ==> !matches_at(s@, pat@, k),
        decreases last + 1 - i,
    {
        if matches_at_exec(s, pat, i) {
            return true;
        }
        if i == last {
            assert forall|k: int| !matches_at(s@, pat@, k) by {
                if 0 <= k <= last {
                    assert(k < i || k == i);
                }
            }
            return false;
        }
        i = i + 1;
    }
    false
}

proof fn lemma_replace_step_match(s: Seq<char>, pat: Seq<char>, rep: Seq<char>, i: int)
    requires
        pat.len() > 0,
        matches_at(s, pat, i),
    ensures
        replace(s.subrange(i, s.len() as int), pat, rep) == rep + replace(
            s.subrange(i + pat.len(), s.len() as int),
            pat,
            rep,
        ),
{
    let t = s.subrange(i, s.len() as int);
    assert(t.subrange(0, pat.len() as int) == s.subrange(i, i + pat.len()));
    assert(t.subrange(pat.len() as int, t.len() as int) == s.subrange(
        i + pat.len(),
        s.len() as int,
    ));
}

proof fn lemma_replace_step_no_match(s: Seq<char>, pat: Seq<char>, rep: Seq<char>, i: int)
    requires
        pat.len() > 0,
        0 <= i < s.len(),
        !matches_at(s, pat, i),
    ensures
        replace(s.subrange(i, s.len() as int), pat, rep) == seq![s[i]] + replace(
            s.subrange(i + 1, s.len() as int),
            pat,
            rep,
        ),
{
    let t = s.subrange(i, s.len() as int);
    if i + pat.len() <= s.len() {
        assert(t.subrange(0, pat.len() as int) == s.subrange(i, i + pat.len()));
    }
    assert(t.drop_first() == s.subrange(i + 1, s.len() as int));
}

/// Every occurrence of the non-empty `pat` in `s`, left to right and without
/// overlap, replaced by `rep`.
pub fn replace_chars(s: &[char], pat: &[char], rep: &[char]) -> (r: Vec<char>)
    requires
        pat@.len() > 0,
    ensures
        r@ == replace(s@, pat@, rep@),
{
    let mut out: Vec<char> = Vec::new();
    let mut i: usize = 0;
    assert(s@.subrange(0, s@.len() as int) == s@);
    while i < s.len()
        invariant
            i <= s.len(),
            pat@.len() > 0,
            out@ + replace(s@.subrange(i as int, s@.len() as int), pat@, rep@) == replace(
                s@,
                pat@,
                rep@,
            ),
        decreases s.len() - i,
    {
        if matches_at_exec(s, pat, i) {
            proof {
                lemma_replace_step_match(s@, pat@, rep@, i as int);
            }
            let ghost before = out@;
            let mut k: usize = 0;
            while k < rep.len()
                invariant
                    k <= rep.len(),
                    out@ == before + rep@.subrange(0, k as int),
                decreases rep.len() - k,
            {
                out.push(rep[k]);
                k = k + 1;
                assert(out@ == before + rep@.subrange(0, k as int));
            }
            assert(rep@.subrange(0, rep@.len() as int) == rep@);
            assert(before + (rep@ + replace(
                s@.subrange(i + pat@.len(), s@.len() as int),
                pat@,
                rep@,
            )) == before + rep@ + replace(
                s@.subrange(i + pat@.len(), s@.len() as int),
                pat@,
                rep@,
            ));
            i = i + pat.len();
        } else {
            proof {
                lemma_replace_step_no_match(s@, pat@, rep@, i as int);
            }
            let ghost before = out@;
            out.push(s[i]);
            assert(before + (seq![s@[i as int]] + replace(
                s@.subrange(i + 1, s@.len() as int),
                pat@,
                rep@,
            )) == out@ + replace(s@.subrange(i + 1, s@.len() as int), pat@, rep@));
            i = i + 1;
        }
    }
    assert(s@.subrange(i as int, s@.len() as int) == Seq::<char>::empty());
    assert(out@ + Seq::<char>::empty() == out@);
    out
}


/// `index_of(t, c)` is the `k` below which no `c` occurs and at which `c`
/// occurs (or the end).
pub proof fn lemma_index_of_exact(t: Seq<char>, c: char, k: int)
    requires
        0 <= k <= t.len(),
        forall|j: int| 0 <= j < k ==> t[j] != c,
        k == t.len() || t[k] == c,
    ensures
        index_of(t, c) == k,
    decreases k,
{
    if k > 0 {
        let u = t.drop_first();
        assert forall|j: int| 0 <= j < k - 1 implies u[j] != c by {
            assert(u[j] == t[j + 1]);
        }
        if k < t.len() {
            assert(u[k - 1] == t[k]);
        }
        lemma_index_of_exact(u, c, k - 1);
    }
}

/// Every character of `s` is a decimal digit.
pub fn all_digits_exec(s: &[char]) -> (b: bool)
    ensures
        b == all_digits(s@),
{
    let mut i: usize = 0;
    while i < s.len()
        invariant
            i <= s.len(),
            forall|j: int| 0 <= j < i ==> is_digit(#[trigger] s@[j]),
        decreases s.len() - i,
    {
        if !('0' <= s[i] && s[i] <= '9') {
            return false;
        }
        i = i + 1;
    }
    true
}

/// Parses a string of decimal digits as `str::parse::<i32>` does: `None`
/// when it is empty or its value does not fit in an `i32`.
pub fn parse_digits(s: &[char]) -> (r: Option<i32>)
    requires
        all_digits(s@),
    ensures
        r == parse_digits_i32(s@),
{
    if s.len() == 0 {
        return None;
    }
    let mut v: u64 = 0;
    let mut overflow = false;
    let mut i: usize = 0;
    while i < s.len()
        invariant
            i <= s.len(),
            all_digits(s@),
            !overflow ==> v == digits_value(s@.subrange(0, i as int)) && v <= i32::MAX,
            overflow ==> digits_value(s@.subrange(0, i as int)) > i32::MAX,
        decreases s.len() - i,
    {
        let ghost pre = s@.subrange(0, i as int);
        let ghost next = s@.subrange(0, i + 1);
        assert(next.drop_last() == pre);
        assert(is_digit(s@[i as int]));
        assert(digits_value(next) == digits_value(pre) * 10 + (s@[i as int] as int - '0' as int));
        if !overflow {
            let d = (s[i] as u32 - '0' as u32) as u64;
            v = v * 10 + d;
            if v > 0x7fff_ffff {
                overflow = true;
            }
        } else {
            proof {
                assert forall|j: int| 0 <= j < pre.len() implies is_digit(#[trigger] pre[j]) by {
                    assert(pre[j] == s@[j]);
                }
                lemma_digits_value_nonneg(pre);
            }
        }
        i = i + 1;
    }
    assert(s@.subrange(0, s@.len() as int) == s@);
    if overflow {
        None
    } else {
        Some(v as i32)
    }
}

/// The character of the decimal digit `d`.
pub fn digit_char_exec(d: u64) -> (c: char)
    requires
        d < 10,
    ensures
        c == digit_char(d as int),
{
    if d == 0 {
        '0'
    } else if d == 1 {
        '1'
    } else if d == 2 {
        '2'
    } else if d == 3 {
        '3'
    } else if d == 4 {
        '4'
    } else if d == 5 {
        '5'
    } else if d == 6 {
        '6'
    } else if d == 7 {
        '7'
    } else if d == 8 {
        '8'
    } else {
        '9'
    }
}

fn push_nat_digits(n: u64, out: &mut Vec<char>)
    ensures
        final(out)@ == old(out)@ + nat_digits(n as nat),
    decreases n,
{
    if n >= 10 {
        push_nat_digits(n / 10, out);
    }
    let c = digit_char_exec(n % 10);
    out.push(c);
}

/// The decimal representation of `n` (`i32::to_string`).
pub fn decimal_string(n: i32) -> (s: String)
    ensures
        s@ == decimal(n as int),
{
    let mut v: Vec<char> = Vec::new();
    if n < 0 {
        v.push('-');
        let m: u64 = (0 - (n as i64)) as u64;
        push_nat_digits(m, &mut v);
    } else {
        push_nat_digits(n as u64, &mut v);
    }
    string_of(v.as_slice())
}

/// The lines of `s`, as `str::lines` splits them.
pub fn lines_of(s: &[char]) -> (r: Vec<Vec<char>>)
    ensures
        seqs_of(r@) == lines(s@),
{
    let n = s.len();
    let mut out: Vec<Vec<char>> = Vec::new();
    assert(seqs_of(out@) =~= Seq::<Seq<char>>::empty());
    assert(s@.subrange(0, n as int) == s@);
    let mut start: usize = 0;
    let mut cur: Vec<char> = Vec::new();
    let mut i: usize = 0;
    while i < n
        invariant
            start <= i <= n,
            n == s@.len(),
            cur@ == s@.subrange(start as int, i as int),
            forall|j: int| start <= j < i ==> s@[j] != '\n',
            seqs_of(out@) + lines(s@.subrange(start as int, n as int)) == lines(s@),
        decreases n - i,
    {
        if s[i] == '\n' {
            let ghost t = s@.subrange(start as int, n as int);
            proof {
                assert forall|j: int| 0 <= j < i - start implies t[j] != '\n' by {
                    assert(t[j] == s@[start + j]);
                }
                lemma_index_of_exact(t, '\n', i - start);
                assert(t.subrange(0, i - start) == cur@);
                assert(t.subrange(i - start + 1, t.len() as int) == s@.subrange(
                    i + 1,
                    n as int,
                ));
            }
            let mut line = cur;
            if line.len() > 0 && line[line.len() - 1] == '\r' {
                line.pop();
            }
            let ghost before = seqs_of(out@);
            let ghost old_out = out@;
            out.push(line);
            proof {
                lemma_seqs_of_push(old_out, line);
                assert(seqs_of(out@) == before.push(strip_cr(cur@)));
                assert(before.push(strip_cr(cur@)) + lines(s@.subrange(i + 1, n as int))
                    == before + (seq![strip_cr(cur@)] + lines(s@.subrange(i + 1, n as int))));
            }
            cur = Vec::new();
            start = i + 1;
        } else {
            cur.push(s[i]);
        }
        i = i + 1;
        assert(cur@ == s@.subrange(start as int, i as int));
    }
    let ghost t = s@.subrange(start as int, n as int);
    if start < n {
        proof {
            assert forall|j: int| 0 <= j < t.len() implies t[j] != '\n' by {
                assert(t[j] == s@[start + j]);
            }
            lemma_index_of_exact(t, '\n', t.len() as int);
        }
        let ghost before = seqs_of(out@);
        let ghost old_out = out@;
        out.push(cur);
        proof {
            lemma_seqs_of_push(old_out, cur);
        }
        assert(seqs_of(out@) == before + lines(t));
    } else {
        assert(t.len() == 0);
        assert(seqs_of(out@) + lines(t) == seqs_of(out@));
    }
    out
}

/// Number of times `c` occurs in `s`.
pub fn count_char_exec(s: &[char], c: char) -> (k: usize)
    ensures
        k == count_char(s@, c),
        k <= s@.len(),
{
    let mut k: usize = 0;
    let mut i: usize = 0;
    while i < s.len()
        invariant
            i <= s.len(),
            k == count_char(s@.subrange(0, i as int), c),
            k <= i,
        decreases s.len() - i,
    {
        assert(s@.subrange(0, i + 1).drop_last() == s@.subrange(0, i as int));
        if s[i] == c {
            k = k + 1;
        }
        i = i + 1;
    }
    assert(s@.subrange(0, s@.len() as int) == s@);
    k
}


/// Appends the characters of `s` to `v`.
pub fn extend_chars(v: &mut Vec<char>, s: &[char])
    ensures
        final(v)@ == old(v)@ + s@,
{
    let ghost start = v@;
    let mut i: usize = 0;
    while i < s.len()
        invariant
            i <= s.len(),
            v@ == start + s@.subrange(0, i as int),
        decreases s.len() - i,
    {
        v.push(s[i]);
        i = i + 1;
        assert(v@ == start + s@.subrange(0, i as int));
    }
    assert(s@.subrange(0, s@.len() as int) == s@);
}

/// Appends the characters of `s` to `v`.
pub fn extend_str(v: &mut Vec<char>, s: &str)
    ensures
        final(v)@ == old(v)@ + s@,
{
    let cs = chars_of(s);
    extend_chars(v, cs.as_slice());
}

/// The two characters `"\n\n"`.
pub open spec fn blank_line() -> Seq<char> {
    seq!['\n', '\n']
}

/// The one character `"\n"`.
pub open spec fn newline() -> Seq<char> {
    seq!['\n']
}

/// `a` and `b` hold the same characters.
pub fn str_eq(a: &str, b: &str) -> (r: bool)
    ensures
        r == (a@ == b@),
{
    let x = chars_of(a);
    let y = chars_of(b);
    if x.len() != y.len() {
        return false;
    }
    let mut i: usize = 0;
    while i < x.len()
        invariant
            i <= x.len(),
            x.len() == y.len(),
            x@ == a@,
            y@ == b@,
            forall|j: int| 0 <= j < i ==> x@[j] == y@[j],
        decreases x.len() - i,
    {
        if x[i] != y[i] {
            assert(a@[i as int] != b@[i as int]);
            return false;
        }
        i = i + 1;
    }
    assert(x@ == y@);
    true
}


/// What `str::parse::<i32>` gives: an optional sign, then at least one
/// digit, the value fitting in an `i32`.
pub open spec fn parse_i32(s: Seq<char>) -> Option<i32> {
    if s.len() > 0 && s[0] == '-' {
        let d = s.drop_first();
        if d.len() > 0 && all_digits(d) && digits_value(d) <= 0x8000_0000 {
            Some((-digits_value(d)) as i32)
        } else {
            None
        }
    } else if s.len() > 0 && s[0] == '+' {
        parse_digits_i32(s.drop_first())
    } else {
        parse_digits_i32(s)
    }
}

/// The value of the digits `s[from..]` when they are at least one, all
/// digits, and their value is at most `limit`.
fn digits_up_to(s: &[char], from: usize, limit: u64) -> (r: Option<u64>)
    requires
        from <= s.len(),
        limit <= 0x1_0000_0000,
    ensures
        match r {
            Some(v) => {
                let d = s@.subrange(from as int, s@.len() as int);
                &&& d.len() > 0
                &&& all_digits(d)
                &&& v == digits_value(d)
                &&& v <= limit
            },
            None => {
                let d = s@.subrange(from as int, s@.len() as int);
                !(d.len() > 0 && all_digits(d) && digits_value(d) <= limit)
            },
        },
{
    let ghost d = s@.subrange(from as int, s@.len() as int);
    if from == s.len() {
        return None;
    }
    let mut v: u64 = 0;
    let mut over = false;
    let mut i: usize = from;
    assert(d.subrange(0, 0) == Seq::<char>::empty());
    while i < s.len()
        invariant
            from <= i <= s.len(),
            limit <= 0x1_0000_0000,
            d == s@.subrange(from as int, s@.len() as int),
            all_digits(d.subrange(0, i - from)),
            !over ==> v == digits_value(d.subrange(0, i - from)) && v <= limit,
            over ==> digits_value(d.subrange(0, i - from)) > limit,
        decreases s.len() - i,
    {
        let ghost k = i - from;
        let ghost pre = d.subrange(0, k);
        let ghost next = d.subrange(0, k + 1);
        assert(next.drop_last() == pre);
        assert(next.last() == s@[i as int]);
        if !('0' <= s[i] && s[i] <= '9') {
            assert(!is_digit(d[k]));
            return None;
        }
        assert(all_digits(next)) by {
            assert forall|j: int| 0 <= j < next.len() implies is_digit(#[trigger] next[j]) by {
                if j < k {
                    assert(next[j] == pre[j]);
                }
            }
        }
        if !over {
            let dig = (s[i] as u32 - '0' as u32) as u64;
            v = v * 10 + dig;
            if v > limit {
                over = true;
            }
        } else {
            proof {
                lemma_digits_value_nonneg(pre);
            }
        }
        i = i + 1;
    }
    assert(d.subrange(0, d.len() as int) == d);
    if over {
        None
    } else {
        Some(v)
    }
}

/// Parses `s` as `str::parse::<i32>` does.
pub fn parse_i32_exec(s: &[char]) -> (r: Option<i32>)
    ensures
        r == parse_i32(s@),
{
    if s.len() > 0 && s[0] == '-' {
        assert(s@.subrange(1, s@.len() as int) == s@.drop_first());
        match digits_up_to(s, 1, 0x8000_0000) {
            Some(v) => Some((0 - (v as i64)) as i32),
            None => None,
        }
    } else if s.len() > 0 && s[0] == '+' {
        assert(s@.subrange(1, s@.len() as int) == s@.drop_first());
        match digits_up_to(s, 1, 0x7fff_ffff) {
            Some(v) => Some(v as i32),
            None => None,
        }
    } else {
        assert(s@.subrange(0, s@.len() as int) == s@);
        match digits_up_to(s, 0, 0x7fff_ffff) {
            Some(v) => Some(v as i32),
            None => None,
        }
    }
}

} // verus!

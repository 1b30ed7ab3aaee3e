//! Character-level text handling shared by the whole library.
//!
//! Text is processed as sequences of Unicode scalar values (`Seq<char>`),
//! which is also how Verus views `str` and `String`.
use vstd::prelude::*;

verus! {

broadcast use vstd::string::group_string_axioms;

// ---------------------------------------------------------------------------
// std functions that vstd does not specify
// ---------------------------------------------------------------------------

/// The Unicode `White_Space` property, which is what `char::is_whitespace`
/// tests and what the regex class `\s` matches: U+0009..U+000D, the space,
/// U+0085, U+00A0, U+1680, U+2000..U+200A, U+2028, U+2029, U+202F, U+205F
/// and U+3000.
pub open spec fn spec_is_whitespace(c: char) -> bool {
    let n = c as u32;
    ||| 0x9 <= n <= 0xD
    ||| n == 0x20
    ||| n == 0x85
    ||| n == 0xA0
    ||| n == 0x1680
    ||| 0x2000 <= n <= 0x200A
    ||| n == 0x2028
    ||| n == 0x2029
    ||| n == 0x202F
    ||| n == 0x205F
    ||| n == 0x3000
}

/// `char::is_whitespace`: whether the character has the Unicode
/// `White_Space` property (see [`spec_is_whitespace`]).
pub fn is_whitespace(c: char) -> (r: bool)
    ensures
        r == spec_is_whitespace(c),
{
    let n = c as u32;
    (0x9 <= n && n <= 0xD) || n == 0x20 || n == 0x85 || n == 0xA0 || n == 0x1680
        || (0x2000 <= n && n <= 0x200A) || n == 0x2028 || n == 0x2029 || n == 0x202F
        || n == 0x205F || n == 0x3000
}

/// Whether every character of a text is ASCII.
pub open spec fn all_ascii(s: Seq<char>) -> bool {
    forall|i: int| 0 <= i < s.len() ==> (#[trigger] s[i] as u32) < 128
}

/// A character with an ASCII upper-case letter made lower case.
pub open spec fn ascii_lower_char(c: char) -> char {
    if 'A' <= c && c <= 'Z' {
        ((c as u32) + 32) as char
    } else {
        c
    }
}

/// A character with an ASCII lower-case letter made upper case.
pub open spec fn ascii_upper_char(c: char) -> char {
    if 'a' <= c && c <= 'z' {
        ((c as u32) - 32) as char
    } else {
        c
    }
}

/// What `str::to_lowercase` returns for a text.
pub uninterp spec fn spec_to_lowercase(s: Seq<char>) -> Seq<char>;

/// Calls `str::to_lowercase`. The result is named; for an ASCII text it is
/// the text with `A`..`Z` made `a`..`z`, as the Unicode case mappings give.
/// Beyond ASCII (where one character may become several, and a final sigma
/// depends on its neighbours) nothing more is claimed.
#[verifier::external_body]
pub(crate) fn to_lowercase(s: &str) -> (r: String)
    ensures
        r@ == spec_to_lowercase(s@),
        all_ascii(s@) ==> r@ == s@.map_values(|c: char| ascii_lower_char(c)),
{
    s.to_lowercase()
}

/// What `str::to_uppercase` returns for a text.
pub uninterp spec fn spec_to_uppercase(s: Seq<char>) -> Seq<char>;

/// Calls `str::to_uppercase`. The result is named; for an ASCII text it is
/// the text with `a`..`z` made `A`..`Z`, as the Unicode case mappings give.
/// Beyond ASCII nothing more is claimed.
#[verifier::external_body]
pub(crate) fn to_uppercase(s: &str) -> (r: String)
    ensures
        r@ == spec_to_uppercase(s@),
        all_ascii(s@) ==> r@ == s@.map_values(|c: char| ascii_upper_char(c)),
{
    s.to_uppercase()
}

/// Calls `String::push`: the character is appended.
#[verifier::external_body]
pub(crate) fn push_char(s: &mut String, c: char)
    ensures
        final(s)@ == old(s)@.push(c),
{
    s.push(c)
}

// ---------------------------------------------------------------------------
// conversions
// ---------------------------------------------------------------------------

/// The characters of a text.
pub fn chars_of(s: &str) -> (v: Vec<char>)
    ensures
        v@ == s@,
{
    let mut v: Vec<char> = Vec::new();
    for c in it: s.chars()
        invariant
            v@ == it.seq().take(it.index() as int),
    {
        v.push(c);
    }
    v
}

/// Appends `s[from..to]` to `out`.
pub fn push_range(out: &mut String, s: &[char], from: usize, to: usize)
    requires
        from <= to <= s@.len(),
    ensures
        final(out)@ == old(out)@ + s@.subrange(from as int, to as int),
{
    let mut i = from;
    while i < to
        invariant
            from <= i <= to <= s@.len(),
            out@ == old(out)@ + s@.subrange(from as int, i as int),
        decreases to - i,
    {
        push_char(out, s[i]);
        i = i + 1;
        assert(s@.subrange(from as int, i as int) == s@.subrange(from as int, i - 1).push(
            s@[i - 1],
        ));
    }
}

/// The text made of `s[from..to]`.
pub fn string_of_range(s: &[char], from: usize, to: usize) -> (r: String)
    requires
        from <= to <= s@.len(),
    ensures
        r@ == s@.subrange(from as int, to as int),
{
    let mut out = String::new();
    push_range(&mut out, s, 0, 0);
    push_range(&mut out, s, from, to);
    out
}

/// The text made of all of `s`.
pub fn string_of(s: &[char]) -> (r: String)
    ensures
        r@ == s@,
{
    let r = string_of_range(s, 0, s.len());
    assert(s@.subrange(0, s@.len() as int) == s@);
    r
}

/// Whether two character sequences are equal.
pub fn chars_eq(a: &[char], b: &[char]) -> (r: bool)
    ensures
        r == (a@ == b@),
{
    if a.len() != b.len() {
        return false;
    }
    let mut i: usize = 0;
    while i < a.len()
        invariant
            a@.len() == b@.len(),
            0 <= i <= a@.len(),
            forall|j: int| 0 <= j < i ==> a@[j] == b@[j],
        decreases a.len() - i,
    {
        if a[i] != b[i] {
            return false;
        }
        i = i + 1;
    }
    assert(a@ =~= b@);
    true
}

/// Whether a text equals a given character sequence.
pub fn str_eq(a: &str, b: &str) -> (r: bool)
    ensures
        r == (a@ == b@),
{
    let x = chars_of(a);
    let y = chars_of(b);
    chars_eq(x.as_slice(), y.as_slice())
}

// ---------------------------------------------------------------------------
// whitespace
// ---------------------------------------------------------------------------

/// Every character of `s` is whitespace (so `s.trim()` is empty).
pub open spec fn is_blank(s: Seq<char>) -> bool {
    forall|i: int| 0 <= i < s.len() ==> spec_is_whitespace(#[trigger] s[i])
}

/// `s` with its leading whitespace removed (`str::trim_start`).
pub open spec fn trim_start(s: Seq<char>) -> Seq<char>
    decreases s.len(),
{
    if s.len() > 0 && spec_is_whitespace(s[0]) {
        trim_start(s.drop_first())
    } else {
        s
    }
}

/// `s` with its trailing whitespace removed (`str::trim_end`).
pub open spec fn trim_end(s: Seq<char>) -> Seq<char>
    decreases s.len(),
{
    if s.len() > 0 && spec_is_whitespace(s.last()) {
        trim_end(s.drop_last())
    } else {
        s
    }
}

/// `s` with leading and trailing whitespace removed (`str::trim`).
pub open spec fn trim(s: Seq<char>) -> Seq<char> {
    trim_end(trim_start(s))
}

/// Whether `s` is blank, that is whether `s.trim()` is empty.
pub fn blank(s: &[char]) -> (r: bool)
    ensures
        r == is_blank(s@),
        r == (trim(s@).len() == 0),
{
    proof {
        lemma_blank_trim(s@);
    }
    let mut i: usize = 0;
    while i < s.len()
        invariant
            0 <= i <= s@.len(),
            forall|j: int| 0 <= j < i ==> spec_is_whitespace(#[trigger] s@[j]),
        decreases s.len() - i,
    {
        if !is_whitespace(s[i]) {
            assert(!spec_is_whitespace(s@[i as int]));
            assert(!is_blank(s@));
            proof {
                lemma_blank_trim(s@);
            }
            return false;
        }
        i = i + 1;
    }
    true
}

/// Whether a text is blank.
pub fn str_blank(s: &str) -> (r: bool)
    ensures
        r == is_blank(s@),
        r == (trim(s@).len() == 0),
{
    let v = chars_of(s);
    blank(v.as_slice())
}

proof fn lemma_trim_start_blank(s: Seq<char>)
    ensures
        (trim_start(s).len() == 0) == is_blank(s),
        trim_start(s).len() > 0 ==> !spec_is_whitespace(trim_start(s)[0]),
    decreases s.len(),
{
    if s.len() > 0 && spec_is_whitespace(s[0]) {
        lemma_trim_start_blank(s.drop_first());
        if is_blank(s.drop_first()) {
            assert forall|i: int| 0 <= i < s.len() implies spec_is_whitespace(#[trigger] s[i]) by {
                if i > 0 {
                    assert(s[i] == s.drop_first()[i - 1]);
                }
            }
        } else {
            let j = choose|j: int|
                0 <= j < s.drop_first().len() && !spec_is_whitespace(#[trigger] s.drop_first()[j]);
            assert(s[j + 1] == s.drop_first()[j]);
        }
    } else if s.len() > 0 {
        assert(!spec_is_whitespace(s[0]));
    }
}

proof fn lemma_trim_end_len(s: Seq<char>)
    ensures
        s.len() > 0 && !spec_is_whitespace(s[0]) ==> trim_end(s).len() > 0,
    decreases s.len(),
{
    if s.len() > 0 && spec_is_whitespace(s.last()) {
        lemma_trim_end_len(s.drop_last());
        if s.len() > 0 && !spec_is_whitespace(s[0]) {
            assert(s.len() > 1);
            assert(s.drop_last()[0] == s[0]);
        }
    }
}

pub proof fn lemma_blank_trim(s: Seq<char>)
    ensures
        is_blank(s) == (trim(s).len() == 0),
{
    lemma_trim_start_blank(s);
    lemma_trim_end_len(trim_start(s));
    if trim_start(s).len() == 0 {
        assert(trim_end(trim_start(s)) == trim_start(s));
    }
}

/// The bounds of the trimmed part of `s`.
pub fn trim_bounds(s: &[char]) -> (r: (usize, usize))
    ensures
        r.0 <= r.1 <= s@.len(),
        s@.subrange(r.0 as int, r.1 as int) == trim(s@),
{
    let mut a: usize = 0;
    assert(s@.skip(0) == s@);
    while a < s.len() && is_whitespace(s[a])
        invariant
            0 <= a <= s@.len(),
            trim_start(s@) == trim_start(s@.skip(a as int)),
        decreases s.len() - a,
    {
        assert(s@.skip(a as int).drop_first() == s@.skip(a + 1));
        a = a + 1;
    }
    assert(trim_start(s@) == s@.skip(a as int));
    let mut b: usize = s.len();
    while b > a && is_whitespace(s[b - 1])
        invariant
            a <= b <= s@.len(),
            trim_end(s@.skip(a as int)) == trim_end(s@.subrange(a as int, b as int)),
        decreases b,
    {
        assert(s@.subrange(a as int, b as int).drop_last() == s@.subrange(a as int, b - 1));
        b = b - 1;
    }
    assert(s@.skip(a as int) == s@.subrange(a as int, s@.len() as int));
    (a, b)
}

/// `str::trim` on a character slice, as an owned text.
pub fn trimmed(s: &[char]) -> (r: String)
    ensures
        r@ == trim(s@),
{
    let (a, b) = trim_bounds(s);
    string_of_range(s, a, b)
}

/// `str::trim` on a text.
pub fn str_trimmed(s: &str) -> (r: String)
    ensures
        r@ == trim(s@),
{
    let v = chars_of(s);
    trimmed(v.as_slice())
}

/// The words of `s` (its maximal runs of non-whitespace characters) joined by
/// single spaces, which is `s.split_whitespace().collect::<Vec<_>>().join(" ")`.
/// Defined over prefixes: a non-whitespace character either continues the word
/// that the previous character belongs to, or starts a new word, which is
/// separated by one space from the output so far when that output is not empty.
pub open spec fn collapse_whitespace(s: Seq<char>) -> Seq<char>
    decreases s.len(),
{
    if s.len() == 0 {
        Seq::empty()
    } else {
        let p = collapse_whitespace(s.drop_last());
        let c = s.last();
        if spec_is_whitespace(c) {
            p
        } else if s.len() >= 2 && !spec_is_whitespace(s[s.len() - 2]) {
            p.push(c)
        } else if p.len() == 0 {
            p.push(c)
        } else {
            p.push(' ').push(c)
        }
    }
}

/// `s.split_whitespace().collect::<Vec<_>>().join(" ")`.
pub fn collapse_whitespace_exec(s: &[char]) -> (r: String)
    ensures
        r@ == collapse_whitespace(s@),
{
    let mut out = String::new();
    let mut i: usize = 0;
    let mut prev_white = true;
    let mut any = false;
    while i < s.len()
        invariant
            0 <= i <= s@.len(),
            out@ == collapse_whitespace(s@.take(i as int)),
            any == (out@.len() > 0),
            prev_white == (i == 0 || spec_is_whitespace(s@[i - 1])),
        decreases s.len() - i,
    {
        let c = s[i];
        let w = is_whitespace(c);
        assert(s@.take(i + 1).drop_last() == s@.take(i as int));
        if !w {
            if prev_white && any {
                push_char(&mut out, ' ');
            }
            push_char(&mut out, c);
            any = true;
        }
        prev_white = w;
        i = i + 1;
    }
    assert(s@.take(s@.len() as int) == s@);
    out
}

// ---------------------------------------------------------------------------
// splitting on a character
// ---------------------------------------------------------------------------

/// The index of the first occurrence of `c` in `s`, or `s.len()`.
pub open spec fn first_index_of(s: Seq<char>, c: char) -> int
    decreases s.len(),
{
    if s.len() == 0 {
        0
    } else if s[0] == c {
        0
    } else {
        1 + first_index_of(s.drop_first(), c)
    }
}

pub proof fn lemma_first_index_of(s: Seq<char>, c: char)
    ensures
        0 <= first_index_of(s, c) <= s.len(),
        forall|j: int| 0 <= j < first_index_of(s, c) ==> s[j] != c,
        first_index_of(s, c) < s.len() ==> s[first_index_of(s, c)] == c,
    decreases s.len(),
{
    if s.len() > 0 && s[0] != c {
        lemma_first_index_of(s.drop_first(), c);
        assert forall|j: int| 0 <= j < first_index_of(s, c) implies s[j] != c by {
            if j > 0 {
                assert(s[j] == s.drop_first()[j - 1]);
            }
        }
    }
}

/// The pieces of `s` between occurrences of `c` (`str::split` with a
/// character): always at least one piece.
pub open spec fn split_on(s: Seq<char>, c: char) -> Seq<Seq<char>>
    decreases s.len(),
{
    let k = first_index_of(s, c);
    if k >= s.len() || k < 0 {
        seq![s]
    } else {
        seq![s.take(k)] + split_on(s.skip(k + 1), c)
    }
}

/// The index of the first `c` in `s[from..]`, or `s.len()`.
pub fn find_char_from(s: &[char], from: usize, c: char) -> (r: usize)
    requires
        from <= s@.len(),
    ensures
        r == from + first_index_of(s@.skip(from as int), c),
        from <= r <= s@.len(),
        forall|j: int| from <= j < r ==> s@[j] != c,
        r < s@.len() ==> s@[r as int] == c,
{
    proof {
        lemma_first_index_of(s@.skip(from as int), c);
    }
    let mut i = from;
    while i < s.len() && s[i] != c
        invariant
            from <= i <= s@.len(),
            forall|j: int| from <= j < i ==> s@[j] != c,
            first_index_of(s@.skip(from as int), c) == (i - from) + first_index_of(
                s@.skip(i as int),
                c,
            ),
        decreases s.len() - i,
    {
        assert(s@.skip(i as int).drop_first() == s@.skip(i + 1));
        i = i + 1;
    }
    proof {
        if i < s.len() {
            assert(s@.skip(i as int)[0] == c);
        }
    }
    i
}

/// The pieces of `s` split on `c`, as character vectors.
pub fn split_chars(s: &[char], c: char) -> (r: Vec<Vec<char>>)
    ensures
        r@.len() == split_on(s@, c).len(),
        forall|i: int| 0 <= i < r@.len() ==> #[trigger] r@[i]@ == split_on(s@, c)[i],
{
    let mut out: Vec<Vec<char>> = Vec::new();
    let mut p: usize = 0;
    let ghost mut acc: Seq<Seq<char>> = Seq::empty();
    assert(s@.skip(0) == s@);
    assert(acc + split_on(s@, c) == split_on(s@, c));
    loop
        invariant
            0 <= p <= s@.len(),
            out@.len() == acc.len(),
            forall|i: int| 0 <= i < out@.len() ==> #[trigger] out@[i]@ == acc[i],
            split_on(s@, c) == acc + split_on(s@.skip(p as int), c),
        decreases s@.len() - p,
    {
        let k = find_char_from(s, p, c);
        let piece = slice_range(s, p, k);
        if k >= s.len() {
            proof {
                assert(s@.skip(p as int).take(k - p) == s@.subrange(p as int, k as int));
                assert(s@.skip(p as int) == s@.subrange(p as int, k as int));
                acc = acc.push(piece@);
            }
            out.push(piece);
            assert(split_on(s@, c) == acc);
            return out;
        }
        proof {
            assert(s@.skip(p as int).take(k - p) == s@.subrange(p as int, k as int));
            assert(s@.skip(p as int).skip(k - p + 1) == s@.skip(k + 1));
            assert(seq![piece@] + split_on(s@.skip(k + 1), c) == split_on(s@.skip(p as int), c));
            assert(acc + (seq![piece@] + split_on(s@.skip(k + 1), c)) == acc.push(piece@)
                + split_on(s@.skip(k + 1), c));
            acc = acc.push(piece@);
        }
        out.push(piece);
        p = k + 1;
    }
}

/// `s[from..to]` as a vector.
pub fn slice_range(s: &[char], from: usize, to: usize) -> (r: Vec<char>)
    requires
        from <= to <= s@.len(),
    ensures
        r@ == s@.subrange(from as int, to as int),
{
    let mut r: Vec<char> = Vec::new();
    let mut i = from;
    while i < to
        invariant
            from <= i <= to <= s@.len(),
            r@ == s@.subrange(from as int, i as int),
        decreases to - i,
    {
        r.push(s[i]);
        i = i + 1;
        assert(r@ == s@.subrange(from as int, i as int));
    }
    r
}

/// Whether `s` starts with `prefix`.
pub fn starts_with(s: &[char], prefix: &[char]) -> (r: bool)
    ensures
        r == (prefix@.len() <= s@.len() && s@.take(prefix@.len() as int) == prefix@),
{
    if prefix.len() > s.len() {
        return false;
    }
    let mut i: usize = 0;
    while i < prefix.len()
        invariant
            prefix@.len() <= s@.len(),
            0 <= i <= prefix@.len(),
            forall|j: int| 0 <= j < i ==> s@[j] == prefix@[j],
        decreases prefix.len() - i,
    {
        if s[i] != prefix[i] {
            assert(s@.take(prefix@.len() as int)[i as int] != prefix@[i as int]);
            return false;
        }
        i = i + 1;
    }
    assert(s@.take(prefix@.len() as int) =~= prefix@);
    true
}

/// Whether `s` ends with `suffix`.
pub fn ends_with(s: &[char], suffix: &[char]) -> (r: bool)
    ensures
        r == (suffix@.len() <= s@.len() && s@.skip(s@.len() - suffix@.len()) == suffix@),
{
    if suffix.len() > s.len() {
        return false;
    }
    let off = s.len() - suffix.len();
    let mut i: usize = 0;
    while i < suffix.len()
        invariant
            off + suffix@.len() == s@.len(),
            off + suffix.len() == s.len(),
            0 <= i <= suffix@.len(),
            forall|j: int| 0 <= j < i ==> s@[off + j] == suffix@[j],
        decreases suffix.len() - i,
    {
        if s[off + i] != suffix[i] {
            assert(s@.skip(off as int)[i as int] != suffix@[i as int]);
            return false;
        }
        i = i + 1;
    }
    assert(s@.skip(off as int) =~= suffix@);
    true
}

/// Whether `s` contains `c`.
pub fn contains_char(s: &[char], c: char) -> (r: bool)
    ensures
        r == s@.contains(c),
{
    let k = find_char_from(s, 0, c);
    proof {
        if k >= s.len() {
            assert forall|j: int| 0 <= j < s@.len() implies s@[j] != c by {}
        }
    }
    k < s.len()
}

/// The texts of a list of strings.
pub open spec fn strings_view(v: Seq<String>) -> Seq<Seq<char>> {
    v.map_values(|s: String| s@)
}

/// Whether the list holds the text.
pub fn contains_text(v: &Vec<String>, x: &str) -> (r: bool)
    ensures
        r == strings_view(v@).contains(x@),
{
    let mut i: usize = 0;
    while i < v.len()
        invariant
            0 <= i <= v@.len(),
            forall|k: int| 0 <= k < i ==> #[trigger] v@[k]@ != x@,
        decreases v.len() - i,
    {
        if str_eq(v[i].as_str(), x) {
            assert(strings_view(v@)[i as int] == x@);
            return true;
        }
        i = i + 1;
    }
    assert(!strings_view(v@).contains(x@)) by {
        if strings_view(v@).contains(x@) {
            let k = choose|k: int| 0 <= k < v@.len() && strings_view(v@)[k] == x@;
            assert(v@[k]@ == x@);
        }
    }
    false
}

/// Whether the text at `j` already occurs before `j`.
pub fn occurs_before(v: &Vec<String>, j: usize) -> (r: bool)
    requires
        j < v@.len(),
    ensures
        r == strings_view(v@).take(j as int).contains(v@[j as int]@),
{
    let x = v[j].as_str();
    let mut i: usize = 0;
    while i < j
        invariant
            0 <= i <= j < v@.len(),
            x@ == v@[j as int]@,
            forall|k: int| 0 <= k < i ==> #[trigger] v@[k]@ != x@,
        decreases j - i,
    {
        if str_eq(v[i].as_str(), x) {
            assert(strings_view(v@).take(j as int)[i as int] == x@);
            return true;
        }
        i = i + 1;
    }
    assert(!strings_view(v@).take(j as int).contains(x@)) by {
        if strings_view(v@).take(j as int).contains(x@) {
            let k = choose|k: int| 0 <= k < j && strings_view(v@).take(j as int)[k] == x@;
            assert(v@[k]@ == x@);
        }
    }
    false
}

/// `s` with each `a` replaced by `b`.
pub open spec fn replace_char(s: Seq<char>, a: char, b: char) -> Seq<char> {
    Seq::new(s.len(), |i: int| if s[i] == a { b } else { s[i] })
}

/// `s` with each `a` replaced by `b` (see [`replace_char`]).
pub fn replace_char_exec(s: &[char], a: char, b: char) -> (r: Vec<char>)
    ensures
        r@ == replace_char(s@, a, b),
{
    let mut out: Vec<char> = Vec::new();
    let mut i: usize = 0;
    while i < s.len()
        invariant
            0 <= i <= s@.len(),
            out@ == replace_char(s@, a, b).take(i as int),
        decreases s.len() - i,
    {
        out.push(if s[i] == a {
            b
        } else {
            s[i]
        });
        assert(out@ =~= replace_char(s@, a, b).take(i + 1));
        i = i + 1;
    }
    assert(out@ =~= replace_char(s@, a, b));
    out
}

// ---------------------------------------------------------------------------
// ASCII letters and case
// ---------------------------------------------------------------------------

/// An ASCII letter.
pub open spec fn is_ascii_alpha(c: char) -> bool {
    ('a' <= c && c <= 'z') || ('A' <= c && c <= 'Z')
}

/// An ASCII letter or digit.
pub open spec fn is_ascii_alnum(c: char) -> bool {
    is_ascii_alpha(c) || ('0' <= c && c <= '9')
}

/// The code of a character with ASCII upper case folded to lower case.
pub open spec fn ascii_fold(c: char) -> u32 {
    if 'A' <= c && c <= 'Z' {
        (c as u32 + 32) as u32
    } else {
        c as u32
    }
}

/// `str::eq_ignore_ascii_case`.
pub open spec fn eq_ignore_ascii_case(a: Seq<char>, b: Seq<char>) -> bool {
    a.len() == b.len() && forall|i: int| 0 <= i < a.len() ==> ascii_fold(#[trigger] a[i]) == ascii_fold(b[i])
}

fn ascii_fold_exec(c: char) -> (r: u32)
    ensures
        r == ascii_fold(c),
{
    if 'A' <= c && c <= 'Z' {
        c as u32 + 32
    } else {
        c as u32
    }
}

/// Whether two texts are equal ignoring ASCII case.
pub fn eq_ignore_ascii_case_exec(a: &str, b: &str) -> (r: bool)
    ensures
        r == eq_ignore_ascii_case(a@, b@),
{
    let x = chars_of(a);
    let y = chars_of(b);
    if x.len() != y.len() {
        return false;
    }
    let mut i: usize = 0;
    while i < x.len()
        invariant
            0 <= i <= x@.len(),
            x@ == a@,
            y@ == b@,
            x@.len() == y@.len(),
            forall|j: int| 0 <= j < i ==> ascii_fold(#[trigger] x@[j]) == ascii_fold(y@[j]),
        decreases x.len() - i,
    {
        if ascii_fold_exec(x[i]) != ascii_fold_exec(y[i]) {
            return false;
        }
        i = i + 1;
    }
    true
}

// ---------------------------------------------------------------------------
// decimal numbers
// ---------------------------------------------------------------------------

/// An ASCII decimal digit.
pub open spec fn is_digit(c: char) -> bool {
    '0' <= c && c <= '9'
}

/// The value of an ASCII digit.
pub open spec fn digit_value(c: char) -> int {
    c as int - '0' as int
}

/// All characters of `s` are ASCII digits.
pub open spec fn all_digits(s: Seq<char>) -> bool {
    forall|i: int| 0 <= i < s.len() ==> is_digit(#[trigger] s[i])
}

/// The value of the decimal numeral `s` (most significant digit first).
pub open spec fn numeral_value(s: Seq<char>) -> nat
    decreases s.len(),
{
    if s.len() == 0 {
        0
    } else {
        (numeral_value(s.drop_last()) * 10 + digit_value(s.last())) as nat
    }
}

/// The ASCII digit for a value below ten.
pub open spec fn digit_char(d: nat) -> char {
    if d == 0 {
        '0'
    } else if d == 1 {
        '1'
    } else if d == 2 {
        '2'
    } else if d == 3 {
        '3'
    } else if d == 4 {
        '4'
    } else if d == 5 {
        '5'
    } else if d == 6 {
        '6'
    } else if d == 7 {
        '7'
    } else if d == 8 {
        '8'
    } else {
        '9'
    }
}

/// The decimal numeral of `n` without leading zeros (`"0"` for zero).
pub open spec fn decimal(n: nat) -> Seq<char>
    decreases n,
{
    if n < 10 {
        seq![digit_char(n)]
    } else {
        decimal(n / 10).push(digit_char(n % 10))
    }
}

/// `s` padded on the left with `'0'` up to `width` characters (`{:0width}`).
pub open spec fn zero_pad(s: Seq<char>, width: nat) -> Seq<char> {
    if s.len() >= width {
        s
    } else {
        Seq::new((width - s.len()) as nat, |_i: int| '0') + s
    }
}

pub proof fn lemma_digit_char(d: nat)
    requires
        d < 10,
    ensures
        is_digit(digit_char(d)),
        digit_value(digit_char(d)) == d,
{
}

pub proof fn lemma_decimal(n: nat)
    ensures
        decimal(n).len() >= 1,
        all_digits(decimal(n)),
        numeral_value(decimal(n)) == n,
        n < 10 ==> decimal(n).len() == 1,
        10 <= n < 100 ==> decimal(n).len() == 2,
        100 <= n < 1000 ==> decimal(n).len() == 3,
        n >= 10 ==> decimal(n).len() >= 2,
    decreases n,
{
    lemma_digit_char(n % 10);
    if n >= 10 {
        lemma_decimal(n / 10);
        let d = decimal(n / 10).push(digit_char(n % 10));
        assert(d.drop_last() == decimal(n / 10));
        assert(d.last() == digit_char(n % 10));
        assert((n / 10) * 10 + n % 10 == n) by (nonlinear_arith);
        assert(numeral_value(d) == numeral_value(decimal(n / 10)) * 10 + digit_value(d.last()));
        assert forall|i: int| 0 <= i < d.len() implies is_digit(#[trigger] d[i]) by {
            if i < d.len() - 1 {
                assert(d[i] == decimal(n / 10)[i]);
            }
        }
    } else {
        let d = decimal(n);
        assert(d.drop_last().len() == 0);
        assert(d.last() == digit_char(n));
        assert(numeral_value(d.drop_last()) == 0);
        assert(numeral_value(d) == numeral_value(d.drop_last()) * 10 + digit_value(d.last()));
    }
}

pub proof fn lemma_numeral_zero_pad(s: Seq<char>, width: nat)
    requires
        all_digits(s),
    ensures
        all_digits(zero_pad(s, width)),
        numeral_value(zero_pad(s, width)) == numeral_value(s),
        zero_pad(s, width).len() == if s.len() >= width {
            s.len()
        } else {
            width
        },
    decreases width,
{
    if s.len() < width {
        let z = Seq::new((width - s.len()) as nat, |_i: int| '0');
        lemma_numeral_zeros_prefix(z, s);
    }
}

proof fn lemma_numeral_zeros_prefix(z: Seq<char>, s: Seq<char>)
    requires
        forall|i: int| 0 <= i < z.len() ==> z[i] == '0',
        all_digits(s),
    ensures
        all_digits(z + s),
        numeral_value(z + s) == numeral_value(s),
    decreases s.len(),
{
    if s.len() == 0 {
        assert(z + s == z);
        lemma_numeral_all_zero(z);
    } else {
        lemma_numeral_zeros_prefix(z, s.drop_last());
        assert((z + s).drop_last() == z + s.drop_last());
        assert((z + s).last() == s.last());
    }
    assert forall|i: int| 0 <= i < (z + s).len() implies is_digit(#[trigger] (z + s)[i]) by {
        if i < z.len() {
        } else {
            assert((z + s)[i] == s[i - z.len()]);
        }
    }
}

proof fn lemma_numeral_all_zero(z: Seq<char>)
    requires
        forall|i: int| 0 <= i < z.len() ==> z[i] == '0',
    ensures
        numeral_value(z) == 0,
    decreases z.len(),
{
    if z.len() > 0 {
        lemma_numeral_all_zero(z.drop_last());
    }
}

/// Appends the decimal numeral of `n` to `out`.
pub fn push_decimal(out: &mut String, n: u64)
    ensures
        final(out)@ == old(out)@ + decimal(n as nat),
    decreases n,
{
    if n < 10 {
        push_char(out, char_of_digit(n));
    } else {
        push_decimal(out, n / 10);
        push_char(out, char_of_digit(n % 10));
    }
}

/// Appends the decimal numeral of `n`, padded with zeros to `width` characters.
pub fn push_padded(out: &mut String, n: u64, width: usize)
    ensures
        final(out)@ == old(out)@ + zero_pad(decimal(n as nat), width as nat),
{
    let len = decimal_len(n);
    let ghost start = out@;
    if len < width {
        let mut k: usize = 0;
        while k < width - len
            invariant
                len < width,
                0 <= k <= width - len,
                out@ == start + Seq::new(k as nat, |_i: int| '0'),
            decreases width - len - k,
        {
            push_char(out, '0');
            k = k + 1;
            assert(out@ =~= start + Seq::new(k as nat, |_i: int| '0'));
        }
    }
    let ghost mid = out@;
    push_decimal(out, n);
    assert(out@ =~= start + zero_pad(decimal(n as nat), width as nat));
}

/// The number of digits of `n`.
fn decimal_len(n: u64) -> (r: usize)
    ensures
        r == decimal(n as nat).len(),
    decreases n,
{
    if n < 10 {
        1
    } else {
        let r = decimal_len(n / 10);
        proof {
            lemma_decimal(n as nat);
            assert(decimal(n as nat).len() == decimal((n / 10) as nat).len() + 1);
            assert(decimal((n / 10) as nat).len() <= 20) by {
                lemma_decimal_len_bound((n / 10) as nat);
            }
        }
        r + 1
    }
}

proof fn lemma_decimal_len_bound(n: nat)
    requires
        n <= u64::MAX,
    ensures
        decimal(n).len() <= 20,
{
    reveal_with_fuel(pow10, 21);
    assert(n < pow10(20));
    lemma_decimal_len_log(n, 20);
}

proof fn lemma_decimal_len_log(n: nat, k: nat)
    requires
        k >= 1,
        n < pow10(k),
    ensures
        decimal(n).len() <= k,
    decreases k,
{
    if n >= 10 {
        assert(k >= 2) by {
            if k == 1 {
                assert(pow10(1) == 10 * pow10(0));
            }
        }
        assert(pow10(k) == 10 * pow10((k - 1) as nat));
        assert(n / 10 < pow10((k - 1) as nat));
        lemma_decimal_len_log(n / 10, (k - 1) as nat);
    }
}

/// Ten to the power `k`.
pub open spec fn pow10(k: nat) -> nat
    decreases k,
{
    if k == 0 {
        1
    } else {
        10 * pow10((k - 1) as nat)
    }
}

/// The ASCII digit of a value below ten.
pub fn char_of_digit(d: u64) -> (c: char)
    requires
        d < 10,
    ensures
        c == digit_char(d as nat),
        is_digit(c),
        digit_value(c) == d,
{
    if d == 0 {
        '0'
    } else if d == 1 {
        '1'
    } else if d == 2 {
        '2'
    } else if d == 3 {
        '3'
    } else if d == 4 {
        '4'
    } else if d == 5 {
        '5'
    } else if d == 6 {
        '6'
    } else if d == 7 {
        '7'
    } else if d == 8 {
        '8'
    } else {
        '9'
    }
}

/// The value of an ASCII digit character.
pub fn value_of_digit(c: char) -> (d: u64)
    requires
        is_digit(c),
    ensures
        d == digit_value(c),
        d < 10,
{
    (c as u32 - '0' as u32) as u64
}

/// What `str::parse::<uN>` accepts, with `max` the type's largest value: an
/// optional `+` followed by at least one ASCII digit, of value at most `max`.
pub open spec fn parse_unsigned(s: Seq<char>, max: nat) -> Option<nat> {
    let body = if s.len() > 0 && s[0] == '+' {
        s.drop_first()
    } else {
        s
    };
    if body.len() > 0 && all_digits(body) && numeral_value(body) <= max {
        Some(numeral_value(body))
    } else {
        None
    }
}

/// `str::parse::<uN>` for an unsigned type whose largest value is `max`.
pub fn parse_unsigned_exec(s: &[char], max: u64) -> (r: Option<u64>)
    requires
        max >= 9,
    ensures
        r matches Some(v) ==> parse_unsigned(s@, max as nat) == Some(v as nat),
        r is None ==> parse_unsigned(s@, max as nat) is None,
{
    let start: usize = if s.len() > 0 && s[0] == '+' {
        1
    } else {
        0
    };
    let ghost body = s@.skip(start as int);
    assert(body == (if s@.len() > 0 && s@[0] == '+' {
        s@.drop_first()
    } else {
        s@
    }));
    if start >= s.len() {
        return None;
    }
    let mut value: u64 = 0;
    let mut i = start;
    while i < s.len()
        invariant
            start <= i <= s@.len(),
            body == s@.skip(start as int),
            body == (if s@.len() > 0 && s@[0] == '+' {
                s@.drop_first()
            } else {
                s@
            }),
            all_digits(s@.subrange(start as int, i as int)),
            value as nat == numeral_value(s@.subrange(start as int, i as int)),
            value <= max,
            max >= 9,
        decreases s.len() - i,
    {
        let c = s[i];
        if !('0' <= c && c <= '9') {
            assert(body[i - start] == c);
            assert(!is_digit(body[i - start]));
            return None;
        }
        let d = value_of_digit(c);
        assert(s@.subrange(start as int, i + 1).drop_last() == s@.subrange(start as int, i as int));
        if value > (max - d) / 10 {
            proof {
                lemma_numeral_prefix_le(body, (i + 1 - start) as int);
                assert(body.take(i + 1 - start) == s@.subrange(start as int, i + 1));
                assert(value * 10 + d > max) by (nonlinear_arith)
                    requires
                        value > (max - d) / 10,
                        d <= max,
                ;
                assert(all_digits(s@.subrange(start as int, i + 1)) ==> numeral_value(
                    s@.subrange(start as int, i + 1),
                ) == value * 10 + d);
            }
            return None;
        }
        value = value * 10 + d;
        i = i + 1;
        assert forall|j: int| 0 <= j < s@.subrange(start as int, i as int).len() implies is_digit(
            #[trigger] s@.subrange(start as int, i as int)[j],
        ) by {
            if j < i - 1 - start {
                assert(s@.subrange(start as int, i as int)[j] == s@.subrange(
                    start as int,
                    i - 1,
                )[j]);
            }
        }
    }
    assert(s@.subrange(start as int, s@.len() as int) == body);
    Some(value)
}

/// A longer all-digit numeral is at least as large as each of its prefixes.
proof fn lemma_numeral_prefix_le(s: Seq<char>, k: int)
    requires
        0 <= k <= s.len(),
    ensures
        all_digits(s) ==> numeral_value(s.take(k)) <= numeral_value(s),
    decreases s.len(),
{
    if k < s.len() && all_digits(s) {
        lemma_numeral_prefix_le(s.drop_last(), k);
        assert(s.drop_last().take(k) == s.take(k));
        assert(all_digits(s.drop_last())) by {
            assert forall|i: int| 0 <= i < s.drop_last().len() implies is_digit(
                #[trigger] s.drop_last()[i],
            ) by {
                assert(s.drop_last()[i] == s[i]);
            }
        }
    } else if k == s.len() {
        assert(s.take(k) == s);
    }
}


// ---------------------------------------------------------------------------
// lines
// ---------------------------------------------------------------------------

/// The lines of `s` as `str::lines` yields them: split at `\n`, a `\r` just
/// before a `\n` dropped, and no empty last line after a final `\n`.
pub open spec fn lines_of(s: Seq<char>) -> Seq<Seq<char>>
    decreases s.len(),
{
    if s.len() == 0 {
        Seq::empty()
    } else {
        let k = first_index_of(s, '\n');
        if k < 0 || k >= s.len() {
            seq![s]
        } else {
            let l = s.take(k);
            let line = if l.len() > 0 && l.last() == '\r' {
                l.drop_last()
            } else {
                l
            };
            seq![line] + lines_of(s.skip(k + 1))
        }
    }
}

/// The lines of `s` (`str::lines`).
pub fn split_lines(s: &[char]) -> (r: Vec<Vec<char>>)
    ensures
        r@.len() == lines_of(s@).len(),
        forall|i: int| 0 <= i < r@.len() ==> #[trigger] r@[i]@ == lines_of(s@)[i],
{
    let mut out: Vec<Vec<char>> = Vec::new();
    let mut p: usize = 0;
    let ghost mut acc: Seq<Seq<char>> = Seq::empty();
    assert(s@.skip(0) == s@);
    assert(acc + lines_of(s@) == lines_of(s@));
    while p < s.len()
        invariant
            0 <= p <= s@.len(),
            out@.len() == acc.len(),
            forall|i: int| 0 <= i < out@.len() ==> #[trigger] out@[i]@ == acc[i],
            lines_of(s@) == acc + lines_of(s@.skip(p as int)),
        decreases s@.len() - p,
    {
        let k = find_char_from(s, p, '\n');
        let ghost rest = s@.skip(p as int);
        assert(rest.take(k - p) == s@.subrange(p as int, k as int));
        if k >= s.len() {
            let piece = slice_range(s, p, k);
            assert(rest == s@.subrange(p as int, k as int));
            proof {
                acc = acc.push(piece@);
            }
            out.push(piece);
            p = k;
            assert(s@.skip(p as int).len() == 0);
            assert(lines_of(s@.skip(p as int)) == Seq::<Seq<char>>::empty());
            assert(lines_of(s@) == acc + lines_of(s@.skip(p as int)));
        } else {
            let end = if k > p && s[k - 1] == '\r' {
                k - 1
            } else {
                k
            };
            let piece = slice_range(s, p, end);
            proof {
                let l = rest.take(k - p);
                if k > p && s@[k - 1] == '\r' {
                    assert(l.last() == '\r');
                    assert(l.drop_last() == s@.subrange(p as int, end as int));
                }
                assert(rest.skip(k - p + 1) == s@.skip(k + 1));
                assert(lines_of(rest) == seq![piece@] + lines_of(s@.skip(k + 1)));
                assert(acc + (seq![piece@] + lines_of(s@.skip(k + 1))) == acc.push(piece@)
                    + lines_of(s@.skip(k + 1)));
                acc = acc.push(piece@);
            }
            out.push(piece);
            p = k + 1;
        }
    }
    assert(s@.skip(p as int).len() == 0);
    assert(lines_of(s@.skip(p as int)) == Seq::<Seq<char>>::empty());
    assert(acc + Seq::<Seq<char>>::empty() == acc);
    out
}

} // verus!

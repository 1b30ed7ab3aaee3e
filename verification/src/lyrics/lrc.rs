//! Reading and writing the LRC family of lyric formats: plain LRC
//! (`[mm:ss.xx]text`), enhanced LRC (`[mm:ss.xx]<mm:ss.xx>word<...>`, with
//! optional `<mm:ss|singer>` speaker marks) and verbatim LRC
//! (`[mm:ss.xx]word[mm:ss.xx]word[...]`).
use vstd::prelude::*;
use crate::pattern::{regex_is_match, spec_regex_is_match};
use crate::lyrics::model::{
    copy_word, normalized_line_order, LineTrack, LyricsOptions,
    tags_view, LyricFormat, LyricsDocument, LyricsMetadata, DocumentView,
    copy_line, first_occurrences, line_visible_text, visible_text, LyricsTrack, TrackType, TrackView,
    opt_text, words_text, LineView, LyricsLine, LyricsWord, WordView,
};
use crate::text::{
    is_blank, blank, lines_of, split_lines, string_of as text_string_of,
    push_decimal, chars_of as text_chars,
    all_digits, first_index_of, push_range, string_of, string_of_range, find_char_from, lemma_first_index_of, chars_of, decimal, is_digit, lemma_decimal, lemma_numeral_zero_pad, numeral_value,
    pow10, push_char, digit_value, push_padded, slice_range, value_of_digit, zero_pad,
};

verus! {

broadcast use vstd::string::group_string_axioms;

// ---------------------------------------------------------------------------
// timestamps: `m{1,3}:ss` with an optional `.f{1,3}` or `:f{1,3}` fraction
// ---------------------------------------------------------------------------

/// The length of the run of ASCII digits of `s` that starts at `i`.
pub open spec fn digit_run(s: Seq<char>, i: int) -> int
    decreases s.len() - i,
{
    if 0 <= i < s.len() && is_digit(s[i]) {
        1 + digit_run(s, i + 1)
    } else {
        0
    }
}

/// Where the fraction part `[.:]f{1,3}` that may follow the seconds at `e`
/// ends, if there is a well-formed one.
pub open spec fn fraction_end(s: Seq<char>, e: int) -> Option<int> {
    if 0 <= e < s.len() && (s[e] == '.' || s[e] == ':') && 1 <= digit_run(s, e + 1) <= 3 {
        Some(e + 1 + digit_run(s, e + 1))
    } else {
        None
    }
}

/// The end of the timestamp that starts at `i` in `s`, if one starts there:
/// one to three digits, `:`, two digits, and a fraction when one is well formed.
pub open spec fn timestamp_end(s: Seq<char>, i: int) -> Option<int> {
    let m = digit_run(s, i);
    if 0 <= i && 1 <= m <= 3 && i + m + 2 < s.len() && s[i + m] == ':' && is_digit(s[i + m + 1])
        && is_digit(s[i + m + 2]) {
        match fraction_end(s, i + m + 3) {
            Some(f) => Some(f),
            None => Some(i + m + 3),
        }
    } else {
        None
    }
}

/// The value in milliseconds of the timestamp that starts at `i` (meaningful
/// when [`timestamp_end`] is `Some`): minutes, seconds and fraction.
pub open spec fn timestamp_value(s: Seq<char>, i: int) -> int {
    let m = digit_run(s, i);
    let minutes = numeral_value(s.subrange(i, i + m));
    let seconds = numeral_value(s.subrange(i + m + 1, i + m + 3));
    let fraction = match fraction_end(s, i + m + 3) {
        Some(f) => fraction_value(s.subrange(i + m + 4, f)),
        None => 0,
    };
    minutes * 60000 + seconds * 1000 + fraction
}

/// The milliseconds a fraction of one to three digits stands for: the digits
/// are read as the first three digits after the decimal point.
pub open spec fn fraction_value(f: Seq<char>) -> int {
    numeral_value((f + seq!['0', '0', '0']).take(3)) as int
}

/// What `parse_lrc_time` returns: the value when the whole text is one
/// timestamp, else nothing.
pub open spec fn lrc_time_value(v: Seq<char>) -> Option<int> {
    if timestamp_end(v, 0) == Some(v.len() as int) {
        Some(timestamp_value(v, 0))
    } else {
        None
    }
}

proof fn lemma_digit_run(s: Seq<char>, i: int)
    requires
        0 <= i,
    ensures
        0 <= digit_run(s, i),
        i + digit_run(s, i) <= s.len() || digit_run(s, i) == 0,
        forall|j: int| i <= j < i + digit_run(s, i) ==> is_digit(#[trigger] s[j]),
        0 <= i + digit_run(s, i) < s.len() ==> !is_digit(s[i + digit_run(s, i)]),
    decreases s.len() - i,
{
    if 0 <= i < s.len() && is_digit(s[i]) {
        lemma_digit_run(s, i + 1);
    }
}

/// The digit run of `s` starting at `i`, computed.
fn digit_run_exec(s: &[char], i: usize) -> (r: usize)
    requires
        i <= s@.len(),
    ensures
        r == digit_run(s@, i as int),
        i + r <= s@.len(),
{
    proof {
        lemma_digit_run(s@, i as int);
    }
    let mut j = i;
    while j < s.len() && '0' <= s[j] && s[j] <= '9'
        invariant
            i <= j <= s@.len(),
            digit_run(s@, i as int) == (j - i) + digit_run(s@, j as int),
        decreases s.len() - j,
    {
        j = j + 1;
    }
    j - i
}

/// The numeral `s[from..to]` (at most three digits) as a number.
fn small_numeral(s: &[char], from: usize, to: usize) -> (r: i64)
    requires
        from <= to <= s@.len(),
        to - from <= 3,
        all_digits(s@.subrange(from as int, to as int)),
    ensures
        r == numeral_value(s@.subrange(from as int, to as int)),
        0 <= r < 1000,
        r < pow10((to - from) as nat),
{
    let mut v: i64 = 0;
    let mut i = from;
    while i < to
        invariant
            from <= i <= to <= s@.len(),
            to - from <= 3,
            all_digits(s@.subrange(from as int, to as int)),
            v == numeral_value(s@.subrange(from as int, i as int)),
            0 <= v < pow10((i - from) as nat),
        decreases to - i,
    {
        assert(s@.subrange(from as int, to as int)[i - from] == s@[i as int]);
        let d = value_of_digit(s[i]) as i64;
        assert(s@.subrange(from as int, i + 1).drop_last() == s@.subrange(from as int, i as int));
        assert(pow10((i + 1 - from) as nat) == 10 * pow10((i - from) as nat));
        assert(pow10((i - from) as nat) <= 100) by {
            reveal_with_fuel(pow10, 4);
        }
        v = v * 10 + d;
        i = i + 1;
    }
    assert(pow10((to - from) as nat) <= 1000) by {
        reveal_with_fuel(pow10, 4);
    }
    v
}

/// A timestamp found in a text: its end and its value.
struct Timestamp {
    end: usize,
    value: i64,
}

/// The timestamp that starts at `i` in `s`, if one does.
fn timestamp_at(s: &[char], i: usize) -> (r: Option<Timestamp>)
    requires
        i <= s@.len(),
    ensures
        r is Some <==> timestamp_end(s@, i as int) is Some,
        r matches Some(t) ==> t.end == timestamp_end(s@, i as int)->0 && t.value == timestamp_value(
            s@,
            i as int,
        ),
        r matches Some(t) ==> 0 <= t.value <= 999 * 60000 + 99 * 1000 + 999 && t.end <= s@.len(),
{
    let m = digit_run_exec(s, i);
    proof {
        lemma_digit_run(s@, i as int);
    }
    if !(1 <= m && m <= 3 && m + 2 < s.len() - i && s[i + m] == ':' && '0' <= s[i + m + 1] && s[i
        + m + 1] <= '9' && '0' <= s[i + m + 2] && s[i + m + 2] <= '9') {
        return None;
    }
    assert(all_digits(s@.subrange(i as int, i + m))) by {
        assert forall|j: int| 0 <= j < m implies is_digit(
            #[trigger] s@.subrange(i as int, i + m)[j],
        ) by {
            assert(s@.subrange(i as int, i + m)[j] == s@[i + j]);
        }
    }
    assert(all_digits(s@.subrange(i + m + 1, i + m + 3))) by {
        assert forall|j: int| 0 <= j < 2 implies is_digit(
            #[trigger] s@.subrange(i + m + 1, i + m + 3)[j],
        ) by {
            assert(s@.subrange(i + m + 1, i + m + 3)[j] == s@[i + m + 1 + j]);
        }
    }
    let minutes = small_numeral(s, i, i + m);
    let seconds = small_numeral(s, i + m + 1, i + m + 3);
    assert(seconds < 100) by {
        reveal_with_fuel(pow10, 3);
    }
    let e = i + m + 3;
    if e < s.len() && (s[e] == '.' || s[e] == ':') {
        let f = digit_run_exec(s, e + 1);
        proof {
            lemma_digit_run(s@, e + 1);
        }
        if 1 <= f && f <= 3 {
            assert(all_digits(s@.subrange(e + 1, e + 1 + f))) by {
                assert forall|j: int| 0 <= j < f implies is_digit(
                    #[trigger] s@.subrange(e + 1, e + 1 + f)[j],
                ) by {
                    assert(s@.subrange(e + 1, e + 1 + f)[j] == s@[e + 1 + j]);
                }
            }
            let fraction = fraction_digits(s, e + 1, e + 1 + f);
            return Some(Timestamp { end: e + 1 + f, value: minutes * 60000 + seconds * 1000 + fraction });
        }
    }
    Some(Timestamp { end: e, value: minutes * 60000 + seconds * 1000 })
}

/// The fraction value of the digits `s[from..to]` (one to three digits).
fn fraction_digits(s: &[char], from: usize, to: usize) -> (r: i64)
    requires
        from < to <= s@.len(),
        to - from <= 3,
        all_digits(s@.subrange(from as int, to as int)),
    ensures
        r == fraction_value(s@.subrange(from as int, to as int)),
        0 <= r < 1000,
{
    let mut padded: Vec<char> = slice_range(s, from, to);
    padded.push('0');
    padded.push('0');
    padded.push('0');
    let ghost f = s@.subrange(from as int, to as int);
    assert(padded@ == f + seq!['0', '0', '0']);
    assert(all_digits(padded@.subrange(0, 3))) by {
        assert forall|j: int| 0 <= j < 3 implies is_digit(#[trigger] padded@.subrange(0, 3)[j]) by {
            if j < f.len() {
                assert(padded@.subrange(0, 3)[j] == f[j]);
            } else {
                assert(padded@.subrange(0, 3)[j] == '0');
            }
        }
    }
    assert(padded@.take(3) == padded@.subrange(0, 3));
    small_numeral(padded.as_slice(), 0, 3)
}

/// `parse_lrc_time`: the milliseconds of a timestamp text such as `01:02.345`,
/// when the whole text is one timestamp.
pub fn parse_lrc_time(value: &str) -> (r: Option<i64>)
    ensures
        r matches Some(t) ==> lrc_time_value(value@) == Some(t as int),
        r is None ==> lrc_time_value(value@) is None,
{
    let v = chars_of(value);
    parse_lrc_time_chars(v.as_slice())
}

/// [`parse_lrc_time`] on characters.
pub fn parse_lrc_time_chars(v: &[char]) -> (r: Option<i64>)
    ensures
        r matches Some(t) ==> lrc_time_value(v@) == Some(t as int) && 0 <= t <= 999 * 60000 + 99
            * 1000 + 999,
        r is None ==> lrc_time_value(v@) is None,
{
    match timestamp_at(v, 0) {
        Some(t) => {
            if t.end == v.len() {
                Some(t.value)
            } else {
                None
            }
        },
        None => None,
    }
}

// ---------------------------------------------------------------------------
// fraction_ms: the first three bytes of `value + "000"`, read as a number
// ---------------------------------------------------------------------------

/// The number of bytes of the UTF-8 encoding of `c`.
pub open spec fn utf8_width(c: char) -> int {
    if (c as u32) < 0x80 {
        1
    } else if (c as u32) < 0x800 {
        2
    } else if (c as u32) < 0x10000 {
        3
    } else {
        4
    }
}

/// The characters whose UTF-8 encoding makes up exactly the first `n` bytes
/// of that of `p`; `None` when byte `n` falls inside a character.
pub open spec fn byte_prefix(p: Seq<char>, n: int) -> Option<Seq<char>>
    decreases p.len(),
{
    if n <= 0 {
        Some(Seq::empty())
    } else if p.len() == 0 || utf8_width(p[0]) > n {
        None
    } else {
        match byte_prefix(p.drop_first(), n - utf8_width(p[0])) {
            Some(rest) => Some(seq![p[0]] + rest),
            None => None,
        }
    }
}

/// What `str::parse::<i64>` accepts: an optional sign followed by at least
/// one ASCII digit, within the range of `i64`.
pub open spec fn parse_i64(s: Seq<char>) -> Option<int> {
    let negative = s.len() > 0 && s[0] == '-';
    let body = if s.len() > 0 && (s[0] == '+' || s[0] == '-') {
        s.drop_first()
    } else {
        s
    };
    if body.len() > 0 && all_digits(body) {
        let v = numeral_value(body) as int;
        if negative && v <= 0x8000_0000_0000_0000 {
            Some(-v)
        } else if !negative && v <= 0x7fff_ffff_ffff_ffff {
            Some(v)
        } else {
            None
        }
    } else {
        None
    }
}

/// What `fraction_ms` returns: 0 without a value, else the first three bytes
/// of the value followed by `000`, read as an `i64`, or 0 when that fails.
pub open spec fn fraction_ms_value(value: Option<Seq<char>>) -> int {
    match value {
        None => 0,
        Some(v) => match byte_prefix(v + seq!['0', '0', '0'], 3) {
            Some(p) => match parse_i64(p) {
                Some(x) => x,
                None => 0,
            },
            None => 0,
        },
    }
}

/// `fraction_ms`: the milliseconds a fraction such as `5`, `50` or `500`
/// stands for, read from the first three bytes of the text padded with
/// zeros; a text whose first three bytes end inside a character has no such
/// reading and is left out.
pub fn fraction_ms(value: Option<&str>) -> (r: i64)
    requires
        value matches Some(v) ==> byte_prefix(v@ + seq!['0', '0', '0'], 3) is Some,
    ensures
        r == fraction_ms_value(
            match value {
                Some(v) => Some(v@),
                None => None,
            },
        ),
{
    match value {
        None => 0,
        Some(v) => {
            let mut padded = chars_of(v);
            padded.push('0');
            padded.push('0');
            padded.push('0');
            let ghost p = padded@;
            assert(p == v@ + seq!['0', '0', '0']);
            let cut = byte_prefix_len(padded.as_slice(), 3);
            let prefix = slice_range(padded.as_slice(), 0, cut);
            match parse_small_i64(prefix.as_slice()) {
                Some(x) => x,
                None => 0,
            }
        },
    }
}

/// The number of characters that make up the first `n` bytes of `p`.
fn byte_prefix_len(p: &[char], n: usize) -> (r: usize)
    requires
        byte_prefix(p@, n as int) is Some,
        n <= 4,
    ensures
        r <= p@.len(),
        byte_prefix(p@, n as int) == Some(p@.take(r as int)),
        r <= n,
{
    let mut i: usize = 0;
    let mut bytes: usize = 0;
    proof {
        assert(p@.skip(0) == p@);
    }
    while bytes < n
        invariant
            0 <= i <= p@.len(),
            bytes <= n <= 4,
            i <= bytes,
            byte_prefix(p@.skip(i as int), n - bytes) is Some,
            byte_prefix(p@, n as int) == match byte_prefix(p@.skip(i as int), n - bytes) {
                Some(rest) => Some(p@.take(i as int) + rest),
                None => None,
            },
        decreases n - bytes,
    {
        let c = p[i];
        let w: usize = if (c as u32) < 0x80 {
            1
        } else if (c as u32) < 0x800 {
            2
        } else if (c as u32) < 0x10000 {
            3
        } else {
            4
        };
        proof {
            let q = p@.skip(i as int);
            assert(q[0] == c);
            assert(q.drop_first() == p@.skip(i + 1));
            assert(p@.take(i as int) + seq![c] == p@.take(i + 1));
            assert(forall|r: Seq<char>| #![auto] p@.take(i as int) + (seq![c] + r) == p@.take(i + 1) + r);
        }
        bytes = bytes + w;
        i = i + 1;
    }
    proof {
        assert(p@.take(i as int) + Seq::<char>::empty() == p@.take(i as int));
    }
    i
}

/// `str::parse::<i64>` on at most three characters.
fn parse_small_i64(s: &[char]) -> (r: Option<i64>)
    requires
        s@.len() <= 4,
    ensures
        r matches Some(x) ==> parse_i64(s@) == Some(x as int),
        r is None ==> parse_i64(s@) is None,
{
    let negative = s.len() > 0 && s[0] == '-';
    let start: usize = if s.len() > 0 && (s[0] == '+' || s[0] == '-') {
        1
    } else {
        0
    };
    let ghost body = s@.skip(start as int);
    if start >= s.len() {
        return None;
    }
    let mut i = start;
    let mut v: i64 = 0;
    while i < s.len()
        invariant
            start <= i <= s@.len() <= 4,
            1 <= s@.len(),
            body == s@.skip(start as int),
            start == (if s@.len() > 0 && (s@[0] == '+' || s@[0] == '-') {
                1int
            } else {
                0int
            }),
            all_digits(s@.subrange(start as int, i as int)),
            v == numeral_value(s@.subrange(start as int, i as int)),
            0 <= v < pow10((i - start) as nat),
        decreases s.len() - i,
    {
        let c = s[i];
        if !('0' <= c && c <= '9') {
            assert(body[i - start] == c);
            assert(!is_digit(body[i - start]));
            assert(body == if s@.len() > 0 && (s@[0] == '+' || s@[0] == '-') {
                s@.drop_first()
            } else {
                s@
            });
            return None;
        }
        assert(s@.subrange(start as int, i + 1).drop_last() == s@.subrange(start as int, i as int));
        assert(pow10((i + 1 - start) as nat) == 10 * pow10((i - start) as nat));
        assert(pow10((i - start) as nat) <= 1000) by {
            reveal_with_fuel(pow10, 5);
        }
        v = v * 10 + value_of_digit(c) as i64;
        i = i + 1;
        assert forall|j: int| 0 <= j < i - start implies is_digit(
            #[trigger] s@.subrange(start as int, i as int)[j],
        ) by {
            if j < i - 1 - start {
                assert(s@.subrange(start as int, i as int)[j] == s@.subrange(
                    start as int,
                    i - 1,
                )[j]);
            }
        }
    }
    assert(s@.subrange(start as int, s@.len() as int) == body);
    assert(body == if s@.len() > 0 && (s@[0] == '+' || s@[0] == '-') {
        s@.drop_first()
    } else {
        s@
    });
    if negative {
        Some(-v)
    } else {
        Some(v)
    }
}

// ---------------------------------------------------------------------------
// writing timestamps
// ---------------------------------------------------------------------------

/// The text `lrc_time` writes for a number of milliseconds: `mm:ss.fff`,
/// minutes padded to at least two digits; negative times are written as 0.
pub open spec fn lrc_time_text(milliseconds: int) -> Seq<char> {
    let safe = if milliseconds < 0 {
        0nat
    } else {
        milliseconds as nat
    };
    zero_pad(decimal(safe / 60000), 2) + seq![':'] + zero_pad(decimal((safe % 60000) / 1000), 2)
        + seq!['.'] + zero_pad(decimal(safe % 1000), 3)
}

/// `lrc_time`: writes a time as `mm:ss.fff`.
pub fn lrc_time(milliseconds: i64) -> (r: String)
    ensures
        r@ == lrc_time_text(milliseconds as int),
{
    let safe: u64 = if milliseconds < 0 {
        0
    } else {
        milliseconds as u64
    };
    let mut out = String::new();
    push_padded(&mut out, safe / 60000, 2);
    push_char(&mut out, ':');
    push_padded(&mut out, (safe % 60000) / 1000, 2);
    push_char(&mut out, '.');
    push_padded(&mut out, safe % 1000, 3);
    out
}

/// Reading back a written time gives the time again, for every time of at
/// most three digits of minutes (below 1000 minutes).
pub proof fn lrc_time_round_trip(milliseconds: int)
    requires
        0 <= milliseconds < 60_000_000,
    ensures
        lrc_time_value(lrc_time_text(milliseconds)) == Some(milliseconds),
{
    let ms = milliseconds as nat;
    let mm = ms / 60000;
    let ss = (ms % 60000) / 1000;
    let ff = ms % 1000;
    lemma_decimal(mm);
    lemma_decimal(ss);
    lemma_decimal(ff);
    let a = zero_pad(decimal(mm), 2);
    let b = zero_pad(decimal(ss), 2);
    let c = zero_pad(decimal(ff), 3);
    lemma_numeral_zero_pad(decimal(mm), 2);
    lemma_numeral_zero_pad(decimal(ss), 2);
    lemma_numeral_zero_pad(decimal(ff), 3);
    assert(mm < 1000);
    assert(ss < 60);
    assert(2 <= a.len() <= 3);
    assert(b.len() == 2);
    assert(c.len() == 3);
    let t = lrc_time_text(milliseconds);
    assert(t == a + seq![':'] + b + seq!['.'] + c);
    let m = a.len() as int;
    assert forall|j: int| 0 <= j < m implies t[j] == a[j] by {}
    assert(t[m] == ':');
    assert(t[m + 1] == b[0] && t[m + 2] == b[1]);
    assert(t[m + 3] == '.');
    assert forall|j: int| 0 <= j < 3 implies t[m + 4 + j] == c[j] by {}
    assert(t.len() == m + 7);
    lemma_run_before(t, 0, m);
    lemma_run_before(t, m + 4, 3);
    assert(digit_run(t, 0) == m);
    assert(digit_run(t, m + 4) == 3);
    assert(fraction_end(t, m + 3) == Some(m + 7));
    assert(timestamp_end(t, 0) == Some(t.len() as int));
    assert(t.subrange(0, m) == a);
    assert(t.subrange(m + 1, m + 3) == b);
    assert(t.subrange(m + 4, m + 7) == c);
    assert((c + seq!['0', '0', '0']).take(3) == c);
    assert(mm * 60000 + ss * 1000 + ff == ms) by (nonlinear_arith)
        requires
            mm == ms / 60000,
            ss == (ms % 60000) / 1000,
            ff == ms % 1000,
    ;
}

/// A negative time is written as zero: `00:00.000`.
pub proof fn lrc_time_negative(milliseconds: int)
    requires
        milliseconds < 0,
    ensures
        lrc_time_text(milliseconds) == "00:00.000"@,
{
    reveal_strlit("00:00.000");
    assert(decimal(0) == seq!['0']);
    assert(zero_pad(seq!['0'], 2) =~= seq!['0', '0']);
    assert(zero_pad(seq!['0'], 3) =~= seq!['0', '0', '0']);
    assert(lrc_time_text(milliseconds) =~= "00:00.000"@);
}

/// A written time below 1000 minutes reads `mm:ss.fff`: two or three
/// digits of minutes, a colon, two digits of seconds the first of which is
/// at most 5, a dot and three digits of milliseconds.
pub proof fn lrc_time_shape(milliseconds: int)
    requires
        0 <= milliseconds < 60_000_000,
    ensures
        ({
            let t = lrc_time_text(milliseconds);
            let m = t.len() - 7;
            &&& 2 <= m <= 3
            &&& forall|j: int| 0 <= j < m ==> is_digit(#[trigger] t[j])
            &&& t[m] == ':'
            &&& '0' <= t[m + 1] <= '5'
            &&& is_digit(t[m + 2])
            &&& t[m + 3] == '.'
            &&& forall|j: int| m + 4 <= j < m + 7 ==> is_digit(#[trigger] t[j])
        }),
{
    let ms = milliseconds as nat;
    let mm = ms / 60000;
    let ss = (ms % 60000) / 1000;
    let ff = ms % 1000;
    lemma_decimal(mm);
    lemma_decimal(ss);
    lemma_decimal(ff);
    let a = zero_pad(decimal(mm), 2);
    let b = zero_pad(decimal(ss), 2);
    let c = zero_pad(decimal(ff), 3);
    lemma_numeral_zero_pad(decimal(mm), 2);
    lemma_numeral_zero_pad(decimal(ss), 2);
    lemma_numeral_zero_pad(decimal(ff), 3);
    assert(mm < 1000);
    assert(ss < 60);
    assert(2 <= a.len() <= 3);
    assert(b.len() == 2);
    assert(c.len() == 3);
    let t = lrc_time_text(milliseconds);
    assert(t == a + seq![':'] + b + seq!['.'] + c);
    let m = a.len() as int;
    assert forall|j: int| 0 <= j < m implies is_digit(#[trigger] t[j]) by {
        assert(t[j] == a[j]);
    }
    assert(t[m + 1] == b[0] && t[m + 2] == b[1]);
    assert(is_digit(b[0]) && is_digit(b[1]));
    assert(b.drop_last().drop_last().len() == 0);
    assert(numeral_value(b.drop_last()) == digit_value(b[0]));
    assert(numeral_value(b) == digit_value(b[0]) * 10 + digit_value(b[1]));
    assert forall|j: int| m + 4 <= j < m + 7 implies is_digit(#[trigger] t[j]) by {
        assert(t[j] == c[j - m - 4]);
    }
}

/// A run of `n` digits at `i` that is followed by a non-digit (or the end).
proof fn lemma_run_before(t: Seq<char>, i: int, n: int)
    requires
        0 <= i,
        0 <= n,
        i + n <= t.len(),
        forall|j: int| i <= j < i + n ==> is_digit(#[trigger] t[j]),
        i + n < t.len() ==> !is_digit(t[i + n]),
    ensures
        digit_run(t, i) == n,
    decreases n,
{
    if n > 0 {
        lemma_run_before(t, i + 1, n - 1);
    }
}


// ---------------------------------------------------------------------------
// stamps: `[timestamp]`, and `<timestamp>` or `<timestamp|speaker>`
// ---------------------------------------------------------------------------

/// The index of the first `<` or `>` in `s`, or `s.len()`.
pub open spec fn first_angle(s: Seq<char>) -> int
    decreases s.len(),
{
    if s.len() == 0 {
        0
    } else if s[0] == '<' || s[0] == '>' {
        0
    } else {
        1 + first_angle(s.drop_first())
    }
}

proof fn lemma_first_angle(s: Seq<char>)
    ensures
        0 <= first_angle(s) <= s.len(),
        first_angle(s) < s.len() ==> (s[first_angle(s)] == '<' || s[first_angle(s)] == '>'),
    decreases s.len(),
{
    if s.len() > 0 && !(s[0] == '<' || s[0] == '>') {
        lemma_first_angle(s.drop_first());
        if first_angle(s) < s.len() {
            assert(s[first_angle(s)] == s.drop_first()[first_angle(s) - 1]);
        }
    }
}

/// The bracket pair of stamps: `<` `>` for word stamps of enhanced LRC,
/// `[` `]` otherwise.
pub open spec fn stamp_open(enhanced: bool) -> char {
    if enhanced {
        '<'
    } else {
        '['
    }
}

pub open spec fn stamp_close(enhanced: bool) -> char {
    if enhanced {
        '>'
    } else {
        ']'
    }
}

/// The stamp that starts at `i`, as `(end of its timestamp, end of the
/// stamp)`: the opening bracket, a timestamp and the closing bracket; in
/// enhanced LRC a `|speaker` mark (up to the first angle bracket) may come
/// before the closing bracket.
pub open spec fn stamp_at(s: Seq<char>, i: int, enhanced: bool) -> Option<(int, int)> {
    if 0 <= i < s.len() && s[i] == stamp_open(enhanced) {
        match timestamp_end(s, i + 1) {
            Some(e) => if e < s.len() && s[e] == stamp_close(enhanced) {
                Some((e, e + 1))
            } else if enhanced && e < s.len() && s[e] == '|' {
                let k = e + 1 + first_angle(s.skip(e + 1));
                if k < s.len() && s[k] == '>' {
                    Some((e, k + 1))
                } else {
                    None
                }
            } else {
                None
            },
            None => None,
        }
    } else {
        None
    }
}

/// The successive stamps found scanning `s` from `p` (what a regex
/// `captures_iter` of the stamp pattern finds): `(start, end of timestamp,
/// end)` each.
pub open spec fn stamps_from(s: Seq<char>, p: int, enhanced: bool) -> Seq<(int, int, int)>
    decreases s.len() - p,
{
    if p < 0 || p >= s.len() {
        Seq::empty()
    } else {
        match stamp_at(s, p, enhanced) {
            Some((ve, me)) => if me > p {
                seq![(p, ve, me)] + stamps_from(s, me, enhanced)
            } else {
                Seq::empty()
            },
            None => stamps_from(s, p + 1, enhanced),
        }
    }
}

/// The time of a stamp.
pub open spec fn stamp_time(s: Seq<char>, st: (int, int, int)) -> int {
    timestamp_value(s, st.0 + 1)
}

/// Stamps are in order, do not overlap and lie in `s`.
pub open spec fn stamps_well_formed(s: Seq<char>, st: Seq<(int, int, int)>, p: int) -> bool {
    &&& forall|k: int|
        0 <= k < st.len() ==> p <= (#[trigger] st[k]).0 && st[k].0 + 1 < st[k].1 < st[k].2
            <= s.len() && timestamp_end(s, st[k].0 + 1) == Some(st[k].1)
    &&& forall|k: int| 0 <= k < st.len() - 1 ==> (#[trigger] st[k]).2 <= st[k + 1].0
}

proof fn lemma_timestamp_end_bounds(s: Seq<char>, i: int)
    requires
        0 <= i,
    ensures
        timestamp_end(s, i) matches Some(e) ==> i < e <= s.len(),
{
    lemma_digit_run(s, i);
    let m = digit_run(s, i);
    if 1 <= m {
        lemma_digit_run(s, i + m + 4);
    }
}

proof fn lemma_stamps_well_formed(s: Seq<char>, p: int, enhanced: bool)
    requires
        0 <= p,
    ensures
        stamps_well_formed(s, stamps_from(s, p, enhanced), p),
    decreases s.len() - p,
{
    if p < s.len() {
        match stamp_at(s, p, enhanced) {
            Some((ve, me)) => {
                if me > p {
                    lemma_stamps_well_formed(s, me, enhanced);
                    lemma_timestamp_end_bounds(s, p + 1);
                    let rest = stamps_from(s, me, enhanced);
                    let all = seq![(p, ve, me)] + rest;
                    assert(all == stamps_from(s, p, enhanced));
                    if enhanced && !(ve < s.len() && s[ve] == stamp_close(enhanced)) {
                        lemma_first_angle(s.skip(ve + 1));
                    }
                    assert forall|k: int| 0 <= k < all.len() implies p <= (#[trigger] all[k]).0
                        && all[k].0 + 1 < all[k].1 < all[k].2 <= s.len() && timestamp_end(
                        s,
                        all[k].0 + 1,
                    ) == Some(all[k].1) by {
                        if k > 0 {
                            assert(all[k] == rest[k - 1]);
                        }
                    }
                    assert forall|k: int| 0 <= k < all.len() - 1 implies (#[trigger] all[k]).2
                        <= all[k + 1].0 by {
                        if k > 0 {
                            assert(all[k] == rest[k - 1]);
                            assert(all[k + 1] == rest[k]);
                        } else {
                            assert(all[1] == rest[0]);
                        }
                    }
                }
            },
            None => {
                lemma_stamps_well_formed(s, p + 1, enhanced);
            },
        }
    }
}

/// A stamp found in a text.
#[derive(Clone, Copy)]
struct Stamp {
    start: usize,
    value_end: usize,
    end: usize,
    time: i64,
}

spec fn stamp_view(st: Stamp) -> (int, int, int) {
    (st.start as int, st.value_end as int, st.end as int)
}

/// The stamp that starts at `i`, if one does.
fn stamp_at_exec(s: &[char], i: usize, enhanced: bool) -> (r: Option<Stamp>)
    requires
        i < s@.len(),
    ensures
        r is Some <==> stamp_at(s@, i as int, enhanced) is Some,
        r matches Some(st) ==> stamp_at(s@, i as int, enhanced) == Some(
            (st.value_end as int, st.end as int),
        ) && st.start == i && st.time == timestamp_value(s@, i + 1) && 0 <= st.time <= 999
            * 60000 + 99 * 1000 + 999,
{
    let open = if enhanced {
        '<'
    } else {
        '['
    };
    let close = if enhanced {
        '>'
    } else {
        ']'
    };
    if s[i] != open {
        return None;
    }
    let t = match timestamp_at(s, i + 1) {
        Some(t) => t,
        None => {
            return None;
        },
    };
    proof {
        lemma_timestamp_end_bounds(s@, i + 1);
    }
    let e = t.end;
    if e < s.len() && s[e] == close {
        return Some(Stamp { start: i, value_end: e, end: e + 1, time: t.value });
    }
    if enhanced && e < s.len() && s[e] == '|' {
        let k = find_angle_from(s, e + 1);
        if k < s.len() && s[k] == '>' {
            return Some(Stamp { start: i, value_end: e, end: k + 1, time: t.value });
        }
    }
    None
}

/// The index of the first `<` or `>` in `s[from..]`, or `s.len()`.
fn find_angle_from(s: &[char], from: usize) -> (r: usize)
    requires
        from <= s@.len(),
    ensures
        r == from + first_angle(s@.skip(from as int)),
{
    let mut i = from;
    while i < s.len() && s[i] != '<' && s[i] != '>'
        invariant
            from <= i <= s@.len(),
            first_angle(s@.skip(from as int)) == (i - from) + first_angle(s@.skip(i as int)),
        decreases s.len() - i,
    {
        assert(s@.skip(i as int).drop_first() == s@.skip(i + 1));
        i = i + 1;
    }
    i
}

/// The stamps of `s`, in order.
fn collect_stamps(s: &[char], enhanced: bool) -> (r: Vec<Stamp>)
    ensures
        r@.map_values(|st: Stamp| stamp_view(st)) == stamps_from(s@, 0, enhanced),
        forall|k: int| 0 <= k < r@.len() ==> (#[trigger] r@[k]).time == stamp_time(s@, stamp_view(r@[k])),
        forall|k: int| 0 <= k < r@.len() ==> 0 <= (#[trigger] r@[k]).time <= 999 * 60000 + 99 * 1000 + 999,
{
    let mut out: Vec<Stamp> = Vec::new();
    let mut p: usize = 0;
    while p < s.len()
        invariant
            0 <= p <= s@.len(),
            stamps_from(s@, 0, enhanced) == out@.map_values(|st: Stamp| stamp_view(st))
                + stamps_from(s@, p as int, enhanced),
            forall|k: int| 0 <= k < out@.len() ==> (#[trigger] out@[k]).time == stamp_time(s@, stamp_view(out@[k])),
            forall|k: int| 0 <= k < out@.len() ==> 0 <= (#[trigger] out@[k]).time <= 999 * 60000 + 99 * 1000 + 999,
        decreases s.len() - p,
    {
        let ghost before = out@.map_values(|st: Stamp| stamp_view(st));
        match stamp_at_exec(s, p, enhanced) {
            Some(st) => {
                proof {
                    lemma_timestamp_end_bounds(s@, p + 1);
                    if enhanced && !(st.value_end < s@.len() && s@[st.value_end as int] == '>') {
                        lemma_first_angle(s@.skip(st.value_end + 1));
                    }
                }
                out.push(st);
                assert(out@.map_values(|st: Stamp| stamp_view(st)) == before.push(stamp_view(st)));
                assert(stamps_from(s@, p as int, enhanced) == seq![stamp_view(st)] + stamps_from(
                    s@,
                    st.end as int,
                    enhanced,
                ));
                assert(before + (seq![stamp_view(st)] + stamps_from(s@, st.end as int, enhanced))
                    == before.push(stamp_view(st)) + stamps_from(s@, st.end as int, enhanced));
                p = st.end;
            },
            None => {
                p = p + 1;
            },
        }
    }
    assert(stamps_from(s@, p as int, enhanced) == Seq::<(int, int, int)>::empty());
    assert(out@.map_values(|st: Stamp| stamp_view(st)) + Seq::<(int, int, int)>::empty()
        == out@.map_values(|st: Stamp| stamp_view(st)));
    out
}


// ---------------------------------------------------------------------------
// plain LRC lines: `[t1][t2]...text`
// ---------------------------------------------------------------------------

/// The `[timestamp]` blocks that start the line at `p` and follow each other.
pub open spec fn plain_blocks(s: Seq<char>, p: int) -> Seq<(int, int, int)>
    decreases s.len() - p,
{
    if p < 0 || p >= s.len() {
        Seq::empty()
    } else {
        match stamp_at(s, p, false) {
            Some((ve, me)) => if me > p {
                seq![(p, ve, me)] + plain_blocks(s, me)
            } else {
                Seq::empty()
            },
            None => Seq::empty(),
        }
    }
}

/// A line at time `t`, shown for two seconds, with the given text.
pub open spec fn plain_line_view(t: int, text: Seq<char>) -> LineView {
    LineView {
        start_ms: Some(t as i64),
        end_ms: Some((t + 2000) as i64),
        text,
        words: Seq::empty(),
        link_key: None,
        agent_id: None,
    }
}

/// What `parse_plain_line` returns: one line per leading timestamp block,
/// each with the text that follows the blocks; nothing when the line does not
/// start with a block.
pub open spec fn plain_lines(line: Seq<char>) -> Seq<LineView> {
    let b = plain_blocks(line, 0);
    if b.len() == 0 {
        Seq::empty()
    } else {
        b.map_values(|st: (int, int, int)| plain_line_view(stamp_time(line, st), line.skip(b.last().2)))
    }
}

/// The views of a list of lines.
pub open spec fn lines_view(lines: Seq<LyricsLine>) -> Seq<LineView> {
    lines.map_values(|l: LyricsLine| l@)
}

/// `parse_plain_line`: the lines of a plain LRC line.
pub fn parse_plain_line(line: &[char]) -> (r: Vec<LyricsLine>)
    ensures
        lines_view(r@) == plain_lines(line@),
{
    let mut times: Vec<i64> = Vec::new();
    let ghost mut blocks: Seq<(int, int, int)> = Seq::empty();
    let mut p: usize = 0;
    loop
        invariant
            0 <= p <= line@.len(),
            plain_blocks(line@, 0) == blocks + plain_blocks(line@, p as int),
            times@.len() == blocks.len(),
            forall|k: int| 0 <= k < blocks.len() ==> #[trigger] times@[k] == stamp_time(line@, blocks[k]),
            forall|k: int| 0 <= k < times@.len() ==> 0 <= #[trigger] times@[k] <= 999 * 60000 + 99 * 1000 + 999,
            blocks.len() > 0 ==> blocks.last().2 == p,
            blocks.len() == 0 ==> p == 0,
        ensures
            plain_blocks(line@, p as int) == Seq::<(int, int, int)>::empty(),
        decreases line@.len() - p,
    {
        if p >= line.len() {
            break;
        }
        match stamp_at_exec(line, p, false) {
            Some(st) => {
                proof {
                    lemma_timestamp_end_bounds(line@, p + 1);
                    assert(plain_blocks(line@, p as int) == seq![stamp_view(st)] + plain_blocks(
                        line@,
                        st.end as int,
                    ));
                    assert(blocks + (seq![stamp_view(st)] + plain_blocks(line@, st.end as int))
                        == blocks.push(stamp_view(st)) + plain_blocks(line@, st.end as int));
                    blocks = blocks.push(stamp_view(st));
                }
                times.push(st.time);
                p = st.end;
            },
            None => {
                break;
            },
        }
    }
    assert(plain_blocks(line@, p as int) == Seq::<(int, int, int)>::empty());
    assert(blocks + Seq::<(int, int, int)>::empty() == blocks);
    let mut out: Vec<LyricsLine> = Vec::new();
    if times.len() == 0 {
        assert(lines_view(out@) =~= plain_lines(line@));
        return out;
    }
    let mut k: usize = 0;
    while k < times.len()
        invariant
            0 <= k <= times@.len(),
            times@.len() == blocks.len(),
            blocks.len() > 0,
            blocks.last().2 == p,
            p <= line@.len(),
            forall|j: int| 0 <= j < blocks.len() ==> #[trigger] times@[j] == stamp_time(line@, blocks[j]),
            forall|j: int| 0 <= j < times@.len() ==> 0 <= #[trigger] times@[j] <= 999 * 60000 + 99 * 1000 + 999,
            out@.len() == k,
            forall|j: int| 0 <= j < k ==> #[trigger] out@[j]@ == plain_line_view(times@[j] as int, line@.skip(p as int)),
        decreases times.len() - k,
    {
        let t = times[k];
        let text = string_of_range(line, p, line.len());
        assert(line@.subrange(p as int, line@.len() as int) == line@.skip(p as int));
        let l = LyricsLine {
            start_ms: Some(t),
            end_ms: Some(t + 2000),
            text,
            words: Vec::new(),
            link_key: None,
            agent_id: None,
        };
        assert(l@.words =~= Seq::<WordView>::empty());
        out.push(l);
        k = k + 1;
    }
    assert(lines_view(out@) =~= plain_lines(line@));
    out
}

// ---------------------------------------------------------------------------
// timed lines: enhanced `[t]<t>w<t>w<t>` and verbatim `[t]w[t]w[t]`
// ---------------------------------------------------------------------------

/// The part of a timed line that holds the words, and the line's own start
/// time: an enhanced line may begin with a `[timestamp]` that gives it.
pub open spec fn timed_source(line: Seq<char>, enhanced: bool) -> (Seq<char>, Option<int>) {
    if enhanced && line.len() > 0 && line[0] == '[' && first_index_of(line, ']') < line.len() {
        let end = first_index_of(line, ']');
        match lrc_time_value(line.subrange(1, end)) {
            Some(t) => (line.skip(end + 1), Some(t)),
            None => (line, None),
        }
    } else {
        (line, None)
    }
}

/// The word that stamp `k` opens: it lasts until the next stamp, else until
/// the explicit end, else for half a second; its text runs to the next stamp.
pub open spec fn timed_word(
    src: Seq<char>,
    st: Seq<(int, int, int)>,
    k: int,
    explicit_end: Option<int>,
) -> WordView {
    let start = stamp_time(src, st[k]);
    let end = if k + 1 < st.len() {
        stamp_time(src, st[k + 1])
    } else {
        match explicit_end {
            Some(e) => e,
            None => start + 500,
        }
    };
    let content_end = if k + 1 < st.len() {
        st[k + 1].0
    } else {
        src.len() as int
    };
    WordView {
        start_ms: Some(start as i64),
        end_ms: Some(end as i64),
        text: src.subrange(st[k].2, content_end),
    }
}

/// The words of the first `n` stamps, leaving out those with empty text.
pub open spec fn timed_words(
    src: Seq<char>,
    st: Seq<(int, int, int)>,
    n: int,
    explicit_end: Option<int>,
) -> Seq<WordView>
    decreases n,
{
    if n <= 0 {
        Seq::empty()
    } else {
        let p = timed_words(src, st, n - 1, explicit_end);
        let w = timed_word(src, st, n - 1, explicit_end);
        if w.text.len() == 0 {
            p
        } else {
            p.push(w)
        }
    }
}

proof fn lemma_timed_words_from_stamps(
    src: Seq<char>,
    st: Seq<(int, int, int)>,
    n: int,
    explicit_end: Option<int>,
)
    ensures
        forall|i: int| 0 <= i < timed_words(src, st, n, explicit_end).len() ==> exists|k: int|
            0 <= k < n && #[trigger] timed_words(src, st, n, explicit_end)[i] == timed_word(
                src,
                st,
                k,
                explicit_end,
            ),
    decreases n,
{
    if n > 0 {
        lemma_timed_words_from_stamps(src, st, n - 1, explicit_end);
        let p = timed_words(src, st, n - 1, explicit_end);
        let w = timed_words(src, st, n, explicit_end);
        assert forall|i: int| 0 <= i < w.len() implies exists|k: int|
            0 <= k < n && #[trigger] w[i] == timed_word(src, st, k, explicit_end) by {
            if i < p.len() {
                assert(w[i] == p[i]);
                let k = choose|k: int| 0 <= k < n - 1 && p[i] == timed_word(src, st, k, explicit_end);
                assert(0 <= k < n && w[i] == timed_word(src, st, k, explicit_end));
            } else {
                assert(w[i] == timed_word(src, st, n - 1, explicit_end));
            }
        }
    }
}

/// In a parsed enhanced or verbatim line every word starts at one of the
/// line's stamps and ends where the next stamp begins; only a word after
/// the last stamp (with no closing stamp) lasts half a second. So a word
/// never runs over the word that follows it.
pub proof fn timed_words_end_at_next_stamp(line: Seq<char>, enhanced: bool)
    ensures
        ({
            let src = timed_source(line, enhanced).0;
            let st = stamps_from(src, 0, enhanced);
            timed_line(line, enhanced) matches Some(l) ==> forall|i: int| 0 <= i < l.words.len() ==> exists|k: int|
                #![trigger st[k]]
                0 <= k < st.len() && (#[trigger] l.words[i]).start_ms == Some(stamp_time(src, st[k]) as i64) && (k + 1
                    < st.len() ==> l.words[i].end_ms == Some(stamp_time(src, st[k + 1]) as i64)) && (k + 1
                    == st.len() ==> l.words[i].end_ms == Some((stamp_time(src, st[k]) + 500) as i64))
        }),
{
    let src = timed_source(line, enhanced).0;
    let st = stamps_from(src, 0, enhanced);
    if timed_line(line, enhanced) is Some && st.len() > 0 {
        let has_end = st.len() > 1 && st.last().2 == src.len();
        let count = if has_end {
            st.len() - 1
        } else {
            st.len() as int
        };
        let explicit_end = if has_end {
            Some(stamp_time(src, st.last()))
        } else {
            None
        };
        let words = timed_words(src, st, count, explicit_end);
        lemma_timed_words_from_stamps(src, st, count, explicit_end);
        let l = timed_line(line, enhanced)->0;
        assert(l.words == words);
        assert forall|i: int| 0 <= i < l.words.len() implies exists|k: int|
            #![trigger st[k]]
            0 <= k < st.len() && (#[trigger] l.words[i]).start_ms == Some(stamp_time(src, st[k]) as i64) && (k + 1
                < st.len() ==> l.words[i].end_ms == Some(stamp_time(src, st[k + 1]) as i64)) && (k + 1
                == st.len() ==> l.words[i].end_ms == Some((stamp_time(src, st[k]) + 500) as i64)) by {
            let k = choose|k: int| 0 <= k < count && words[i] == timed_word(src, st, k, explicit_end);
            assert(st[k] == st[k]);
        }
    }
}

/// What `parse_timed_line` returns for a line.
pub open spec fn timed_line(line: Seq<char>, enhanced: bool) -> Option<LineView> {
    let src = timed_source(line, enhanced).0;
    let line_start = timed_source(line, enhanced).1;
    let st = stamps_from(src, 0, enhanced);
    let start = match line_start {
        Some(t) => Some(t),
        None => if st.len() > 0 {
            Some(stamp_time(src, st[0]))
        } else {
            None
        },
    };
    match start {
        None => None,
        Some(start) => if st.len() == 0 {
            Some(plain_line_view(start, src))
        } else {
            let has_end = st.len() > 1 && st.last().2 == src.len();
            let count = if has_end {
                st.len() - 1
            } else {
                st.len() as int
            };
            let explicit_end = if has_end {
                Some(stamp_time(src, st.last()))
            } else {
                None
            };
            let words = timed_words(src, st, count, explicit_end);
            let end = match explicit_end {
                Some(e) => e,
                None => if words.len() > 0 {
                    words.last().end_ms->0 as int
                } else {
                    start + 2000
                },
            };
            Some(
                LineView {
                    start_ms: Some(start as i64),
                    end_ms: Some(end as i64),
                    text: words_text(words),
                    words,
                    link_key: None,
                    agent_id: None,
                },
            )
        },
    }
}

/// The view of an optional line.
pub open spec fn opt_line_view(l: Option<LyricsLine>) -> Option<LineView> {
    match l {
        Some(l) => Some(l@),
        None => None,
    }
}

/// The source part and the line start of a timed line (see [`timed_source`]).
fn timed_source_exec(line: &[char], enhanced: bool) -> (r: (Vec<char>, Option<i64>))
    ensures
        r.0@ == timed_source(line@, enhanced).0,
        r.1 matches Some(t) ==> timed_source(line@, enhanced).1 == Some(t as int) && 0 <= t <= 999
            * 60000 + 99 * 1000 + 999,
        r.1 is None ==> timed_source(line@, enhanced).1 is None,
{
    let mut src_from: usize = 0;
    let mut line_start: Option<i64> = None;
    if enhanced && line.len() > 0 && line[0] == '[' {
        let end = find_char_from(line, 0, ']');
        assert(line@.skip(0) == line@);
        if end < line.len() {
            let value = slice_range(line, 1, end);
            line_start = parse_lrc_time_chars(value.as_slice());
            if line_start.is_some() {
                src_from = end + 1;
            }
        }
    }
    let src = slice_range(line, src_from, line.len());
    assert(line@.subrange(src_from as int, line@.len() as int) == line@.skip(src_from as int));
    assert(line@.skip(0) == line@);
    (src, line_start)
}

/// The words of the first `word_count` stamps, and their concatenated text.
fn timed_words_exec(
    src: &[char],
    stamps: &Vec<Stamp>,
    word_count: usize,
    explicit_end: Option<i64>,
    Ghost(st): Ghost<Seq<(int, int, int)>>,
    Ghost(ee): Ghost<Option<int>>,
) -> (r: (Vec<LyricsWord>, String))
    requires
        word_count <= stamps@.len(),
        stamps@.len() == st.len(),
        stamps_well_formed(src@, st, 0),
        forall|k: int| 0 <= k < st.len() ==> stamp_view(#[trigger] stamps@[k]) == st[k],
        forall|k: int| 0 <= k < st.len() ==> (#[trigger] stamps@[k]).time == stamp_time(src@, st[k]),
        forall|k: int| 0 <= k < st.len() ==> 0 <= (#[trigger] stamps@[k]).time <= 999 * 60000 + 99 * 1000 + 999,
        explicit_end matches Some(e) ==> ee == Some(e as int) && 0 <= e <= 999 * 60000 + 99 * 1000 + 999,
        explicit_end is None ==> ee is None,
    ensures
        r.0@.map_values(|w: LyricsWord| w@) == timed_words(src@, st, word_count as int, ee),
        r.1@ == words_text(timed_words(src@, st, word_count as int, ee)),
        forall|j: int| 0 <= j < r.0@.len() ==> (#[trigger] r.0@[j]).end_ms is Some,
{
    let n = stamps.len();
    let mut words: Vec<LyricsWord> = Vec::new();
    let mut text = String::new();
    let mut index: usize = 0;
    while index < word_count
        invariant
            0 <= index <= word_count <= n,
            n == stamps@.len(),
            n == st.len(),
            stamps_well_formed(src@, st, 0),
            forall|k: int| 0 <= k < n ==> stamp_view(#[trigger] stamps@[k]) == st[k],
            forall|k: int| 0 <= k < n ==> (#[trigger] stamps@[k]).time == stamp_time(src@, st[k]),
            forall|k: int| 0 <= k < n ==> 0 <= (#[trigger] stamps@[k]).time <= 999 * 60000 + 99 * 1000 + 999,
            explicit_end matches Some(e) ==> ee == Some(e as int) && 0 <= e <= 999 * 60000 + 99 * 1000 + 999,
            explicit_end is None ==> ee is None,
            words@.map_values(|w: LyricsWord| w@) == timed_words(src@, st, index as int, ee),
            text@ == words_text(timed_words(src@, st, index as int, ee)),
            forall|j: int| 0 <= j < words@.len() ==> (#[trigger] words@[j]).end_ms is Some,
        decreases word_count - index,
    {
        let stamp = stamps[index];
        let content_end = if index + 1 < n {
            stamps[index + 1].start
        } else {
            src.len()
        };
        assert(st[index as int].2 <= content_end <= src@.len()) by {
            if index + 1 < n {
                assert(st[index as int].2 <= st[index + 1].0);
            }
        }
        let ghost w = timed_word(src@, st, index as int, ee);
        let ghost before = words@.map_values(|w: LyricsWord| w@);
        if stamp.end < content_end {
            let word_end: i64 = if index + 1 < n {
                stamps[index + 1].time
            } else {
                match explicit_end {
                    Some(e) => e,
                    None => stamp.time + 500,
                }
            };
            let wt = string_of_range(src, stamp.end, content_end);
            push_range(&mut text, src, stamp.end, content_end);
            let word = LyricsWord { start_ms: Some(stamp.time), end_ms: Some(word_end), text: wt };
            assert(word@ == w);
            words.push(word);
            assert(words@.map_values(|w: LyricsWord| w@) == before.push(w));
            assert(before.push(w).drop_last() == before);
        }
        index = index + 1;
    }
    (words, text)
}

/// `parse_timed_line`: reads an enhanced (`enhanced`) or verbatim line.
pub fn parse_timed_line(line: &[char], enhanced: bool) -> (r: Option<LyricsLine>)
    ensures
        opt_line_view(r) == timed_line(line@, enhanced),
{
    let (src, line_start) = timed_source_exec(line, enhanced);
    let stamps = collect_stamps(src.as_slice(), enhanced);
    let ghost st = stamps_from(src@, 0, enhanced);
    proof {
        lemma_stamps_well_formed(src@, 0, enhanced);
        assert forall|k: int| 0 <= k < stamps@.len() implies stamp_view(#[trigger] stamps@[k])
            == st[k] by {
            assert(stamps@.map_values(|x: Stamp| stamp_view(x))[k] == stamp_view(stamps@[k]));
        }
    }
    let n = stamps.len();
    let start_ms: i64 = match line_start {
        Some(t) => t,
        None => {
            if n > 0 {
                stamps[0].time
            } else {
                return None;
            }
        },
    };
    if n == 0 {
        let l = LyricsLine {
            start_ms: Some(start_ms),
            end_ms: Some(start_ms + 2000),
            text: string_of(src.as_slice()),
            words: Vec::new(),
            link_key: None,
            agent_id: None,
        };
        assert(l@.words =~= Seq::<WordView>::empty());
        return Some(l);
    }
    let last = stamps[n - 1];
    let has_explicit_end = n > 1 && last.end == src.len();
    let word_count = if has_explicit_end {
        n - 1
    } else {
        n
    };
    let explicit_end: Option<i64> = if has_explicit_end {
        Some(last.time)
    } else {
        None
    };
    let ghost ee: Option<int> = if has_explicit_end {
        Some(last.time as int)
    } else {
        None
    };
    let (words, text) = timed_words_exec(
        src.as_slice(),
        &stamps,
        word_count,
        explicit_end,
        Ghost(st),
        Ghost(ee),
    );
    let end_ms: i64 = match explicit_end {
        Some(e) => e,
        None => {
            if words.len() > 0 {
                let k = words.len() - 1;
                assert(words@.map_values(|w: LyricsWord| w@).last() == words@[k as int]@);
                match words[k].end_ms {
                    Some(e) => e,
                    None => start_ms + 2000,
                }
            } else {
                start_ms + 2000
            }
        },
    };
    let l = LyricsLine {
        start_ms: Some(start_ms),
        end_ms: Some(end_ms),
        text,
        words,
        link_key: None,
        agent_id: None,
    };
    Some(l)
}


// ---------------------------------------------------------------------------
// sorting lines into original, translation and romanization tracks
// ---------------------------------------------------------------------------

/// Original-script letters: Han, Hiragana, Katakana or Hangul.
pub const ORIGINAL_SCRIPT_PATTERN: &'static str = "[\\p{Han}\\p{Hiragana}\\p{Katakana}\\p{Hangul}]";

/// A text made only of Latin letters, numbers, punctuation and separators.
pub const ROMANIZATION_PATTERN: &'static str = "^[\\p{Latin}\\p{Number}\\p{Punctuation}\\p{Separator}]+$";

/// A line `value` reads as the romanization of `original`: the original holds
/// original-script letters and the value only Latin text.
pub open spec fn looks_like_romanization_spec(value: Seq<char>, original: Seq<char>) -> bool {
    spec_regex_is_match(ORIGINAL_SCRIPT_PATTERN@, original) && spec_regex_is_match(
        ROMANIZATION_PATTERN@,
        value,
    )
}

/// See [`looks_like_romanization_spec`].
pub fn looks_like_romanization(value: &str, original: &str) -> (r: bool)
    ensures
        r == looks_like_romanization_spec(value@, original@),
{
    regex_is_match(ORIGINAL_SCRIPT_PATTERN, original) && regex_is_match(ROMANIZATION_PATTERN, value)
}

/// The grouping key of a line: its start time, or -1 without one.
pub open spec fn line_key(l: LineView) -> int {
    match l.start_ms {
        Some(t) => t as int,
        None => -1,
    }
}

/// The distinct start keys of the lines, in order of first appearance.
pub open spec fn group_keys(lines: Seq<LineView>) -> Seq<int> {
    first_occurrences(lines.map_values(|l: LineView| line_key(l)))
}

/// The lines whose key is `k`, in order.
pub open spec fn members(lines: Seq<LineView>, k: int) -> Seq<LineView>
    decreases lines.len(),
{
    if lines.len() == 0 {
        Seq::empty()
    } else {
        let p = members(lines.drop_last(), k);
        if line_key(lines.last()) == k {
            p.push(lines.last())
        } else {
            p
        }
    }
}

/// The link key of group `g` (counted from zero): `L1`, `L2`, ...
pub open spec fn link_text(g: int) -> Seq<char> {
    seq!['L'] + decimal((g + 1) as nat)
}

/// A line with its link key set.
pub open spec fn linked(l: LineView, key: Seq<char>) -> LineView {
    LineView { link_key: Some(key), ..l }
}

/// A secondary line: its link key set and its words dropped.
pub open spec fn secondary(l: LineView, key: Seq<char>) -> LineView {
    LineView { link_key: Some(key), words: Seq::empty(), ..l }
}

/// The index in `rest` of the first line that reads as a romanization of
/// `original`, or `rest.len()`.
pub open spec fn romanization_index(rest: Seq<LineView>, original: Seq<char>) -> int
    decreases rest.len(),
{
    if rest.len() == 0 {
        0
    } else if looks_like_romanization_spec(rest[0].text, original) {
        0
    } else {
        1 + romanization_index(rest.drop_first(), original)
    }
}

/// The lines of group `g`.
pub open spec fn group_members(lines: Seq<LineView>, g: int) -> Seq<LineView> {
    members(lines, group_keys(lines)[g])
}

/// The romanization index within group `g`'s secondary lines.
pub open spec fn group_romanization_index(lines: Seq<LineView>, g: int) -> int {
    let m = group_members(lines, g);
    romanization_index(m.drop_first(), visible_text(m[0]))
}

/// The original line of group `g`: its first line.
pub open spec fn group_original(lines: Seq<LineView>, g: int) -> LineView {
    linked(group_members(lines, g)[0], link_text(g))
}

/// The translations of group `g`: its other lines except the romanization.
pub open spec fn group_translations(lines: Seq<LineView>, g: int) -> Seq<LineView> {
    let rest = group_members(lines, g).drop_first();
    let ri = group_romanization_index(lines, g);
    let kept = if ri < rest.len() {
        rest.take(ri) + rest.skip(ri + 1)
    } else {
        rest
    };
    kept.map_values(|l: LineView| secondary(l, link_text(g)))
}

/// The romanization of group `g`, if it has one.
pub open spec fn group_romanizations(lines: Seq<LineView>, g: int) -> Seq<LineView> {
    let rest = group_members(lines, g).drop_first();
    let ri = group_romanization_index(lines, g);
    if ri < rest.len() {
        seq![secondary(rest[ri], link_text(g))]
    } else {
        Seq::empty()
    }
}

/// The translations of the first `n` groups.
pub open spec fn translations_upto(lines: Seq<LineView>, n: int) -> Seq<LineView>
    decreases n,
{
    if n <= 0 {
        Seq::empty()
    } else {
        translations_upto(lines, n - 1) + group_translations(lines, n - 1)
    }
}

/// The romanizations of the first `n` groups.
pub open spec fn romanizations_upto(lines: Seq<LineView>, n: int) -> Seq<LineView>
    decreases n,
{
    if n <= 0 {
        Seq::empty()
    } else {
        romanizations_upto(lines, n - 1) + group_romanizations(lines, n - 1)
    }
}

/// What `classify_tracks` returns: lines with the same start time form a
/// group; the first line of each group is an original line, the first other
/// line that reads as its romanization is a romanization, and the remaining
/// ones are translations. The original track always comes first; the other
/// two follow when they are not empty.
pub open spec fn classified(lines: Seq<LineView>) -> Seq<TrackView> {
    let n = group_keys(lines).len() as int;
    let original = Seq::new(n as nat, |g: int| group_original(lines, g));
    let translation = translations_upto(lines, n);
    let romanization = romanizations_upto(lines, n);
    seq![TrackView { kind: TrackType::Original, lines: original }] + (if translation.len() > 0 {
        seq![TrackView { kind: TrackType::Translation, lines: translation }]
    } else {
        Seq::empty()
    }) + (if romanization.len() > 0 {
        seq![TrackView { kind: TrackType::Romanization, lines: romanization }]
    } else {
        Seq::empty()
    })
}

proof fn lemma_members_contains(lines: Seq<LineView>, k: int)
    ensures
        lines.map_values(|l: LineView| line_key(l)).contains(k) ==> members(lines, k).len() > 0,
        forall|j: int| 0 <= j < members(lines, k).len() ==> line_key(#[trigger] members(lines, k)[j]) == k,
    decreases lines.len(),
{
    if lines.len() > 0 {
        lemma_members_contains(lines.drop_last(), k);
        let ks = lines.map_values(|l: LineView| line_key(l));
        assert(lines.drop_last().map_values(|l: LineView| line_key(l)) == ks.drop_last());
        if ks.contains(k) && line_key(lines.last()) != k {
            let j = choose|j: int| 0 <= j < ks.len() && ks[j] == k;
            assert(j < ks.len() - 1);
            assert(ks.drop_last()[j] == k);
        }
        let p = members(lines.drop_last(), k);
        assert forall|j: int| 0 <= j < members(lines, k).len() implies line_key(
            #[trigger] members(lines, k)[j],
        ) == k by {
            if j < p.len() {
                assert(members(lines, k)[j] == p[j]);
            }
        }
    }
}

proof fn lemma_first_occurrences_contains<A>(s: Seq<A>)
    ensures
        forall|j: int| 0 <= j < first_occurrences(s).len() ==> s.contains(#[trigger] first_occurrences(s)[j]),
        forall|j: int| 0 <= j < s.len() ==> first_occurrences(s).contains(#[trigger] s[j]),
    decreases s.len(),
{
    if s.len() > 0 {
        lemma_first_occurrences_contains(s.drop_last());
        let p = first_occurrences(s.drop_last());
        assert forall|j: int| 0 <= j < first_occurrences(s).len() implies s.contains(
            #[trigger] first_occurrences(s)[j],
        ) by {
            if j < p.len() {
                assert(first_occurrences(s)[j] == p[j]);
                let i = choose|i: int| 0 <= i < s.drop_last().len() && s.drop_last()[i] == p[j];
                assert(s[i] == p[j]);
            } else {
                assert(first_occurrences(s)[j] == s.last());
                assert(s[s.len() - 1] == s.last());
            }
        }
        assert forall|j: int| 0 <= j < s.len() implies first_occurrences(s).contains(#[trigger] s[j]) by {
            if j < s.len() - 1 {
                assert(s[j] == s.drop_last()[j]);
                assert(p.contains(s[j]));
                let i = choose|i: int| 0 <= i < p.len() && p[i] == s[j];
                assert(first_occurrences(s)[i] == p[i]);
            } else if !p.contains(s.last()) {
                assert(first_occurrences(s)[p.len() as int] == s.last());
            }
        }
    }
}

/// The views of a list of lines, element-wise.
/// The key of a line, computed.
fn line_key_exec(l: &LyricsLine) -> (r: i64)
    ensures
        r == line_key(l@),
{
    match l.start_ms {
        Some(t) => t,
        None => -1,
    }
}

/// The distinct keys of the lines, in order of first appearance.
fn group_keys_exec(lines: &Vec<LyricsLine>) -> (r: Vec<i64>)
    ensures
        r@.map_values(|k: i64| k as int) == group_keys(lines_view(lines@)),
{
    let ghost ks = lines_view(lines@).map_values(|l: LineView| line_key(l));
    let mut keys: Vec<i64> = Vec::new();
    let mut i: usize = 0;
    while i < lines.len()
        invariant
            0 <= i <= lines@.len(),
            ks == lines_view(lines@).map_values(|l: LineView| line_key(l)),
            keys@.map_values(|k: i64| k as int) == first_occurrences(ks.take(i as int)),
        decreases lines.len() - i,
    {
        let k = line_key_exec(&lines[i]);
        assert(ks[i as int] == k);
        assert(ks.take(i + 1).drop_last() == ks.take(i as int));
        assert(ks.take(i + 1).last() == k);
        let mut found = false;
        let mut g: usize = 0;
        while g < keys.len()
            invariant
                0 <= g <= keys@.len(),
                found == (exists|h: int| 0 <= h < g && keys@[h] == k),
            decreases keys.len() - g,
        {
            if keys[g] == k {
                found = true;
            }
            g = g + 1;
        }
        proof {
            let fo = keys@.map_values(|k: i64| k as int);
            if found {
                let h = choose|h: int| 0 <= h < keys@.len() && keys@[h] == k;
                assert(fo[h] == k as int);
                assert(fo.contains(k as int));
            } else {
                assert(!fo.contains(k as int)) by {
                    if fo.contains(k as int) {
                        let h = choose|h: int| 0 <= h < fo.len() && fo[h] == k as int;
                        assert(keys@[h] == k);
                    }
                }
            }
        }
        if !found {
            keys.push(k);
            assert(keys@.map_values(|k: i64| k as int) =~= first_occurrences(ks.take(i + 1)));
        }
        i = i + 1;
    }
    assert(ks.take(lines@.len() as int) == ks);
    keys
}

/// The indices of the lines whose key is `k`, in order.
fn member_indices(lines: &Vec<LyricsLine>, k: i64) -> (r: Vec<usize>)
    ensures
        r@.map_values(|j: usize| lines_view(lines@)[j as int]) == members(lines_view(lines@), k as int),
        forall|j: int| 0 <= j < r@.len() ==> #[trigger] r@[j] < lines@.len(),
        forall|j: int, h: int| 0 <= j < h < r@.len() ==> r@[j] < r@[h],
{
    let ghost lv = lines_view(lines@);
    let mut out: Vec<usize> = Vec::new();
    let mut i: usize = 0;
    while i < lines.len()
        invariant
            0 <= i <= lines@.len(),
            lv == lines_view(lines@),
            out@.map_values(|j: usize| lv[j as int]) == members(lv.take(i as int), k as int),
            forall|j: int| 0 <= j < out@.len() ==> #[trigger] out@[j] < i,
            forall|j: int, h: int| 0 <= j < h < out@.len() ==> out@[j] < out@[h],
        decreases lines.len() - i,
    {
        assert(lv.take(i + 1).drop_last() == lv.take(i as int));
        assert(lv.take(i + 1).last() == lines@[i as int]@);
        if line_key_exec(&lines[i]) == k {
            out.push(i);
            assert(out@.map_values(|j: usize| lv[j as int]) =~= members(lv.take(i as int), k as int).push(lv[i as int]));
        }
        i = i + 1;
    }
    assert(lv.take(lines@.len() as int) == lv);
    out
}

/// The link key text `L<n>` for group `g` (counted from zero).
pub(crate) fn link_key_exec(g: usize) -> (r: String)
    requires
        g < u64::MAX,
    ensures
        r@ == link_text(g as int),
{
    let mut s = String::new();
    push_char(&mut s, 'L');
    push_decimal(&mut s, g as u64 + 1);
    s
}

/// A copy of a line with its link key set (and, for secondary lines, its
/// words dropped).
fn relinked(l: &LyricsLine, key: &String, drop_words: bool) -> (r: LyricsLine)
    ensures
        r@ == if drop_words {
            secondary(l@, key@)
        } else {
            linked(l@, key@)
        },
{
    let mut c = copy_line(l);
    c.link_key = Some(key.clone());
    if drop_words {
        c.words = Vec::new();
        assert(c@.words =~= Seq::<WordView>::empty());
    }
    c
}

/// `classify_tracks`: sorts parsed lines into tracks (see [`classified`]).
pub fn classify_tracks(lines: Vec<LyricsLine>) -> (r: Vec<LyricsTrack>)
    ensures
        r@.map_values(|t: LyricsTrack| t@) == classified(lines_view(lines@)),
{
    let ghost lv = lines_view(lines@);
    let keys = group_keys_exec(&lines);
    let ghost gk = group_keys(lv);
    proof {
        lemma_first_occurrences_contains(lv.map_values(|l: LineView| line_key(l)));
    }
    let mut original: Vec<LyricsLine> = Vec::new();
    let mut translation: Vec<LyricsLine> = Vec::new();
    let mut romanization: Vec<LyricsLine> = Vec::new();
    let mut g: usize = 0;
    while g < keys.len()
        invariant
            0 <= g <= keys@.len(),
            lv == lines_view(lines@),
            gk == group_keys(lv),
            keys@.map_values(|k: i64| k as int) == gk,
            forall|j: int| 0 <= j < gk.len() ==> lv.map_values(|l: LineView| line_key(l)).contains(#[trigger] gk[j]),
            lines_view(original@) == Seq::new(g as nat, |h: int| group_original(lv, h)),
            lines_view(translation@) == translations_upto(lv, g as int),
            lines_view(romanization@) == romanizations_upto(lv, g as int),
        decreases keys.len() - g,
    {
        let k = keys[g];
        assert(gk[g as int] == k as int);
        let idx = member_indices(&lines, k);
        let ghost m = group_members(lv, g as int);
        proof {
            lemma_members_contains(lv, k as int);
            assert(m == idx@.map_values(|j: usize| lv[j as int]));
        }
        assert(idx@.len() > 0);
        let key = link_key_exec(g);
        let first = &lines[idx[0]];
        assert(m[0] == first@);
        let first_text = line_visible_text(first);
        let ghost before_o = lines_view(original@);
        original.push(relinked(first, &key, false));
        assert(lines_view(original@) =~= Seq::new((g + 1) as nat, |h: int| group_original(lv, h))) by {
            assert(lines_view(original@) == before_o.push(group_original(lv, g as int)));
        }
        // The romanization index within the other lines of the group.
        let ghost rest = m.drop_first();
        assert(rest.skip(0) == rest);
        let mut ri: usize = 1;
        while ri < idx.len() && !looks_like_romanization(lines[idx[ri]].text.as_str(), first_text.as_str())
            invariant
                1 <= ri <= idx@.len(),
                forall|j: int| 0 <= j < idx@.len() ==> #[trigger] idx@[j] < lines@.len(),
                m == idx@.map_values(|j: usize| lv[j as int]),
                rest == m.drop_first(),
                lv == lines_view(lines@),
                first_text@ == visible_text(m[0]),
                romanization_index(rest, visible_text(m[0])) == (ri - 1) + romanization_index(rest.skip(ri - 1), visible_text(m[0])),
            decreases idx.len() - ri,
        {
            assert(rest.skip(ri - 1)[0] == lines@[idx@[ri as int] as int]@);
            assert(rest.skip(ri - 1).drop_first() == rest.skip(ri as int));
            ri = ri + 1;
        }
        proof {
            if ri < idx.len() {
                assert(rest.skip(ri - 1)[0] == lines@[idx@[ri as int] as int]@);
            }
            assert(group_romanization_index(lv, g as int) == ri - 1);
        }
        let ghost before_t = lines_view(translation@);
        let ghost before_r = lines_view(romanization@);
        let mut j: usize = 1;
        while j < idx.len()
            invariant
                1 <= j <= idx@.len(),
                1 <= ri <= idx@.len(),
                forall|h: int| 0 <= h < idx@.len() ==> #[trigger] idx@[h] < lines@.len(),
                m == idx@.map_values(|h: usize| lv[h as int]),
                rest == m.drop_first(),
                lv == lines_view(lines@),
                key@ == link_text(g as int),
                group_romanization_index(lv, g as int) == ri - 1,
                lines_view(translation@) == before_t + (if ri < j {
                    rest.take(ri - 1) + rest.subrange(ri as int, j - 1)
                } else {
                    rest.take(j - 1)
                }).map_values(|l: LineView| secondary(l, link_text(g as int))),
                lines_view(romanization@) == before_r + (if ri < j {
                    seq![secondary(rest[ri - 1], link_text(g as int))]
                } else {
                    Seq::empty()
                }),
            decreases idx.len() - j,
        {
            let line = relinked(&lines[idx[j]], &key, true);
            assert(rest[j - 1] == lines@[idx@[j as int] as int]@);
            let ghost old_kept = if ri < j {
                rest.take(ri - 1) + rest.subrange(ri as int, j - 1)
            } else {
                rest.take(j - 1)
            };
            let ghost old_t = lines_view(translation@);
            let ghost f = |l: LineView| secondary(l, link_text(g as int));
            if j == ri {
                romanization.push(line);
                assert(rest.take(ri - 1) + rest.subrange(ri as int, ri as int) =~= rest.take(
                    ri - 1,
                ));
            } else {
                translation.push(line);
                assert(lines_view(translation@) =~= old_t.push(f(rest[j - 1])));
                if ri < j {
                    assert(rest.take(ri - 1) + rest.subrange(ri as int, j as int) =~= old_kept.push(
                        rest[j - 1],
                    ));
                } else {
                    assert(rest.take(j as int) =~= old_kept.push(rest[j - 1]));
                }
                assert(old_kept.push(rest[j - 1]).map_values(f) =~= old_kept.map_values(f).push(
                    f(rest[j - 1]),
                ));
            }
            j = j + 1;
        }
        proof {
            if ri < idx.len() {
                assert(rest.take(ri - 1) + rest.subrange(ri as int, rest.len() as int) =~= rest.take(ri - 1) + rest.skip(ri as int));
            } else {
                assert(rest.take(rest.len() as int) == rest);
            }
            assert(lines_view(translation@) =~= translations_upto(lv, g + 1));
            assert(lines_view(romanization@) =~= romanizations_upto(lv, g + 1));
        }
        g = g + 1;
    }
    let mut tracks: Vec<LyricsTrack> = Vec::new();
    let n_translation = translation.len();
    let n_romanization = romanization.len();
    tracks.push(LyricsTrack::new(TrackType::Original, original));
    if n_translation > 0 {
        tracks.push(LyricsTrack::new(TrackType::Translation, translation));
    }
    if n_romanization > 0 {
        tracks.push(LyricsTrack::new(TrackType::Romanization, romanization));
    }
    assert(tracks@.map_values(|t: LyricsTrack| t@) =~= classified(lv));
    tracks
}

/// The number of lines the tracks hold together.
pub open spec fn total_lines(tracks: Seq<TrackView>) -> int
    decreases tracks.len(),
{
    if tracks.len() == 0 {
        0
    } else {
        total_lines(tracks.drop_last()) + tracks.last().lines.len()
    }
}

/// The number of lines whose key is one of `ks`, group by group.
spec fn members_total(lines: Seq<LineView>, ks: Seq<int>) -> int
    decreases ks.len(),
{
    if ks.len() == 0 {
        0
    } else {
        members_total(lines, ks.drop_last()) + members(lines, ks.last()).len()
    }
}

/// How many times `x` occurs in `ks`.
spec fn occurrences(ks: Seq<int>, x: int) -> int
    decreases ks.len(),
{
    if ks.len() == 0 {
        0
    } else {
        occurrences(ks.drop_last(), x) + if ks.last() == x {
            1int
        } else {
            0int
        }
    }
}

proof fn lemma_occurrences_once(ks: Seq<int>, x: int)
    requires
        ks.no_duplicates(),
    ensures
        occurrences(ks, x) == if ks.contains(x) {
            1int
        } else {
            0int
        },
    decreases ks.len(),
{
    if ks.len() > 0 {
        let p = ks.drop_last();
        assert(p.no_duplicates());
        lemma_occurrences_once(p, x);
        if ks.last() == x && p.contains(x) {
            let j = choose|j: int| 0 <= j < p.len() && p[j] == x;
            assert(ks[j] == ks[ks.len() - 1]);
        }
        if ks.contains(x) && ks.last() != x {
            let j = choose|j: int| 0 <= j < ks.len() && ks[j] == x;
            assert(p[j] == x);
        }
        if p.contains(x) {
            let j = choose|j: int| 0 <= j < p.len() && p[j] == x;
            assert(ks[j] == x);
        }
    }
}

proof fn lemma_members_total_step(p: Seq<LineView>, l: LineView, ks: Seq<int>)
    ensures
        members_total(p.push(l), ks) == members_total(p, ks) + occurrences(ks, line_key(l)),
    decreases ks.len(),
{
    if ks.len() > 0 {
        lemma_members_total_step(p, l, ks.drop_last());
        assert(p.push(l).drop_last() == p);
    }
}

proof fn lemma_members_total_all(lines: Seq<LineView>, ks: Seq<int>)
    requires
        ks.no_duplicates(),
        forall|i: int| 0 <= i < lines.len() ==> ks.contains(line_key(#[trigger] lines[i])),
    ensures
        members_total(lines, ks) == lines.len(),
    decreases lines.len(),
{
    if lines.len() == 0 {
        assert(members_total(lines, ks) == 0) by {
            lemma_members_total_empty(lines, ks);
        }
    } else {
        let p = lines.drop_last();
        assert forall|i: int| 0 <= i < p.len() implies ks.contains(line_key(#[trigger] p[i])) by {
            assert(p[i] == lines[i]);
        }
        lemma_members_total_all(p, ks);
        assert(lines == p.push(lines.last()));
        lemma_members_total_step(p, lines.last(), ks);
        assert(ks.contains(line_key(lines[lines.len() - 1])));
        lemma_occurrences_once(ks, line_key(lines.last()));
    }
}

proof fn lemma_members_total_empty(lines: Seq<LineView>, ks: Seq<int>)
    requires
        lines.len() == 0,
    ensures
        members_total(lines, ks) == 0,
    decreases ks.len(),
{
    if ks.len() > 0 {
        lemma_members_total_empty(lines, ks.drop_last());
    }
}

proof fn lemma_group_size(lines: Seq<LineView>, g: int)
    requires
        group_members(lines, g).len() > 0,
    ensures
        1 + group_translations(lines, g).len() + group_romanizations(lines, g).len() == group_members(
            lines,
            g,
        ).len(),
{
    let rest = group_members(lines, g).drop_first();
    let m = group_members(lines, g);
    let ri = group_romanization_index(lines, g);
    lemma_romanization_index_bounds(rest, visible_text(m[0]));
    if ri < rest.len() {
        let kept = rest.take(ri) + rest.skip(ri + 1);
        assert(kept.len() == rest.len() - 1);
    }
}

proof fn lemma_romanization_index_bounds(rest: Seq<LineView>, original: Seq<char>)
    ensures
        0 <= romanization_index(rest, original) <= rest.len(),
    decreases rest.len(),
{
    if rest.len() > 0 {
        lemma_romanization_index_bounds(rest.drop_first(), original);
    }
}

proof fn lemma_upto_sizes(lines: Seq<LineView>, n: int)
    requires
        0 <= n <= group_keys(lines).len(),
        forall|g: int| 0 <= g < n ==> #[trigger] group_members(lines, g).len() > 0,
    ensures
        n + translations_upto(lines, n).len() + romanizations_upto(lines, n).len() == members_total(
            lines,
            group_keys(lines).take(n),
        ),
    decreases n,
{
    if n > 0 {
        lemma_upto_sizes(lines, n - 1);
        lemma_group_size(lines, n - 1);
        let gk = group_keys(lines);
        assert(gk.take(n).drop_last() == gk.take(n - 1));
        assert(gk.take(n).last() == gk[n - 1]);
    } else {
        assert(group_keys(lines).take(0).len() == 0);
    }
}

/// Classifying parsed lines into tracks keeps every line: the original,
/// translation and romanization tracks together hold as many lines as were
/// parsed.
pub proof fn classification_keeps_every_line(lines: Seq<LineView>)
    ensures
        total_lines(classified(lines)) == lines.len(),
{
    let ks = lines.map_values(|l: LineView| line_key(l));
    let gk = group_keys(lines);
    let n = gk.len() as int;
    lemma_first_occurrences_contains(ks);
    crate::lyrics::model::lemma_first_occurrences_no_duplicates(ks);
    assert forall|g: int| 0 <= g < n implies #[trigger] group_members(lines, g).len() > 0 by {
        lemma_members_contains(lines, gk[g]);
    }
    lemma_upto_sizes(lines, n);
    assert(gk.take(n) == gk);
    assert forall|i: int| 0 <= i < lines.len() implies gk.contains(line_key(#[trigger] lines[i])) by {
        assert(ks[i] == line_key(lines[i]));
    }
    lemma_members_total_all(lines, gk);
    let original = Seq::new(n as nat, |g: int| group_original(lines, g));
    let translation = translations_upto(lines, n);
    let romanization = romanizations_upto(lines, n);
    let t0 = seq![TrackView { kind: TrackType::Original, lines: original }];
    let t1 = if translation.len() > 0 {
        seq![TrackView { kind: TrackType::Translation, lines: translation }]
    } else {
        Seq::<TrackView>::empty()
    };
    let t2 = if romanization.len() > 0 {
        seq![TrackView { kind: TrackType::Romanization, lines: romanization }]
    } else {
        Seq::<TrackView>::empty()
    };
    let all = classified(lines);
    assert(all == t0 + t1 + t2);
    assert(total_lines(t0) == n) by {
        assert(t0.drop_last().len() == 0);
        assert(total_lines(t0.drop_last()) == 0);
        assert(t0.last().lines == original);
    }
    assert(total_lines(t0 + t1) == n + translation.len()) by {
        if translation.len() > 0 {
            assert((t0 + t1).drop_last() == t0);
        } else {
            assert(t0 + t1 == t0);
        }
    }
    assert(total_lines(all) == n + translation.len() + romanization.len()) by {
        if romanization.len() > 0 {
            assert(all.drop_last() == t0 + t1);
        } else {
            assert(all == t0 + t1);
        }
    }
}


/// Classifying sorts the lines into groups by start time: the original track
/// comes first, with one line per distinct start key, each key once, the
/// keys being exactly those of the given lines; the original line of group
/// `g` is its first line with the link key `L{g+1}`; every translation and
/// romanization line of the group carries that link key and no words; and a
/// group has at most one romanization.
pub proof fn classification_groups(lines: Seq<LineView>)
    ensures
        classified(lines)[0].kind == TrackType::Original,
        classified(lines)[0].lines.len() == group_keys(lines).len(),
        group_keys(lines).no_duplicates(),
        forall|k: int| #[trigger] group_keys(lines).contains(k)
            <==> lines.map_values(|l: LineView| line_key(l)).contains(k),
        forall|g: int| 0 <= g < group_keys(lines).len() ==> {
            &&& #[trigger] classified(lines)[0].lines[g] == linked(group_members(lines, g)[0], link_text(g))
            &&& group_romanizations(lines, g).len() <= 1
            &&& forall|j: int| 0 <= j < group_translations(lines, g).len() ==> {
                &&& (#[trigger] group_translations(lines, g)[j]).link_key == Some(link_text(g))
                &&& group_translations(lines, g)[j].words.len() == 0
            }
            &&& forall|j: int| 0 <= j < group_romanizations(lines, g).len() ==> {
                &&& (#[trigger] group_romanizations(lines, g)[j]).link_key == Some(link_text(g))
                &&& group_romanizations(lines, g)[j].words.len() == 0
            }
        },
{
    let ks = lines.map_values(|l: LineView| line_key(l));
    lemma_first_occurrences_contains(ks);
    crate::lyrics::model::lemma_first_occurrences_no_duplicates(ks);
    assert forall|k: int| #[trigger] group_keys(lines).contains(k) <==> ks.contains(k) by {
        if group_keys(lines).contains(k) {
            let j = choose|j: int| 0 <= j < group_keys(lines).len() && group_keys(lines)[j] == k;
            assert(ks.contains(group_keys(lines)[j]));
        }
        if ks.contains(k) {
            let j = choose|j: int| 0 <= j < ks.len() && ks[j] == k;
            assert(group_keys(lines).contains(ks[j]));
        }
    }
}

// ---------------------------------------------------------------------------
// documents
// ---------------------------------------------------------------------------

/// One character matched by the regex class `\w` (Unicode word characters).
pub const WORD_CHAR_PATTERN: &'static str = "^\\w$";

/// Whether `c` is a Unicode word character (the regex class `\w`).
pub open spec fn is_word_char(c: char) -> bool {
    spec_regex_is_match(WORD_CHAR_PATTERN@, seq![c])
}

fn is_word_char_exec(c: char) -> (r: bool)
    ensures
        r == is_word_char(c),
{
    let mut s = String::new();
    push_char(&mut s, c);
    assert(s@ == seq![c]);
    regex_is_match(WORD_CHAR_PATTERN, s.as_str())
}

/// An ASCII letter.
pub open spec fn is_ascii_letter(c: char) -> bool {
    ('a' <= c && c <= 'z') || ('A' <= c && c <= 'Z')
}

/// The length of the run of word characters and `-` starting at `i`.
pub open spec fn key_run(s: Seq<char>, i: int) -> int
    decreases s.len() - i,
{
    if 0 <= i < s.len() && (is_word_char(s[i]) || s[i] == '-') {
        1 + key_run(s, i + 1)
    } else {
        0
    }
}

/// A tag line `[key:value]` (optionally followed by whitespace), with a key
/// that starts with an ASCII letter and goes on with word characters or `-`:
/// its key and value.
pub open spec fn tag_line(line: Seq<char>) -> Option<(Seq<char>, Seq<char>)> {
    if line.len() >= 2 && line[0] == '[' && is_ascii_letter(line[1]) {
        let ke = 2 + key_run(line, 2);
        if ke < line.len() && line[ke] == ':' {
            let ve = ke + 1 + first_index_of(line.skip(ke + 1), ']');
            if ve < line.len() && is_blank(line.skip(ve + 1)) {
                Some((line.subrange(1, ke), line.subrange(ke + 1, ve)))
            } else {
                None
            }
        } else {
            None
        }
    } else {
        None
    }
}

/// The lines that a non-tag line of the given format yields.
pub open spec fn format_lines(line: Seq<char>, format: LyricFormat) -> Seq<LineView> {
    match format {
        LyricFormat::PlainLrc => plain_lines(line),
        LyricFormat::EnhancedLrc => match timed_line(line, true) {
            Some(l) => seq![l],
            None => Seq::empty(),
        },
        LyricFormat::VerbatimLrc => match timed_line(line, false) {
            Some(l) => seq![l],
            None => Seq::empty(),
        },
        LyricFormat::Ttml => Seq::empty(),
    }
}

/// The tags and the parsed lines of a sequence of lines.
pub open spec fn parse_acc(lines: Seq<Seq<char>>, format: LyricFormat) -> (
    Seq<(Seq<char>, Seq<char>)>,
    Seq<LineView>,
)
    decreases lines.len(),
{
    if lines.len() == 0 {
        (Seq::empty(), Seq::empty())
    } else {
        let prev = parse_acc(lines.drop_last(), format);
        let line = lines.last();
        match tag_line(line) {
            Some((k, v)) => if !all_digits(k) {
                (prev.0.push((k, v)), prev.1)
            } else {
                (prev.0, prev.1 + format_lines(line, format))
            },
            None => (prev.0, prev.1 + format_lines(line, format)),
        }
    }
}

/// What `parse` returns for a text: its tag lines become the metadata, its
/// other lines are read in the given format and sorted into tracks.
pub open spec fn parsed_document(raw: Seq<char>, format: LyricFormat) -> DocumentView {
    let acc = parse_acc(lines_of(raw), format);
    DocumentView {
        tags: acc.0,
        agents: Seq::empty(),
        tracks: classified(acc.1),
        source_format: Some(format),
    }
}

/// The tag of a line, if it is a tag line.
fn tag_line_exec(line: &[char]) -> (r: Option<(String, String)>)
    ensures
        r matches Some(t) ==> tag_line(line@) == Some((t.0@, t.1@)),
        r is None ==> tag_line(line@) is None,
{
    if !(line.len() >= 2 && line[0] == '[' && (('a' <= line[1] && line[1] <= 'z') || ('A'
        <= line[1] && line[1] <= 'Z'))) {
        return None;
    }
    let mut ke: usize = 2;
    while ke < line.len() && (is_word_char_exec(line[ke]) || line[ke] == '-')
        invariant
            2 <= ke <= line@.len(),
            key_run(line@, 2) == (ke - 2) + key_run(line@, ke as int),
        decreases line.len() - ke,
    {
        ke = ke + 1;
    }
    if !(ke < line.len() && line[ke] == ':') {
        return None;
    }
    let ve = find_char_from(line, ke + 1, ']');
    if ve >= line.len() {
        return None;
    }
    let rest = slice_range(line, ve + 1, line.len());
    assert(rest@ == line@.skip(ve + 1));
    if !blank(rest.as_slice()) {
        return None;
    }
    Some((string_of_range(line, 1, ke), string_of_range(line, ke + 1, ve)))
}

/// Whether a key is made only of ASCII digits.
fn all_digits_exec(s: &String) -> (r: bool)
    ensures
        r == all_digits(s@),
{
    let v = text_chars(s.as_str());
    let mut i: usize = 0;
    while i < v.len()
        invariant
            0 <= i <= v@.len(),
            v@ == s@,
            forall|j: int| 0 <= j < i ==> is_digit(#[trigger] v@[j]),
        decreases v.len() - i,
    {
        if !('0' <= v[i] && v[i] <= '9') {
            assert(!is_digit(v@[i as int]));
            return false;
        }
        i = i + 1;
    }
    true
}

/// Appends the lines that a non-tag line yields.
fn push_format_lines(out: &mut Vec<LyricsLine>, line: &[char], format: LyricFormat)
    requires
        format != LyricFormat::Ttml,
    ensures
        lines_view(final(out)@) == lines_view(old(out)@) + format_lines(line@, format),
{
    let ghost before = lines_view(out@);
    match format {
        LyricFormat::PlainLrc => {
            let mut items = parse_plain_line(line);
            let ghost added = lines_view(items@);
            out.append(&mut items);
            assert(lines_view(out@) =~= before + added);
        },
        LyricFormat::EnhancedLrc => {
            if let Some(l) = parse_timed_line(line, true) {
                out.push(l);
            }
            assert(lines_view(out@) =~= before + format_lines(line@, format));
        },
        LyricFormat::VerbatimLrc => {
            if let Some(l) = parse_timed_line(line, false) {
                out.push(l);
            }
            assert(lines_view(out@) =~= before + format_lines(line@, format));
        },
        LyricFormat::Ttml => {},
    }
}

/// `parse`: reads an LRC text of the given format (TTML is read elsewhere).
pub fn parse(raw: &str, format: LyricFormat) -> (r: LyricsDocument)
    requires
        format != LyricFormat::Ttml,
    ensures
        r@ == parsed_document(raw@, format),
{
    let chars = text_chars(raw);
    let lines = split_lines(chars.as_slice());
    let ghost ls = lines_of(raw@);
    let mut tags: Vec<(String, String)> = Vec::new();
    let mut parsed: Vec<LyricsLine> = Vec::new();
    let mut i: usize = 0;
    while i < lines.len()
        invariant
            0 <= i <= lines@.len(),
            format != LyricFormat::Ttml,
            lines@.len() == ls.len(),
            ls == lines_of(raw@),
            forall|j: int| 0 <= j < lines@.len() ==> #[trigger] lines@[j]@ == ls[j],
            tags_view(tags@) == parse_acc(ls.take(i as int), format).0,
            lines_view(parsed@) == parse_acc(ls.take(i as int), format).1,
        decreases lines.len() - i,
    {
        let line = lines[i].as_slice();
        assert(ls.take(i + 1).drop_last() == ls.take(i as int));
        assert(ls.take(i + 1).last() == line@);
        let ghost before = tags_view(tags@);
        match tag_line_exec(line) {
            Some((key, value)) => {
                if !all_digits_exec(&key) {
                    tags.push((key, value));
                    assert(tags_view(tags@) =~= before.push((key@, value@)));
                } else {
                    push_format_lines(&mut parsed, line, format);
                }
            },
            None => {
                push_format_lines(&mut parsed, line, format);
            },
        }
        i = i + 1;
    }
    assert(ls.take(lines@.len() as int) == ls);
    let tracks = classify_tracks(parsed);
    let doc = LyricsDocument {
        metadata: LyricsMetadata::from_lrc_tags(tags),
        agents: Vec::new(),
        tracks,
        source_format: Some(format),
    };
    assert(doc@.agents =~= Seq::<Seq<char>>::empty());
    doc
}


// ---------------------------------------------------------------------------
// writing
// ---------------------------------------------------------------------------

/// The words with untimed words merged into their neighbours: the text of an
/// untimed word goes to the end of the timed word before it, or, before the
/// first timed word, to the start of that word.
pub open spec fn resolve_acc(words: Seq<WordView>) -> (Seq<WordView>, Seq<char>)
    decreases words.len(),
{
    if words.len() == 0 {
        (Seq::empty(), Seq::empty())
    } else {
        let prev = resolve_acc(words.drop_last());
        let w = words.last();
        if w.start_ms is None {
            if prev.0.len() > 0 {
                let l = prev.0.last();
                (prev.0.drop_last().push(WordView { text: l.text + w.text, ..l }), prev.1)
            } else {
                (prev.0, prev.1 + w.text)
            }
        } else {
            (prev.0.push(WordView { text: prev.1 + w.text, ..w }), Seq::empty())
        }
    }
}

/// What `resolved_timed_words` returns (see [`resolve_acc`]); text that no
/// timed word follows or precedes is dropped.
pub open spec fn resolved_words(words: Seq<WordView>) -> Seq<WordView> {
    resolve_acc(words).0
}

proof fn lemma_resolve_acc(words: Seq<WordView>)
    ensures
        forall|j: int| 0 <= j < resolve_acc(words).0.len() ==> (#[trigger] resolve_acc(words).0[j]).start_ms is Some,
        resolve_acc(words).0.len() > 0 ==> resolve_acc(words).1.len() == 0,
    decreases words.len(),
{
    if words.len() > 0 {
        lemma_resolve_acc(words.drop_last());
        let prev = resolve_acc(words.drop_last());
        let cur = resolve_acc(words);
        assert forall|j: int| 0 <= j < cur.0.len() implies (#[trigger] cur.0[j]).start_ms is Some by {
            if j < prev.0.len() && j < cur.0.len() - 1 {
                assert(cur.0[j] == prev.0[j]);
            } else if j < prev.0.len() {
                assert(prev.0[j].start_ms is Some);
            }
        }
    }
}

/// The words that carry a start time, in order.
pub open spec fn started_words(words: Seq<WordView>) -> Seq<WordView>
    decreases words.len(),
{
    if words.len() == 0 {
        Seq::empty()
    } else {
        let p = started_words(words.drop_last());
        if words.last().start_ms is Some {
            p.push(words.last())
        } else {
            p
        }
    }
}

proof fn lemma_resolve_parts(words: Seq<WordView>)
    ensures
        resolve_acc(words).0.len() == started_words(words).len(),
        forall|i: int| 0 <= i < resolve_acc(words).0.len() ==> (#[trigger] resolve_acc(words).0[i]).start_ms
            == started_words(words)[i].start_ms && resolve_acc(words).0[i].end_ms == started_words(words)[i].end_ms,
        words_text(resolve_acc(words).0) + resolve_acc(words).1 == words_text(words),
    decreases words.len(),
{
    if words.len() > 0 {
        let ws = words.drop_last();
        lemma_resolve_parts(ws);
        lemma_resolve_acc(ws);
        let prev = resolve_acc(ws);
        let cur = resolve_acc(words);
        let w = words.last();
        if w.start_ms is None {
            if prev.0.len() > 0 {
                let l = prev.0.last();
                assert(cur.0.drop_last() =~= prev.0.drop_last());
                assert(prev.1 =~= Seq::<char>::empty());
                assert(words_text(prev.0) == words_text(prev.0.drop_last()) + l.text);
                assert(words_text(cur.0) == words_text(prev.0.drop_last()) + (l.text + w.text));
                assert(words_text(cur.0) + cur.1 =~= words_text(words));
                assert forall|i: int| 0 <= i < cur.0.len() implies (#[trigger] cur.0[i]).start_ms
                    == started_words(words)[i].start_ms && cur.0[i].end_ms == started_words(words)[i].end_ms by {
                    if i < cur.0.len() - 1 {
                        assert(cur.0[i] == prev.0[i]);
                    }
                }
            } else {
                assert(words_text(cur.0) + cur.1 =~= words_text(words));
            }
        } else {
            assert(cur.0.drop_last() =~= prev.0);
            assert(words_text(cur.0) + cur.1 =~= words_text(words));
            assert forall|i: int| 0 <= i < cur.0.len() implies (#[trigger] cur.0[i]).start_ms
                == started_words(words)[i].start_ms && cur.0[i].end_ms == started_words(words)[i].end_ms by {
                if i < cur.0.len() - 1 {
                    assert(cur.0[i] == prev.0[i]);
                }
            }
        }
    }
}

/// Resolving keeps one word for each timed word, with its start and end
/// times; when some word is timed, the texts of the resolved words put
/// together are the texts of all the words (untimed text joins the timed
/// word before it, or the first one); when none is, nothing is left.
pub proof fn resolved_words_law(words: Seq<WordView>)
    ensures
        resolved_words(words).len() == started_words(words).len(),
        forall|i: int| 0 <= i < resolved_words(words).len() ==> (#[trigger] resolved_words(words)[i]).start_ms
            == started_words(words)[i].start_ms && resolved_words(words)[i].end_ms == started_words(words)[i].end_ms,
        started_words(words).len() > 0 ==> words_text(resolved_words(words)) == words_text(words),
        started_words(words).len() == 0 ==> resolved_words(words) == Seq::<WordView>::empty(),
{
    lemma_resolve_parts(words);
    lemma_resolve_acc(words);
    if started_words(words).len() > 0 {
        assert(resolve_acc(words).1 =~= Seq::<char>::empty());
        assert(words_text(resolve_acc(words).0) + resolve_acc(words).1 =~= words_text(resolve_acc(words).0));
    } else {
        assert(resolved_words(words) =~= Seq::<WordView>::empty());
    }
}

/// The view of a list of words.
pub open spec fn words_view(words: Seq<LyricsWord>) -> Seq<WordView> {
    words.map_values(|w: LyricsWord| w@)
}

/// `resolved_timed_words`: see [`resolved_words`].
pub fn resolved_timed_words(words: &Vec<LyricsWord>) -> (r: Vec<LyricsWord>)
    ensures
        words_view(r@) == resolved_words(words_view(words@)),
        forall|j: int| 0 <= j < r@.len() ==> (#[trigger] r@[j]).start_ms is Some,
{
    let ghost wv = words_view(words@);
    let mut done: Vec<LyricsWord> = Vec::new();
    let mut current: Option<LyricsWord> = None;
    let mut pending = String::new();
    let mut i: usize = 0;
    while i < words.len()
        invariant
            0 <= i <= words@.len(),
            wv == words_view(words@),
            words_view(done@) + (match current {
                Some(c) => seq![c@],
                None => Seq::empty(),
            }) == resolve_acc(wv.take(i as int)).0,
            pending@ == resolve_acc(wv.take(i as int)).1,
            current is None ==> done@.len() == 0,
            forall|j: int| 0 <= j < done@.len() ==> (#[trigger] done@[j]).start_ms is Some,
            current matches Some(c) ==> c.start_ms is Some,
        decreases words.len() - i,
    {
        let w = &words[i];
        assert(wv.take(i + 1).drop_last() == wv.take(i as int));
        assert(wv.take(i + 1).last() == w@);
        let ghost prev_done = words_view(done@);
        match w.start_ms {
            None => {
                match current {
                    Some(mut c) => {
                        let ghost cv = c@;
                        c.text.append(w.text.as_str());
                        assert(prev_done + seq![cv] == resolve_acc(wv.take(i as int)).0);
                        assert((prev_done + seq![cv]).drop_last() == prev_done);
                        assert((prev_done + seq![cv]).last() == cv);
                        assert(prev_done + seq![c@] =~= resolve_acc(wv.take(i + 1)).0);
                        current = Some(c);
                    },
                    None => {
                        pending.append(w.text.as_str());
                    },
                }
            },
            Some(_) => {
                let mut nw = copy_word(w);
                let mut text = String::new();
                text.append(pending.as_str());
                text.append(w.text.as_str());
                nw.text = text;
                pending = String::new();
                if let Some(c) = current {
                    done.push(c);
                    assert(words_view(done@) =~= prev_done.push(c@));
                }
                current = Some(nw);
                assert(words_view(done@) + seq![nw@] =~= resolve_acc(wv.take(i + 1)).0);
            },
        }
        i = i + 1;
    }
    assert(wv.take(words@.len() as int) == wv);
    let ghost before = words_view(done@);
    if let Some(c) = current {
        done.push(c);
        assert(words_view(done@) =~= before.push(c@));
    } else {
        assert(words_view(done@) =~= before);
    }
    assert(words_view(done@) =~= before + (match current {
        Some(c) => seq![c@],
        None => Seq::<WordView>::empty(),
    }));
    done
}

/// `[` time `]`
pub open spec fn bracket_time(open: char, t: int, close: char) -> Seq<char> {
    seq![open] + lrc_time_text(t) + seq![close]
}

/// The concatenation of `open time close text` for each (timed) word.
pub open spec fn stamped_words(words: Seq<WordView>, open: char, close: char) -> Seq<char>
    decreases words.len(),
{
    if words.len() == 0 {
        Seq::empty()
    } else {
        let w = words.last();
        stamped_words(words.drop_last(), open, close) + bracket_time(
            open,
            w.start_ms->0 as int,
            close,
        ) + w.text
    }
}

/// The end time written for a line with the given (resolved) words.
pub open spec fn written_end(line: LineView, words: Seq<WordView>) -> int {
    let start = match line.start_ms {
        Some(t) => t as int,
        None => 0,
    };
    match line.end_ms {
        Some(e) => e as int,
        None => match words.last().end_ms {
            Some(e) => e as int,
            None => start + 2000,
        },
    }
}

/// The time a line is written at (0 without a start time).
pub open spec fn line_start_or_zero(line: LineView) -> int {
    match line.start_ms {
        Some(t) => t as int,
        None => 0,
    }
}

/// Whether writing the line's end time stays within `i64`: the writer adds
/// two seconds to the start when neither the line nor its last word has an
/// end time.
pub open spec fn end_fits(line: LineView) -> bool {
    line_start_or_zero(line) + 2000 <= i64::MAX
}

/// A line can be written in the format: its end is computed only for timed
/// words in verbatim or enhanced LRC, and then it must fit (see
/// [`end_fits`]).
pub open spec fn line_writable(line: LineView, format: LyricFormat) -> bool {
    format == LyricFormat::PlainLrc || resolved_words(line.words).len() == 0 || end_fits(line)
}

/// What `write_original_line` writes for a line: `[start]text` in plain LRC
/// or without timed words; `[t]w[t]w...[end]` in verbatim LRC; and
/// `[start]<t>w<t>w...<end>` in enhanced LRC.
pub open spec fn original_line_text(line: LineView, format: LyricFormat) -> Seq<char> {
    let start = line_start_or_zero(line);
    let words = resolved_words(line.words);
    if format == LyricFormat::PlainLrc || words.len() == 0 {
        bracket_time('[', start, ']') + visible_text(line)
    } else if format == LyricFormat::VerbatimLrc {
        stamped_words(words, '[', ']') + bracket_time('[', written_end(line, words), ']')
    } else {
        bracket_time('[', start, ']') + stamped_words(words, '<', '>') + bracket_time(
            '<',
            written_end(line, words),
            '>',
        )
    }
}

/// Appends `open time close`.
fn push_bracket_time(out: &mut String, open: char, t: i64, close: char)
    ensures
        final(out)@ == old(out)@ + bracket_time(open, t as int, close),
{
    push_char(out, open);
    let time = lrc_time(t);
    out.append(time.as_str());
    push_char(out, close);
}

/// Appends the stamped words.
fn push_stamped_words(out: &mut String, words: &Vec<LyricsWord>, open: char, close: char)
    requires
        forall|j: int| 0 <= j < words@.len() ==> (#[trigger] words@[j]).start_ms is Some,
    ensures
        final(out)@ == old(out)@ + stamped_words(words_view(words@), open, close),
{
    let ghost wv = words_view(words@);
    let mut i: usize = 0;
    while i < words.len()
        invariant
            0 <= i <= words@.len(),
            wv == words_view(words@),
            forall|j: int| 0 <= j < words@.len() ==> (#[trigger] words@[j]).start_ms is Some,
            out@ == old(out)@ + stamped_words(wv.take(i as int), open, close),
        decreases words.len() - i,
    {
        let w = &words[i];
        assert(wv.take(i + 1).drop_last() == wv.take(i as int));
        assert(wv.take(i + 1).last() == w@);
        let t = match w.start_ms {
            Some(t) => t,
            None => 0,
        };
        push_bracket_time(out, open, t, close);
        out.append(w.text.as_str());
        i = i + 1;
    }
    assert(wv.take(words@.len() as int) == wv);
}

/// What the writer makes of a line as plain LRC, the reader reads back: a
/// line that starts before 1000 minutes and whose text does not begin with
/// `[` reads back as one line at the same time with the same text (shown for
/// the reader's two seconds).
pub proof fn plain_line_round_trip(line: LineView)
    requires
        line.start_ms matches Some(t) && 0 <= t < 60_000_000,
        visible_text(line).len() == 0 || visible_text(line)[0] != '[',
    ensures
        plain_lines(original_line_text(line, LyricFormat::PlainLrc)) == seq![
            plain_line_view(line_start_or_zero(line), visible_text(line)),
        ],
{
    let t = line_start_or_zero(line);
    let text = visible_text(line);
    let ms = t as nat;
    let mm = ms / 60000;
    let ss = (ms % 60000) / 1000;
    let ff = ms % 1000;
    lemma_decimal(mm);
    lemma_decimal(ss);
    lemma_decimal(ff);
    let a = zero_pad(decimal(mm), 2);
    let b = zero_pad(decimal(ss), 2);
    let c = zero_pad(decimal(ff), 3);
    lemma_numeral_zero_pad(decimal(mm), 2);
    lemma_numeral_zero_pad(decimal(ss), 2);
    lemma_numeral_zero_pad(decimal(ff), 3);
    assert(mm < 1000);
    assert(ss < 60);
    let w = lrc_time_text(t);
    assert(w == a + seq![':'] + b + seq!['.'] + c);
    let m = a.len() as int;
    assert(2 <= m <= 3);
    let s = original_line_text(line, LyricFormat::PlainLrc);
    assert(s == seq!['['] + w + seq![']'] + text);
    assert(w.len() == m + 7);
    assert(s[0] == '[');
    assert forall|j: int| 1 <= j < 1 + m implies is_digit(#[trigger] s[j]) by {
        assert(s[j] == w[j - 1]);
        assert(w[j - 1] == a[j - 1]);
    }
    assert(s[1 + m] == ':');
    assert(s[m + 2] == b[0] && s[m + 3] == b[1]);
    assert(s[m + 4] == '.');
    assert forall|j: int| m + 5 <= j < m + 8 implies is_digit(#[trigger] s[j]) by {
        assert(s[j] == w[j - 1]);
        assert(w[j - 1] == c[j - m - 5]);
    }
    assert(s[m + 8] == ']');
    lemma_run_before(s, 1, m);
    lemma_run_before(s, m + 5, 3);
    assert(fraction_end(s, m + 4) == Some(m + 8));
    assert(timestamp_end(s, 1) == Some(m + 8));
    let e = m + 8;
    assert(stamp_at(s, 0, false) == Some((e, e + 1)));
    assert(s.skip(e + 1) =~= text);
    assert(plain_blocks(s, e + 1) =~= Seq::<(int, int, int)>::empty()) by {
        if e + 1 < s.len() {
            assert(s[e + 1] == text[0]);
        }
    }
    assert(plain_blocks(s, 0) =~= seq![(0int, e, e + 1)]);
    assert(s.subrange(1, 1 + m) =~= a);
    assert(s.subrange(m + 2, m + 4) =~= b);
    assert(s.subrange(m + 5, m + 8) =~= c);
    assert((c + seq!['0', '0', '0']).take(3) =~= c);
    assert(mm * 60000 + ss * 1000 + ff == ms) by (nonlinear_arith)
        requires
            mm == ms / 60000,
            ss == (ms % 60000) / 1000,
            ff == ms % 1000,
    ;
    assert(stamp_time(s, (0int, e, e + 1)) == t);
}

/// `write_original_line`: see [`original_line_text`].
pub fn write_original_line(line: &LyricsLine, format: LyricFormat) -> (r: String)
    requires
        line_writable(line@, format),
    ensures
        r@ == original_line_text(line@, format),
{
    let start: i64 = match line.start_ms {
        Some(t) => t,
        None => 0,
    };
    let text = line_visible_text(line);
    let words = resolved_timed_words(&line.words);
    let mut out = String::new();
    if format == LyricFormat::PlainLrc || words.len() == 0 {
        push_bracket_time(&mut out, '[', start, ']');
        out.append(text.as_str());
        return out;
    }
    let k = words.len() - 1;
    assert(words_view(words@).last() == words@[k as int]@);
    let end: i64 = match line.end_ms {
        Some(e) => e,
        None => match words[k].end_ms {
            Some(e) => e,
            None => start + 2000,
        },
    };
    if format == LyricFormat::VerbatimLrc {
        push_stamped_words(&mut out, &words, '[', ']');
        push_bracket_time(&mut out, '[', end, ']');
        return out;
    }
    push_bracket_time(&mut out, '[', start, ']');
    push_stamped_words(&mut out, &words, '<', '>');
    push_bracket_time(&mut out, '<', end, '>');
    out
}

/// The lines of the tracks of the given kind, in order.
pub open spec fn kind_lines(tracks: Seq<TrackView>, kind: TrackType) -> Seq<LineView>
    decreases tracks.len(),
{
    if tracks.len() == 0 {
        Seq::empty()
    } else {
        kind_lines(tracks.drop_last(), kind) + (if tracks.last().kind == kind {
            tracks.last().lines
        } else {
            Seq::empty()
        })
    }
}

/// `track_lines`: the lines of the document's tracks of the given kind.
pub fn track_lines(document: &LyricsDocument, kind: TrackType) -> (r: Vec<&LyricsLine>)
    ensures
        r@.map_values(|l: &LyricsLine| l@) == kind_lines(document@.tracks, kind),
{
    let ghost tv = document@.tracks;
    let mut out: Vec<&LyricsLine> = Vec::new();
    let mut t: usize = 0;
    while t < document.tracks.len()
        invariant
            0 <= t <= document.tracks@.len(),
            tv == document@.tracks,
            out@.map_values(|l: &LyricsLine| l@) == kind_lines(tv.take(t as int), kind),
        decreases document.tracks.len() - t,
    {
        let track = &document.tracks[t];
        assert(tv.take(t + 1).drop_last() == tv.take(t as int));
        assert(tv.take(t + 1).last() == track@);
        let ghost before = out@.map_values(|l: &LyricsLine| l@);
        if track.kind == kind {
            let mut j: usize = 0;
            while j < track.lines.len()
                invariant
                    0 <= j <= track.lines@.len(),
                    out@.map_values(|l: &LyricsLine| l@) == before + track@.lines.take(j as int),
                decreases track.lines.len() - j,
            {
                let ghost prev = out@;
                out.push(&track.lines[j]);
                assert(out@.map_values(|l: &LyricsLine| l@) =~= prev.map_values(
                    |l: &LyricsLine| l@,
                ).push(track.lines@[j as int]@));
                assert(track@.lines.take(j + 1) =~= track@.lines.take(j as int).push(
                    track@.lines[j as int],
                ));
                j = j + 1;
            }
            assert(track@.lines.take(track.lines@.len() as int) == track@.lines);
        } else {
            assert(before + Seq::<LineView>::empty() == before);
        }
        t = t + 1;
    }
    assert(tv.take(document.tracks@.len() as int) == tv);
    out
}

/// A candidate line is linked to `line`: same link key, or same start time.
pub open spec fn is_linked(candidate: LineView, line: LineView) -> bool {
    (line.link_key is Some && candidate.link_key == line.link_key) || (line.start_ms is Some
        && candidate.start_ms == line.start_ms)
}

/// The index of the first line of `lines` linked to `line`, or `lines.len()`.
pub open spec fn first_linked(lines: Seq<LineView>, line: LineView) -> int
    decreases lines.len(),
{
    if lines.len() == 0 {
        0
    } else if is_linked(lines[0], line) {
        0
    } else {
        1 + first_linked(lines.drop_first(), line)
    }
}

fn opt_text_eq(a: &Option<String>, b: &Option<String>) -> (r: bool)
    ensures
        r == (opt_text(*a) == opt_text(*b)),
{
    match (a, b) {
        (Some(x), Some(y)) => *x == *y,
        (None, None) => true,
        _ => false,
    }
}

/// `find_linked`: the first line of `lines` linked to `line`.
pub fn find_linked<'a>(lines: &Vec<&'a LyricsLine>, line: &LyricsLine) -> (r: Option<&'a LyricsLine>)
    ensures
        ({
            let lv = lines@.map_values(|l: &LyricsLine| l@);
            let k = first_linked(lv, line@);
            &&& r is Some <==> k < lv.len()
            &&& r matches Some(c) ==> c@ == lv[k]
        }),
{
    let ghost lv = lines@.map_values(|l: &LyricsLine| l@);
    assert(lv.skip(0) == lv);
    let mut i: usize = 0;
    while i < lines.len()
        invariant
            0 <= i <= lines@.len(),
            lv == lines@.map_values(|l: &LyricsLine| l@),
            first_linked(lv, line@) == i + first_linked(lv.skip(i as int), line@),
        decreases lines.len() - i,
    {
        let c = lines[i];
        assert(lv.skip(i as int)[0] == c@);
        let by_key = line.link_key.is_some() && opt_text_eq(&c.link_key, &line.link_key);
        let by_time = line.start_ms.is_some() && c.start_ms == line.start_ms;
        if by_key || by_time {
            assert(is_linked(c@, line@));
            return Some(c);
        }
        assert(lv.skip(i as int).drop_first() == lv.skip(i + 1));
        i = i + 1;
    }
    None
}

/// The line written for a linked translation or romanization: the original
/// line's time followed by the linked line's text; nothing for a missing or
/// empty linked line.
pub open spec fn linked_line_text(lines: Seq<LineView>, line: LineView) -> Seq<Seq<char>> {
    let k = first_linked(lines, line);
    if k < lines.len() && lines[k].text.len() > 0 {
        seq![bracket_time('[', line_start_or_zero(line), ']') + lines[k].text]
    } else {
        Seq::empty()
    }
}

/// The output lines written for one original line, kind by kind in `order`.
pub open spec fn lines_for(
    doc: DocumentView,
    line: LineView,
    order: Seq<LineTrack>,
    format: LyricFormat,
) -> Seq<Seq<char>>
    decreases order.len(),
{
    if order.len() == 0 {
        Seq::empty()
    } else {
        lines_for(doc, line, order.drop_last(), format) + match order.last() {
            LineTrack::Original => seq![original_line_text(line, format)],
            LineTrack::Translation => linked_line_text(
                kind_lines(doc.tracks, TrackType::Translation),
                line,
            ),
            LineTrack::Romanization => linked_line_text(
                kind_lines(doc.tracks, TrackType::Romanization),
                line,
            ),
        }
    }
}

/// The output lines written for the first `n` original lines.
pub open spec fn body_lines(
    doc: DocumentView,
    n: int,
    order: Seq<LineTrack>,
    format: LyricFormat,
) -> Seq<Seq<char>>
    decreases n,
{
    if n <= 0 {
        Seq::empty()
    } else {
        body_lines(doc, n - 1, order, format) + lines_for(
            doc,
            kind_lines(doc.tracks, TrackType::Original)[n - 1],
            order,
            format,
        )
    }
}

/// The `[key:value]` lines of the tags.
pub open spec fn tag_texts(tags: Seq<(Seq<char>, Seq<char>)>) -> Seq<Seq<char>> {
    tags.map_values(|t: (Seq<char>, Seq<char>)| seq!['['] + t.0 + seq![':'] + t.1 + seq![']'])
}

/// Lines joined with `\n` between them.
pub open spec fn joined(lines: Seq<Seq<char>>) -> Seq<char>
    decreases lines.len(),
{
    if lines.len() == 0 {
        Seq::empty()
    } else if lines.len() == 1 {
        lines[0]
    } else {
        joined(lines.drop_last()) + seq!['\n'] + lines.last()
    }
}

/// Every original line can be written in the format (see
/// [`line_writable`]).
pub open spec fn writable(doc: DocumentView, format: LyricFormat) -> bool {
    forall|i: int|
        0 <= i < kind_lines(doc.tracks, TrackType::Original).len() ==> line_writable(
            #[trigger] kind_lines(doc.tracks, TrackType::Original)[i],
            format,
        )
}

/// What `write` returns: the tag lines, an empty line when both tags and
/// lyric lines are present, then for each original line the lines of each
/// kind in the normalized order, all joined with `\n`.
pub open spec fn written_text(doc: DocumentView, format: LyricFormat, order: Seq<LineTrack>) -> Seq<char> {
    let tags = tag_texts(doc.tags);
    let n = kind_lines(doc.tracks, TrackType::Original).len() as int;
    let body = body_lines(doc, n, normalized_line_order(order), format);
    joined(tags + (if tags.len() > 0 && body.len() > 0 {
        seq![Seq::empty()]
    } else {
        Seq::empty()
    }) + body)
}

/// What `write` gives, line by line: the `[key:value]` tag lines, an empty
/// line when there are both tags and body lines, then for each original
/// line (in order) one output per kind of the normalized order: the
/// original line as [`original_line_text`] writes it, and for a
/// translation or romanization the first line linked to it, written as
/// `[time]text` with the original's start time (0 without one), or nothing
/// when no line is linked or its text is empty; all joined by `\n`.
pub proof fn written_text_law(doc: DocumentView, format: LyricFormat, order: Seq<LineTrack>)
    ensures
        ({
            let tags = tag_texts(doc.tags);
            let originals = kind_lines(doc.tracks, TrackType::Original);
            let kinds = normalized_line_order(order);
            let body = body_lines(doc, originals.len() as int, kinds, format);
            &&& written_text(doc, format, order) == joined(
                tags + (if tags.len() > 0 && body.len() > 0 {
                    seq![Seq::<char>::empty()]
                } else {
                    Seq::empty()
                }) + body,
            )
            &&& forall|i: int| 0 < i <= originals.len() ==> #[trigger] body_lines(doc, i, kinds, format)
                == body_lines(doc, i - 1, kinds, format) + lines_for(doc, originals[i - 1], kinds, format)
            &&& forall|o: LineView, lines: Seq<LineView>| #[trigger] linked_line_text(lines, o) == {
                let k = first_linked(lines, o);
                if k < lines.len() && lines[k].text.len() > 0 {
                    seq![seq!['['] + lrc_time_text(line_start_or_zero(o)) + seq![']'] + lines[k].text]
                } else {
                    Seq::empty()
                }
            }
        }),
{
}

proof fn lemma_contains_add(a: Seq<Seq<char>>, b: Seq<Seq<char>>, x: Seq<char>)
    ensures
        a.contains(x) ==> (a + b).contains(x),
        b.contains(x) ==> (a + b).contains(x),
{
    if a.contains(x) {
        let i = choose|i: int| 0 <= i < a.len() && a[i] == x;
        assert((a + b)[i] == x);
    }
    if b.contains(x) {
        let i = choose|i: int| 0 <= i < b.len() && b[i] == x;
        assert((a + b)[a.len() + i] == x);
    }
}

/// What one kind of line contributes after an original line.
spec fn kind_output(doc: DocumentView, line: LineView, kind: LineTrack, format: LyricFormat) -> Seq<Seq<char>> {
    match kind {
        LineTrack::Original => seq![original_line_text(line, format)],
        LineTrack::Translation => linked_line_text(kind_lines(doc.tracks, TrackType::Translation), line),
        LineTrack::Romanization => linked_line_text(kind_lines(doc.tracks, TrackType::Romanization), line),
    }
}

proof fn lemma_lines_for_contains(
    doc: DocumentView,
    line: LineView,
    order: Seq<LineTrack>,
    format: LyricFormat,
    kind: LineTrack,
    x: Seq<char>,
)
    requires
        order.contains(kind),
        kind_output(doc, line, kind, format).contains(x),
    ensures
        lines_for(doc, line, order, format).contains(x),
    decreases order.len(),
{
    let p = order.drop_last();
    if order.last() == kind {
        lemma_contains_add(lines_for(doc, line, p, format), kind_output(doc, line, kind, format), x);
    } else {
        let i = choose|i: int| 0 <= i < order.len() && order[i] == kind;
        assert(p[i] == kind);
        lemma_lines_for_contains(doc, line, p, format, kind, x);
        lemma_contains_add(lines_for(doc, line, p, format), kind_output(doc, line, order.last(), format), x);
    }
}

proof fn lemma_body_contains(doc: DocumentView, n: int, order: Seq<LineTrack>, format: LyricFormat, i: int, x: Seq<char>)
    requires
        0 <= i < n,
        lines_for(doc, kind_lines(doc.tracks, TrackType::Original)[i], order, format).contains(x),
    ensures
        body_lines(doc, n, order, format).contains(x),
    decreases n,
{
    let o = kind_lines(doc.tracks, TrackType::Original);
    if i == n - 1 {
        lemma_contains_add(body_lines(doc, n - 1, order, format), lines_for(doc, o[n - 1], order, format), x);
    } else {
        lemma_body_contains(doc, n - 1, order, format, i, x);
        lemma_contains_add(body_lines(doc, n - 1, order, format), lines_for(doc, o[n - 1], order, format), x);
    }
}

/// Every original line is written, and so is every line linked to it: for
/// each original line, the body of `write` holds the line as written in
/// the format, and, for the translation and the romanization tracks, the
/// first line linked to it (when there is one and its text is not empty)
/// as `[time]text` with the original line's start time (0 without one),
/// whatever the line order asked for.
pub proof fn linked_lines_are_written(doc: DocumentView, format: LyricFormat, order: Seq<LineTrack>, i: int)
    requires
        0 <= i < kind_lines(doc.tracks, TrackType::Original).len(),
    ensures
        ({
            let originals = kind_lines(doc.tracks, TrackType::Original);
            let o = originals[i];
            let body = body_lines(doc, originals.len() as int, normalized_line_order(order), format);
            let tl = kind_lines(doc.tracks, TrackType::Translation);
            let rl = kind_lines(doc.tracks, TrackType::Romanization);
            let tk = first_linked(tl, o);
            let rk = first_linked(rl, o);
            &&& body.contains(original_line_text(o, format))
            &&& tk < tl.len() && tl[tk].text.len() > 0 ==> body.contains(
                seq!['['] + lrc_time_text(line_start_or_zero(o)) + seq![']'] + tl[tk].text,
            )
            &&& rk < rl.len() && rl[rk].text.len() > 0 ==> body.contains(
                seq!['['] + lrc_time_text(line_start_or_zero(o)) + seq![']'] + rl[rk].text,
            )
        }),
{
    let originals = kind_lines(doc.tracks, TrackType::Original);
    let o = originals[i];
    let n = originals.len() as int;
    let kinds = normalized_line_order(order);
    crate::lyrics::model::normalized_order_is_a_permutation(order);
    let x = original_line_text(o, format);
    assert(kind_output(doc, o, LineTrack::Original, format)[0] == x);
    lemma_lines_for_contains(doc, o, kinds, format, LineTrack::Original, x);
    lemma_body_contains(doc, n, kinds, format, i, x);
    let tl = kind_lines(doc.tracks, TrackType::Translation);
    let rl = kind_lines(doc.tracks, TrackType::Romanization);
    let tk = first_linked(tl, o);
    let rk = first_linked(rl, o);
    if tk < tl.len() && tl[tk].text.len() > 0 {
        let y = seq!['['] + lrc_time_text(line_start_or_zero(o)) + seq![']'] + tl[tk].text;
        assert(kind_output(doc, o, LineTrack::Translation, format)[0] == y);
        lemma_lines_for_contains(doc, o, kinds, format, LineTrack::Translation, y);
        lemma_body_contains(doc, n, kinds, format, i, y);
    }
    if rk < rl.len() && rl[rk].text.len() > 0 {
        let y = seq!['['] + lrc_time_text(line_start_or_zero(o)) + seq![']'] + rl[rk].text;
        assert(kind_output(doc, o, LineTrack::Romanization, format)[0] == y);
        lemma_lines_for_contains(doc, o, kinds, format, LineTrack::Romanization, y);
        lemma_body_contains(doc, n, kinds, format, i, y);
    }
}

/// Joins lines with `\n` between them (see [`joined`]).
fn join_lines(lines: &Vec<String>) -> (r: String)
    ensures
        r@ == joined(lines@.map_values(|s: String| s@)),
{
    let ghost lv = lines@.map_values(|s: String| s@);
    let mut out = String::new();
    let mut i: usize = 0;
    while i < lines.len()
        invariant
            0 <= i <= lines@.len(),
            lv == lines@.map_values(|s: String| s@),
            out@ == joined(lv.take(i as int)),
        decreases lines.len() - i,
    {
        let ghost before = lv.take(i as int);
        assert(lv.take(i + 1) =~= before.push(lines@[i as int]@));
        assert(lv.take(i + 1).drop_last() =~= before);
        if i > 0 {
            push_char(&mut out, '\n');
        }
        out.append(lines[i].as_str());
        assert(out@ =~= joined(lv.take(i + 1)));
        i = i + 1;
    }
    assert(lv.take(lv.len() as int) =~= lv);
    out
}

/// The `[key:value]` lines of the tags.
fn tag_lines_exec(tags: &Vec<(String, String)>) -> (r: Vec<String>)
    ensures
        r@.map_values(|s: String| s@) == tag_texts(tags_view(tags@)),
{
    let ghost want = tag_texts(tags_view(tags@));
    let mut out: Vec<String> = Vec::new();
    let mut j: usize = 0;
    while j < tags.len()
        invariant
            0 <= j <= tags@.len(),
            want == tag_texts(tags_view(tags@)),
            out@.map_values(|s: String| s@) == want.take(j as int),
        decreases tags.len() - j,
    {
        let mut s = String::new();
        push_char(&mut s, '[');
        s.append(tags[j].0.as_str());
        push_char(&mut s, ':');
        s.append(tags[j].1.as_str());
        push_char(&mut s, ']');
        assert(s@ =~= want[j as int]);
        let ghost prev = out@;
        out.push(s);
        assert(out@.map_values(|s: String| s@) =~= prev.map_values(|s: String| s@).push(want[j as int]));
        assert(want.take(j + 1) =~= want.take(j as int).push(want[j as int]));
        j = j + 1;
    }
    assert(want.take(tags@.len() as int) =~= want);
    out
}

/// The lines written for one original line.
fn write_line_kinds(
    line: &LyricsLine,
    order: &Vec<LineTrack>,
    translations: &Vec<&LyricsLine>,
    romanizations: &Vec<&LyricsLine>,
    format: LyricFormat,
    Ghost(doc): Ghost<DocumentView>,
) -> (r: Vec<String>)
    requires
        line_writable(line@, format),
        translations@.map_values(|l: &LyricsLine| l@) == kind_lines(doc.tracks, TrackType::Translation),
        romanizations@.map_values(|l: &LyricsLine| l@) == kind_lines(doc.tracks, TrackType::Romanization),
    ensures
        r@.map_values(|s: String| s@) == lines_for(doc, line@, order@, format),
{
    let mut out: Vec<String> = Vec::new();
    let mut i: usize = 0;
    while i < order.len()
        invariant
            0 <= i <= order@.len(),
            line_writable(line@, format),
            translations@.map_values(|l: &LyricsLine| l@) == kind_lines(doc.tracks, TrackType::Translation),
            romanizations@.map_values(|l: &LyricsLine| l@) == kind_lines(doc.tracks, TrackType::Romanization),
            out@.map_values(|s: String| s@) == lines_for(doc, line@, order@.take(i as int), format),
        decreases order.len() - i,
    {
        let kind = order[i];
        assert(order@.take(i + 1).drop_last() == order@.take(i as int));
        assert(order@.take(i + 1).last() == kind);
        let ghost before = out@.map_values(|s: String| s@);
        let linked_lines = match kind {
            LineTrack::Original => {
                out.push(write_original_line(line, format));
                assert(out@.map_values(|s: String| s@) =~= before.push(original_line_text(line@, format)));
                None
            },
            LineTrack::Translation => Some(translations),
            LineTrack::Romanization => Some(romanizations),
        };
        if let Some(candidates) = linked_lines {
            let ghost lv = candidates@.map_values(|l: &LyricsLine| l@);
            match find_linked(candidates, line) {
                Some(found) => {
                    let text = text_chars(found.text.as_str());
                    if text.len() > 0 {
                        let mut s = String::new();
                        push_bracket_time(&mut s, '[', match line.start_ms {
                            Some(t) => t,
                            None => 0,
                        }, ']');
                        s.append(found.text.as_str());
                        out.push(s);
                        assert(out@.map_values(|s: String| s@) =~= before + linked_line_text(lv, line@));
                    } else {
                        assert(out@.map_values(|s: String| s@) =~= before + linked_line_text(lv, line@));
                    }
                },
                None => {
                    assert(out@.map_values(|s: String| s@) =~= before + linked_line_text(lv, line@));
                },
            }
        }
        i = i + 1;
    }
    assert(order@.take(order@.len() as int) == order@);
    out
}

/// The output lines for all the original lines.
fn write_body(
    original: &Vec<&LyricsLine>,
    order: &Vec<LineTrack>,
    translations: &Vec<&LyricsLine>,
    romanizations: &Vec<&LyricsLine>,
    format: LyricFormat,
    Ghost(doc): Ghost<DocumentView>,
) -> (r: Vec<String>)
    requires
        original@.map_values(|l: &LyricsLine| l@) == kind_lines(doc.tracks, TrackType::Original),
        writable(doc, format),
        translations@.map_values(|l: &LyricsLine| l@) == kind_lines(doc.tracks, TrackType::Translation),
        romanizations@.map_values(|l: &LyricsLine| l@) == kind_lines(doc.tracks, TrackType::Romanization),
    ensures
        r@.map_values(|s: String| s@) == body_lines(doc, original@.len() as int, order@, format),
{
    let ghost orig = kind_lines(doc.tracks, TrackType::Original);
    let mut body: Vec<String> = Vec::new();
    let mut i: usize = 0;
    while i < original.len()
        invariant
            0 <= i <= original@.len(),
            original@.map_values(|l: &LyricsLine| l@) == orig,
            orig == kind_lines(doc.tracks, TrackType::Original),
            writable(doc, format),
            translations@.map_values(|l: &LyricsLine| l@) == kind_lines(doc.tracks, TrackType::Translation),
            romanizations@.map_values(|l: &LyricsLine| l@) == kind_lines(doc.tracks, TrackType::Romanization),
            body@.map_values(|s: String| s@) == body_lines(doc, i as int, order@, format),
        decreases original.len() - i,
    {
        let line = original[i];
        assert(orig[i as int] == line@);
        let ghost before = body@.map_values(|s: String| s@);
        let mut produced = write_line_kinds(line, order, translations, romanizations, format, Ghost(doc));
        let ghost added = produced@.map_values(|s: String| s@);
        body.append(&mut produced);
        assert(body@.map_values(|s: String| s@) =~= before + added);
        i = i + 1;
    }
    body
}

/// `write`: writes a document as LRC text of the given format (see
/// [`written_text`]).
pub fn write(document: &LyricsDocument, format: LyricFormat, options: &LyricsOptions) -> (r: String)
    requires
        writable(document@, format),
    ensures
        r@ == written_text(document@, format, options.line_order@),
{
    let ghost doc = document@;
    let tags = document.metadata.lrc_tags();
    let original = track_lines(document, TrackType::Original);
    let translations = track_lines(document, TrackType::Translation);
    let romanizations = track_lines(document, TrackType::Romanization);
    let order = options.normalized_line_order();
    let mut lines = tag_lines_exec(tags);
    let mut body = write_body(&original, &order, &translations, &romanizations, format, Ghost(doc));
    let ghost tl = lines@.map_values(|s: String| s@);
    let ghost bl = body@.map_values(|s: String| s@);
    assert(original@.len() == kind_lines(doc.tracks, TrackType::Original).len());
    if lines.len() > 0 && body.len() > 0 {
        lines.push(String::new());
    }
    let ghost head = lines@.map_values(|s: String| s@);
    assert(head =~= tl + (if tl.len() > 0 && bl.len() > 0 {
        seq![Seq::<char>::empty()]
    } else {
        Seq::<Seq<char>>::empty()
    }));
    lines.append(&mut body);
    assert(lines@.map_values(|s: String| s@) =~= head + bl);
    join_lines(&lines)
}

} // verus!

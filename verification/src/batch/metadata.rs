//! Metadata matching: the configuration of a matching task, what a match
//! may write over the current tags, and the search queries and result
//! fields around it. The scoring of candidates is done in floating point by
//! the caller.
use vstd::prelude::*;
use crate::models::{AudioTrack, TagUpdate};
use crate::text::{
    is_blank, trim, split_on, str_blank, str_trimmed, chars_of, split_chars, str_eq, strings_view,
    parse_unsigned, parse_unsigned_exec, push_char, trimmed, string_of_range,
};
use crate::lyrics::model::first_occurrences;
use crate::pattern::{
    regex_replace_all, regex_replace_first, regex_split, spec_regex_replace_all,
    spec_regex_replace_first, spec_regex_split,
};
use crate::text::{
    collapse_whitespace, collapse_whitespace_exec, replace_char, replace_char_exec, spec_to_lowercase,
    to_lowercase, contains_text,
};
use crate::paths::{last_dot, last_dot_exec};
use crate::json::{JsonValue, get, get_spec, bool_text, push_bool_text};
use crate::plugins::manifest::SourcePlugin;

verus! {

broadcast use vstd::string::group_string_axioms;

// ---------------------------------------------------------------------------
// text pairs
// ---------------------------------------------------------------------------

/// The texts of a list of key and value pairs.
pub open spec fn pairs_view(v: Seq<(String, String)>) -> Seq<(Seq<char>, Seq<char>)> {
    v.map_values(|p: (String, String)| (p.0@, p.1@))
}

/// The index of the first pair with the key, or the number of pairs.
pub open spec fn pair_index(pairs: Seq<(Seq<char>, Seq<char>)>, key: Seq<char>) -> int
    decreases pairs.len(),
{
    if pairs.len() == 0 {
        0
    } else if pairs[0].0 == key {
        0
    } else {
        1 + pair_index(pairs.drop_first(), key)
    }
}

/// The value of the first pair with the key.
pub open spec fn lookup(pairs: Seq<(Seq<char>, Seq<char>)>, key: Seq<char>) -> Option<Seq<char>> {
    let i = pair_index(pairs, key);
    if 0 <= i < pairs.len() {
        Some(pairs[i].1)
    } else {
        None
    }
}

proof fn lemma_pair_index_at(pairs: Seq<(Seq<char>, Seq<char>)>, key: Seq<char>, i: int)
    requires
        0 <= i < pairs.len(),
        pairs[i].0 == key,
        forall|j: int| 0 <= j < i ==> pairs[j].0 != key,
    ensures
        pair_index(pairs, key) == i,
    decreases i,
{
    if i > 0 {
        assert forall|j: int| 0 <= j < i - 1 implies pairs.drop_first()[j].0 != key by {
            assert(pairs.drop_first()[j] == pairs[j + 1]);
        }
        lemma_pair_index_at(pairs.drop_first(), key, i - 1);
    }
}

proof fn lemma_pair_index_none(pairs: Seq<(Seq<char>, Seq<char>)>, key: Seq<char>)
    requires
        forall|j: int| 0 <= j < pairs.len() ==> pairs[j].0 != key,
    ensures
        pair_index(pairs, key) == pairs.len(),
    decreases pairs.len(),
{
    if pairs.len() > 0 {
        assert forall|j: int| 0 <= j < pairs.drop_first().len() implies pairs.drop_first()[j].0 != key by {
            assert(pairs.drop_first()[j] == pairs[j + 1]);
        }
        lemma_pair_index_none(pairs.drop_first(), key);
    }
}

/// The value of the first pair with the key (see [`lookup`]).
pub fn lookup_exec<'a>(pairs: &'a Vec<(String, String)>, key: &str) -> (r: Option<&'a String>)
    ensures
        match r {
            Some(v) => lookup(pairs_view(pairs@), key@) == Some(v@),
            None => lookup(pairs_view(pairs@), key@) is None,
        },
{
    let ghost pv = pairs_view(pairs@);
    let mut i: usize = 0;
    while i < pairs.len()
        invariant
            0 <= i <= pairs@.len(),
            pv == pairs_view(pairs@),
            forall|j: int| 0 <= j < i ==> pv[j].0 != key@,
        decreases pairs.len() - i,
    {
        assert(pv[i as int] == (pairs@[i as int].0@, pairs@[i as int].1@));
        if str_eq(pairs[i].0.as_str(), key) {
            proof {
                lemma_pair_index_at(pv, key@, i as int);
            }
            return Some(&pairs[i].1);
        }
        i = i + 1;
    }
    proof {
        lemma_pair_index_none(pv, key@);
    }
    None
}

// ---------------------------------------------------------------------------
// configuration
// ---------------------------------------------------------------------------

/// The configuration of a metadata matching task. `target_modes` gives each
/// field's mode (`disabled`, `supplement` or `overwrite`), one pair per
/// field.
#[derive(Debug)]
pub struct MatchConfig {
    pub target_modes: Vec<(String, String)>,
    pub enabled_source_order_ids: Vec<String>,
    pub prefer_file_name: bool,
    pub separator: String,
    pub lyric_format: String,
    pub show_translation: bool,
    pub show_romanization: bool,
    pub only_translation_if_available: bool,
    pub remove_empty_lyric_lines: bool,
    pub lyrics_conversion_mode: String,
}

/// Why a batch item ends without success.
#[derive(Debug)]
pub enum ProcessError {
    Cancelled(String),
    Skipped(String),
    Failed(String),
}

/// The artist separator of a configuration that gives none: `/`.
pub fn default_separator() -> (r: String)
    ensures
        r@ == "/"@,
{
    "/".to_string()
}

/// The lyric format of a configuration that gives none: `verbatimLrc`.
pub fn default_lyric_format() -> (r: String)
    ensures
        r@ == "verbatimLrc"@,
{
    "verbatimLrc".to_string()
}

/// The lyric conversion of a configuration that gives none: `none`.
pub fn default_conversion_mode() -> (r: String)
    ensures
        r@ == "none"@,
{
    "none".to_string()
}

/// The value of a boolean option that is given no value: `true`.
pub fn default_true() -> (r: bool)
    ensures
        r,
{
    true
}

/// The fields a configuration without target modes works on, each in
/// `supplement` mode.
pub open spec fn default_targets() -> Seq<Seq<char>> {
    seq![
        "title"@,
        "artist"@,
        "album"@,
        "genre"@,
        "date"@,
        "track_number"@,
        "lyrics"@,
        "cover_url"@,
    ]
}

/// A mode that a field may have.
pub open spec fn known_mode(m: Seq<char>) -> bool {
    m == "disabled"@ || m == "supplement"@ || m == "overwrite"@
}

/// A lyric format a task may ask for.
pub open spec fn known_lyric_format(f: Seq<char>) -> bool {
    f == "plainLrc"@ || f == "verbatimLrc"@ || f == "enhancedLrc"@ || f == "ttml"@
}

/// A lyric conversion a task may ask for.
pub open spec fn known_conversion(c: Seq<char>) -> bool {
    c == "none"@ || c == "traditionalToSimplified"@ || c == "simplifiedToTraditional"@
}

/// The target modes in effect: the defaults when none are given, and each
/// unknown mode read as `disabled`.
pub open spec fn effective_modes(modes: Seq<(Seq<char>, Seq<char>)>) -> Seq<(Seq<char>, Seq<char>)> {
    if modes.len() == 0 {
        default_targets().map_values(|t: Seq<char>| (t, "supplement"@))
    } else {
        modes.map_values(
            |p: (Seq<char>, Seq<char>)|
                (p.0, if known_mode(p.1) {
                    p.1
                } else {
                    "disabled"@
                }),
        )
    }
}

/// A configuration after its normalization: see [`effective_modes`]; an
/// unknown lyric format reads as `verbatimLrc` and an unknown conversion as
/// `none`; everything else is kept.
pub open spec fn normalized_config(before: MatchConfig, after: MatchConfig) -> bool {
    &&& pairs_view(after.target_modes@) == effective_modes(pairs_view(before.target_modes@))
    &&& strings_view(after.enabled_source_order_ids@) == strings_view(before.enabled_source_order_ids@)
    &&& after.prefer_file_name == before.prefer_file_name
    &&& after.separator@ == before.separator@
    &&& after.lyric_format@ == (if known_lyric_format(before.lyric_format@) {
        before.lyric_format@
    } else {
        "verbatimLrc"@
    })
    &&& after.show_translation == before.show_translation
    &&& after.show_romanization == before.show_romanization
    &&& after.only_translation_if_available == before.only_translation_if_available
    &&& after.remove_empty_lyric_lines == before.remove_empty_lyric_lines
    &&& after.lyrics_conversion_mode@ == (if known_conversion(before.lyrics_conversion_mode@) {
        before.lyrics_conversion_mode@
    } else {
        "none"@
    })
}

fn effective_modes_exec(modes: Vec<(String, String)>) -> (r: Vec<(String, String)>)
    ensures
        pairs_view(r@) == effective_modes(pairs_view(modes@)),
{
    let mut out: Vec<(String, String)> = Vec::new();
    if modes.len() == 0 {
        let targets = vec![
            "title",
            "artist",
            "album",
            "genre",
            "date",
            "track_number",
            "lyrics",
            "cover_url",
        ];
        let ghost want = default_targets().map_values(|t: Seq<char>| (t, "supplement"@));
        let mut i: usize = 0;
        while i < targets.len()
            invariant
                0 <= i <= targets@.len(),
                targets@.len() == 8,
                want == default_targets().map_values(|t: Seq<char>| (t, "supplement"@)),
                forall|k: int| 0 <= k < 8 ==> #[trigger] targets@[k]@ == default_targets()[k],
                pairs_view(out@) == want.take(i as int),
            decreases targets.len() - i,
        {
            let ghost prev = pairs_view(out@);
            out.push((targets[i].to_string(), "supplement".to_string()));
            assert(pairs_view(out@) =~= prev.push(want[i as int]));
            assert(want.take(i + 1) =~= want.take(i as int).push(want[i as int]));
            i = i + 1;
        }
        assert(want.take(8) =~= want);
        return out;
    }
    let ghost mv = pairs_view(modes@);
    let ghost want = effective_modes(mv);
    let mut i: usize = 0;
    while i < modes.len()
        invariant
            0 <= i <= modes@.len(),
            modes@.len() > 0,
            mv == pairs_view(modes@),
            want == effective_modes(mv),
            pairs_view(out@) == want.take(i as int),
        decreases modes.len() - i,
    {
        let key = modes[i].0.clone();
        let mode = modes[i].1.as_str();
        let m = if str_eq(mode, "disabled") || str_eq(mode, "supplement") || str_eq(mode, "overwrite") {
            mode.to_string()
        } else {
            "disabled".to_string()
        };
        let ghost prev = pairs_view(out@);
        out.push((key, m));
        assert(pairs_view(out@) =~= prev.push(want[i as int]));
        assert(want.take(i + 1) =~= want.take(i as int).push(want[i as int]));
        i = i + 1;
    }
    assert(want.take(modes@.len() as int) =~= want);
    out
}

/// Normalizes a configuration (see [`normalized_config`]).
pub fn normalize_config(config: MatchConfig) -> (r: MatchConfig)
    ensures
        normalized_config(config, r),
{
    let MatchConfig {
        target_modes,
        enabled_source_order_ids,
        prefer_file_name,
        separator,
        lyric_format,
        show_translation,
        show_romanization,
        only_translation_if_available,
        remove_empty_lyric_lines,
        lyrics_conversion_mode,
    } = config;
    let f = lyric_format.as_str();
    let lyric_format = if str_eq(f, "plainLrc") || str_eq(f, "verbatimLrc") || str_eq(f, "enhancedLrc")
        || str_eq(f, "ttml") {
        lyric_format
    } else {
        default_lyric_format()
    };
    let c = lyrics_conversion_mode.as_str();
    let lyrics_conversion_mode = if str_eq(c, "none") || str_eq(c, "traditionalToSimplified")
        || str_eq(c, "simplifiedToTraditional") {
        lyrics_conversion_mode
    } else {
        default_conversion_mode()
    };
    MatchConfig {
        target_modes: effective_modes_exec(target_modes),
        enabled_source_order_ids,
        prefer_file_name,
        separator,
        lyric_format,
        show_translation,
        show_romanization,
        only_translation_if_available,
        remove_empty_lyric_lines,
        lyrics_conversion_mode,
    }
}

/// Reads a task's configuration: none is a skip (`No config`), one that the
/// caller could not parse fails with its parse error, and a parsed one is
/// normalized.
pub fn parse_config(parsed: Option<Result<MatchConfig, String>>) -> (r: Result<MatchConfig, ProcessError>)
    ensures
        match parsed {
            None => r matches Err(ProcessError::Skipped(m)) && m@ == "No config"@,
            Some(Err(e)) => r matches Err(ProcessError::Failed(m)) && m@
                == "Invalid metadata match config: "@ + e@,
            Some(Ok(c)) => r matches Ok(n) && normalized_config(c, n),
        },
{
    match parsed {
        None => Err(ProcessError::Skipped("No config".to_string())),
        Some(Err(e)) => {
            let mut m = "Invalid metadata match config: ".to_string();
            m.append(e.as_str());
            Err(ProcessError::Failed(m))
        },
        Some(Ok(c)) => Ok(normalize_config(c)),
    }
}

/// Every field's mode is `disabled`.
pub open spec fn all_disabled(modes: Seq<(Seq<char>, Seq<char>)>) -> bool {
    forall|i: int| 0 <= i < modes.len() ==> #[trigger] modes[i].1 == "disabled"@
}

/// A task whose fields are all disabled is skipped (`No fields need
/// processing`).
pub fn check_targets(config: &MatchConfig) -> (r: Result<(), ProcessError>)
    ensures
        match r {
            Ok(()) => !all_disabled(pairs_view(config.target_modes@)),
            Err(e) => all_disabled(pairs_view(config.target_modes@)) && (e matches ProcessError::Skipped(m)
                && m@ == "No fields need processing"@),
        },
{
    let modes = &config.target_modes;
    let ghost mv = pairs_view(modes@);
    let mut i: usize = 0;
    while i < modes.len()
        invariant
            0 <= i <= modes@.len(),
            modes@ == config.target_modes@,
            mv == pairs_view(modes@),
            forall|j: int| 0 <= j < i ==> #[trigger] mv[j].1 == "disabled"@,
        decreases modes.len() - i,
    {
        assert(mv[i as int].1 == modes@[i as int].1@);
        if !str_eq(modes[i].1.as_str(), "disabled") {
            assert(pairs_view(config.target_modes@)[i as int].1 != "disabled"@);
            return Ok(());
        }
        i = i + 1;
    }
    Err(ProcessError::Skipped("No fields need processing".to_string()))
}

/// Whether a field may be written: always in `overwrite` mode, only over
/// an empty current value in `supplement` mode, never otherwise.
pub open spec fn should_write_spec(modes: Seq<(Seq<char>, Seq<char>)>, key: Seq<char>, current_empty: bool) -> bool {
    match lookup(modes, key) {
        Some(m) => if m == "overwrite"@ {
            true
        } else if m == "supplement"@ {
            current_empty
        } else {
            false
        },
        None => false,
    }
}

/// Whether the field `key` may be written (see [`should_write_spec`]).
pub fn should_write(config: &MatchConfig, key: &str, current_empty: bool) -> (r: bool)
    ensures
        r == should_write_spec(pairs_view(config.target_modes@), key@, current_empty),
{
    match lookup_exec(&config.target_modes, key) {
        Some(m) => {
            if str_eq(m.as_str(), "overwrite") {
                true
            } else if str_eq(m.as_str(), "supplement") {
                current_empty
            } else {
                false
            }
        },
        None => false,
    }
}

// ---------------------------------------------------------------------------
// multiple values
// ---------------------------------------------------------------------------

/// A separator of multiple values.
pub open spec fn is_multi_sep(c: char) -> bool {
    c == ';' || c == ',' || c == '/'
}

/// The index of the first separator of multiple values, or the length.
pub open spec fn first_multi_sep(s: Seq<char>) -> int
    decreases s.len(),
{
    if s.len() == 0 {
        0
    } else if is_multi_sep(s[0]) {
        0
    } else {
        1 + first_multi_sep(s.drop_first())
    }
}

proof fn lemma_first_multi_sep(s: Seq<char>)
    ensures
        0 <= first_multi_sep(s) <= s.len(),
        first_multi_sep(s) < s.len() ==> is_multi_sep(s[first_multi_sep(s)]),
        forall|j: int| 0 <= j < first_multi_sep(s) ==> !is_multi_sep(s[j]),
    decreases s.len(),
{
    if s.len() > 0 && !is_multi_sep(s[0]) {
        lemma_first_multi_sep(s.drop_first());
        assert forall|j: int| 0 <= j < first_multi_sep(s) implies !is_multi_sep(s[j]) by {
            if j > 0 {
                assert(s[j] == s.drop_first()[j - 1]);
            }
        }
    }
}

/// The pieces of `s` between separators of multiple values.
pub open spec fn split_multi(s: Seq<char>) -> Seq<Seq<char>>
    decreases s.len(),
{
    let k = first_multi_sep(s);
    if k >= s.len() || k < 0 {
        seq![s]
    } else {
        seq![s.take(k)] + split_multi(s.skip(k + 1))
    }
}

/// The pieces trimmed, the empty ones left out.
pub open spec fn trimmed_nonempty(pieces: Seq<Seq<char>>) -> Seq<Seq<char>>
    decreases pieces.len(),
{
    if pieces.len() == 0 {
        Seq::empty()
    } else {
        let p = trimmed_nonempty(pieces.drop_last());
        let t = trim(pieces.last());
        if t.len() > 0 {
            p.push(t)
        } else {
            p
        }
    }
}

/// The values of a text holding several, separated by `;`, `,` or `/`:
/// each trimmed, the empty ones left out.
pub open spec fn multi_values(s: Seq<char>) -> Seq<Seq<char>> {
    trimmed_nonempty(split_multi(s))
}

/// The parts joined with the separator between them.
pub open spec fn join_with(parts: Seq<Seq<char>>, sep: Seq<char>) -> Seq<char>
    decreases parts.len(),
{
    if parts.len() == 0 {
        Seq::empty()
    } else if parts.len() == 1 {
        parts[0]
    } else {
        join_with(parts.drop_last(), sep) + sep + parts.last()
    }
}

fn split_multi_exec(s: &[char]) -> (r: Vec<Vec<char>>)
    ensures
        r@.map_values(|v: Vec<char>| v@) == split_multi(s@),
{
    let mut out: Vec<Vec<char>> = Vec::new();
    let mut p: usize = 0;
    let ghost mut acc: Seq<Seq<char>> = Seq::empty();
    assert(s@.skip(0) == s@);
    assert(acc + split_multi(s@) == split_multi(s@));
    loop
        invariant
            0 <= p <= s@.len(),
            out@.map_values(|v: Vec<char>| v@) == acc,
            split_multi(s@) == acc + split_multi(s@.skip(p as int)),
        decreases s@.len() - p,
    {
        let ghost rest = s@.skip(p as int);
        proof {
            lemma_first_multi_sep(rest);
        }
        let mut k = p;
        while k < s.len() && !(s[k] == ';' || s[k] == ',' || s[k] == '/')
            invariant
                p <= k <= s@.len(),
                rest == s@.skip(p as int),
                forall|j: int| p <= j < k ==> !is_multi_sep(s@[j]),
                0 <= first_multi_sep(rest) <= rest.len(),
                first_multi_sep(rest) < rest.len() ==> is_multi_sep(rest[first_multi_sep(rest)]),
                forall|j: int| 0 <= j < first_multi_sep(rest) ==> !is_multi_sep(rest[j]),
            decreases s@.len() - k,
        {
            k = k + 1;
        }
        assert(k - p == first_multi_sep(rest)) by {
            if k - p < first_multi_sep(rest) {
                assert(rest[k - p] == s@[k as int]);
            }
            if k - p > first_multi_sep(rest) {
                let f = first_multi_sep(rest);
                assert(rest[f] == s@[p + f]);
            }
        }
        let piece = crate::text::slice_range(s, p, k);
        assert(rest.take(k - p) =~= s@.subrange(p as int, k as int));
        let ghost prev = out@.map_values(|v: Vec<char>| v@);
        out.push(piece);
        assert(out@.map_values(|v: Vec<char>| v@) =~= prev.push(piece@));
        if k >= s.len() {
            proof {
                assert(rest =~= s@.subrange(p as int, k as int));
                acc = acc.push(piece@);
            }
            assert(split_multi(s@) == acc);
            return out;
        }
        proof {
            assert(rest.skip(k - p + 1) =~= s@.skip(k + 1));
            assert(seq![piece@] + split_multi(s@.skip(k + 1)) == split_multi(rest));
            assert(acc + (seq![piece@] + split_multi(s@.skip(k + 1))) =~= acc.push(piece@)
                + split_multi(s@.skip(k + 1)));
            acc = acc.push(piece@);
        }
        p = k + 1;
    }
}

fn trimmed_nonempty_exec(pieces: &Vec<Vec<char>>) -> (r: Vec<String>)
    ensures
        strings_view(r@) == trimmed_nonempty(pieces@.map_values(|v: Vec<char>| v@)),
{
    let ghost pv = pieces@.map_values(|v: Vec<char>| v@);
    let mut out: Vec<String> = Vec::new();
    let mut i: usize = 0;
    while i < pieces.len()
        invariant
            0 <= i <= pieces@.len(),
            pv == pieces@.map_values(|v: Vec<char>| v@),
            strings_view(out@) == trimmed_nonempty(pv.take(i as int)),
        decreases pieces.len() - i,
    {
        assert(pv.take(i + 1).drop_last() == pv.take(i as int));
        assert(pv.take(i + 1).last() == pieces@[i as int]@);
        let t = trimmed(pieces[i].as_slice());
        if chars_of(t.as_str()).len() > 0 {
            let ghost prev = strings_view(out@);
            out.push(t);
            assert(strings_view(out@) =~= prev.push(trim(pieces@[i as int]@)));
        }
        i = i + 1;
    }
    assert(pv.take(pieces@.len() as int) == pv);
    out
}

/// The values of a text holding several (see [`multi_values`]).
pub fn split_multi_value(value: &str) -> (r: Vec<String>)
    ensures
        strings_view(r@) == multi_values(value@),
{
    let chars = chars_of(value);
    let pieces = split_multi_exec(chars.as_slice());
    trimmed_nonempty_exec(&pieces)
}

/// Joins texts with a separator between them (see [`join_with`]).
pub fn join_texts(parts: &Vec<String>, sep: &str) -> (r: String)
    ensures
        r@ == join_with(strings_view(parts@), sep@),
{
    let ghost pv = strings_view(parts@);
    let mut out = String::new();
    let mut i: usize = 0;
    while i < parts.len()
        invariant
            0 <= i <= parts@.len(),
            pv == strings_view(parts@),
            out@ == join_with(pv.take(i as int), sep@),
        decreases parts.len() - i,
    {
        assert(pv.take(i + 1).drop_last() =~= pv.take(i as int));
        assert(pv.take(i + 1).last() == parts@[i as int]@);
        if i > 0 {
            out.append(sep);
        }
        out.append(parts[i].as_str());
        assert(out@ =~= join_with(pv.take(i + 1), sep@));
        i = i + 1;
    }
    assert(pv.take(parts@.len() as int) =~= pv);
    out
}

/// The value with its several values joined by `separator` (the value as it
/// is when the separator is empty).
pub open spec fn normalize_separator_spec(value: Seq<char>, separator: Seq<char>) -> Seq<char> {
    if separator.len() == 0 {
        value
    } else {
        join_with(multi_values(value), separator)
    }
}

/// Rewrites a value holding several with `separator` between them (see
/// [`normalize_separator_spec`]).
pub fn normalize_separator(value: &str, separator: &str) -> (r: String)
    ensures
        r@ == normalize_separator_spec(value@, separator@),
{
    if separator.is_empty() {
        return value.to_string();
    }
    let values = split_multi_value(value);
    join_texts(&values, separator)
}

/// Removes the repeated texts, keeping each first occurrence in place.
pub fn deduplicate(values: &mut Vec<String>)
    ensures
        strings_view(final(values)@) == first_occurrences(strings_view(old(values)@)),
{
    let ghost vv = strings_view(values@);
    let mut out: Vec<String> = Vec::new();
    let mut i: usize = 0;
    while i < values.len()
        invariant
            0 <= i <= values@.len(),
            vv == strings_view(values@),
            strings_view(out@) == first_occurrences(vv.take(i as int)),
        decreases values.len() - i,
    {
        assert(vv.take(i + 1).drop_last() == vv.take(i as int));
        assert(vv.take(i + 1).last() == values@[i as int]@);
        if !crate::text::contains_text(&out, values[i].as_str()) {
            let ghost prev = strings_view(out@);
            out.push(values[i].clone());
            assert(strings_view(out@) =~= prev.push(values@[i as int]@));
        }
        i = i + 1;
    }
    assert(vv.take(values@.len() as int) == vv);
    *values = out;
}

// ---------------------------------------------------------------------------
// what a match writes
// ---------------------------------------------------------------------------

/// The key, listed when the field changes.
pub open spec fn flag(key: Seq<char>, changed: bool) -> Seq<Seq<char>> {
    if changed {
        seq![key]
    } else {
        Seq::empty()
    }
}

/// A value offered by a match: the field's value, when it is not blank.
pub open spec fn offered(fields: Seq<(Seq<char>, Seq<char>)>, key: Seq<char>) -> Option<Seq<char>> {
    match lookup(fields, key) {
        Some(v) => if is_blank(v) {
            None
        } else {
            Some(v)
        },
        None => None,
    }
}

/// The value a text field gets and whether it changes: the offered value
/// when the field may be written and it differs, else the current value.
pub open spec fn text_choice(
    modes: Seq<(Seq<char>, Seq<char>)>,
    fields: Seq<(Seq<char>, Seq<char>)>,
    key: Seq<char>,
    current: Seq<char>,
) -> (Seq<char>, bool) {
    match offered(fields, key) {
        None => (current, false),
        Some(c) => if should_write_spec(modes, key, is_blank(current)) && c != current {
            (c, true)
        } else {
            (current, false)
        },
    }
}

fn text_choice_exec(
    fields: &Vec<(String, String)>,
    config: &MatchConfig,
    key: &str,
    current: &String,
    changed: &mut Vec<String>,
) -> (r: String)
    ensures
        r@ == text_choice(pairs_view(config.target_modes@), pairs_view(fields@), key@, current@).0,
        strings_view(final(changed)@) == strings_view(old(changed)@) + flag(
            key@,
            text_choice(pairs_view(config.target_modes@), pairs_view(fields@), key@, current@).1,
        ),
{
    let ghost before = strings_view(changed@);
    match lookup_exec(fields, key) {
        Some(candidate) => {
            if str_blank(candidate.as_str()) {
                assert(strings_view(changed@) =~= before + Seq::<Seq<char>>::empty());
                return current.clone();
            }
            if should_write(config, key, str_blank(current.as_str())) && !str_eq(
                candidate.as_str(),
                current.as_str(),
            ) {
                changed.push(key.to_string());
                assert(strings_view(changed@) =~= before + seq![key@]);
                candidate.clone()
            } else {
                assert(strings_view(changed@) =~= before + Seq::<Seq<char>>::empty());
                current.clone()
            }
        },
        None => {
            assert(strings_view(changed@) =~= before + Seq::<Seq<char>>::empty());
            current.clone()
        },
    }
}

/// The number a match offers for a numeric field: what precedes the first
/// `/` of the value, trimmed, read as a `u32`.
pub open spec fn numeric_offer(fields: Seq<(Seq<char>, Seq<char>)>, key: Seq<char>) -> Option<nat> {
    match lookup(fields, key) {
        Some(v) => parse_unsigned(trim(split_on(v, '/')[0]), u32::MAX as nat),
        None => None,
    }
}

/// The value a numeric field gets and whether it changes: the offered
/// number when the field may be written and it differs, else the current
/// number.
pub open spec fn numeric_choice(
    modes: Seq<(Seq<char>, Seq<char>)>,
    fields: Seq<(Seq<char>, Seq<char>)>,
    key: Seq<char>,
    current: Option<u32>,
) -> (Option<u32>, bool) {
    match numeric_offer(fields, key) {
        Some(n) => if should_write_spec(modes, key, current is None) && Some(n as u32) != current {
            (Some(n as u32), true)
        } else {
            (current, false)
        },
        None => (current, false),
    }
}

/// The value of the numeric field `key` after a match (see
/// [`numeric_choice`]); the key is added to `changed` when it changes.
pub fn numeric_field(
    key: &str,
    current: Option<u32>,
    fields: &Vec<(String, String)>,
    config: &MatchConfig,
    changed: &mut Vec<String>,
) -> (r: Option<u32>)
    ensures
        r == numeric_choice(pairs_view(config.target_modes@), pairs_view(fields@), key@, current).0,
        strings_view(final(changed)@) == strings_view(old(changed)@) + flag(
            key@,
            numeric_choice(pairs_view(config.target_modes@), pairs_view(fields@), key@, current).1,
        ),
{
    let ghost before = strings_view(changed@);
    let candidate: Option<u64> = match lookup_exec(fields, key) {
        Some(v) => {
            let chars = chars_of(v.as_str());
            let pieces = split_chars(chars.as_slice(), '/');
            proof {
                reveal_with_fuel(split_on, 1);
            }
            assert(pieces@.len() >= 1);
            let t = trimmed(pieces[0].as_slice());
            let tc = chars_of(t.as_str());
            parse_unsigned_exec(tc.as_slice(), 4294967295u64)
        },
        None => None,
    };
    match candidate {
        Some(n) => {
            let n32 = n as u32;
            if should_write(config, key, current.is_none()) && Some(n32) != current {
                changed.push(key.to_string());
                assert(strings_view(changed@) =~= before + seq![key@]);
                Some(n32)
            } else {
                assert(strings_view(changed@) =~= before + Seq::<Seq<char>>::empty());
                current
            }
        },
        None => {
            assert(strings_view(changed@) =~= before + Seq::<Seq<char>>::empty());
            current
        },
    }
}

/// The genres kept from the current value: its `;`-separated values,
/// trimmed, the empty ones left out.
pub open spec fn genre_values(genre: Seq<char>) -> Seq<Seq<char>> {
    trimmed_nonempty(split_on(genre, ';'))
}

/// The genres after a match and whether they change: the offered values
/// when genres may be written and a value is offered, else the current ones.
pub open spec fn genre_choice(
    modes: Seq<(Seq<char>, Seq<char>)>,
    fields: Seq<(Seq<char>, Seq<char>)>,
    current: Seq<char>,
) -> (Seq<Seq<char>>, bool) {
    match lookup(fields, "genre"@) {
        Some(v) => if should_write_spec(modes, "genre"@, is_blank(current)) && !is_blank(v) {
            let values = multi_values(v);
            (values, join_with(values, "; "@) != current)
        } else {
            (genre_values(current), false)
        },
        None => (genre_values(current), false),
    }
}

/// The rating after a match: the offered rating (read as a `u8`) when it
/// may be written, else the current one.
pub open spec fn rating_choice(
    modes: Seq<(Seq<char>, Seq<char>)>,
    fields: Seq<(Seq<char>, Seq<char>)>,
    current: Option<u8>,
) -> Option<u8> {
    let offer = match lookup(fields, "rating"@) {
        Some(v) => parse_unsigned(v, 255),
        None => None,
    };
    if should_write_spec(modes, "rating"@, current is None) && offer is Some {
        Some(offer.unwrap() as u8)
    } else {
        current
    }
}

/// The fields listed as changed, in the order they are considered.
pub open spec fn changed_fields(
    current: AudioTrack,
    modes: Seq<(Seq<char>, Seq<char>)>,
    fields: Seq<(Seq<char>, Seq<char>)>,
    has_cover: bool,
) -> Seq<Seq<char>> {
    let t = |key: Seq<char>, cur: Seq<char>| flag(key, text_choice(modes, fields, key, cur).1);
    t("title"@, current.title@) + t("artist"@, current.artist@) + t("album"@, current.album@) + t(
        "album_artist"@,
        current.album_artist@,
    ) + t("language"@, current.language@) + t("composer"@, current.composer@) + t(
        "lyricist"@,
        current.lyricist@,
    ) + t("copyright"@, current.copyright@) + t("comment"@, current.comment@) + t(
        "lyrics"@,
        current.lyrics@,
    ) + t("date"@, current.year@) + t("replaygain_track_gain"@, current.replay_gain_track_gain@)
        + t("replaygain_track_peak"@, current.replay_gain_track_peak@) + t(
        "replaygain_album_gain"@,
        current.replay_gain_album_gain@,
    ) + t("replaygain_album_peak"@, current.replay_gain_album_peak@) + flag(
        "genre"@,
        genre_choice(modes, fields, current.genre@).1,
    ) + flag("track_number"@, numeric_choice(modes, fields, "track_number"@, current.track_number).1)
        + flag("disc_number"@, numeric_choice(modes, fields, "disc_number"@, current.disc_number).1)
        + flag("rating"@, rating_choice(modes, fields, current.rating) != current.rating) + flag(
        "cover_url"@,
        has_cover,
    )
}

/// The tag update a match makes: each field as its choice says, the
/// artists joined by the artist separator, the new cover when one was
/// fetched, and the rest of the current track kept.
pub open spec fn update_of(
    current: AudioTrack,
    modes: Seq<(Seq<char>, Seq<char>)>,
    fields: Seq<(Seq<char>, Seq<char>)>,
    cover: Option<Seq<char>>,
    separator: Seq<char>,
    u: TagUpdate,
) -> bool {
    let t = |key: Seq<char>, cur: Seq<char>| text_choice(modes, fields, key, cur).0;
    &&& u.path@ == current.path@
    &&& u.title@ == t("title"@, current.title@)
    &&& u.artist@ == normalize_separator_spec(t("artist"@, current.artist@), separator)
    &&& u.album@ == t("album"@, current.album@)
    &&& u.album_artist@ == t("album_artist"@, current.album_artist@)
    &&& strings_view(u.genre@) == genre_choice(modes, fields, current.genre@).0
    &&& u.language@ == t("language"@, current.language@)
    &&& u.composer@ == t("composer"@, current.composer@)
    &&& u.lyricist@ == t("lyricist"@, current.lyricist@)
    &&& u.copyright@ == t("copyright"@, current.copyright@)
    &&& u.rating == rating_choice(modes, fields, current.rating)
    &&& u.comment@ == t("comment"@, current.comment@)
    &&& u.lyrics@ == t("lyrics"@, current.lyrics@)
    &&& u.track_number == numeric_choice(modes, fields, "track_number"@, current.track_number).0
    &&& u.disc_number == numeric_choice(modes, fields, "disc_number"@, current.disc_number).0
    &&& u.year@ == t("date"@, current.year@)
    &&& u.replay_gain_track_gain@ == t("replaygain_track_gain"@, current.replay_gain_track_gain@)
    &&& u.replay_gain_track_peak@ == t("replaygain_track_peak"@, current.replay_gain_track_peak@)
    &&& u.replay_gain_album_gain@ == t("replaygain_album_gain"@, current.replay_gain_album_gain@)
    &&& u.replay_gain_album_peak@ == t("replaygain_album_peak"@, current.replay_gain_album_peak@)
    &&& u.replay_gain_reference_loudness@ == current.replay_gain_reference_loudness@
    &&& (match u.cover_data_url {
        Some(c) => cover == Some(c@),
        None => cover is None,
    })
    &&& !u.remove_cover
}

fn genre_exec(fields: &Vec<(String, String)>, config: &MatchConfig, current: &String, changed: &mut Vec<String>) -> (r: Vec<String>)
    ensures
        strings_view(r@) == genre_choice(pairs_view(config.target_modes@), pairs_view(fields@), current@).0,
        strings_view(final(changed)@) == strings_view(old(changed)@) + flag(
            "genre"@,
            genre_choice(pairs_view(config.target_modes@), pairs_view(fields@), current@).1,
        ),
{
    let ghost before = strings_view(changed@);
    let offered = match lookup_exec(fields, "genre") {
        Some(v) => {
            if should_write(config, "genre", str_blank(current.as_str())) && !str_blank(v.as_str()) {
                Some(v)
            } else {
                None
            }
        },
        None => None,
    };
    match offered {
        Some(v) => {
            let values = split_multi_value(v.as_str());
            let joined = join_texts(&values, "; ");
            if !str_eq(joined.as_str(), current.as_str()) {
                changed.push("genre".to_string());
                assert(strings_view(changed@) =~= before + seq!["genre"@]);
            } else {
                assert(strings_view(changed@) =~= before + Seq::<Seq<char>>::empty());
            }
            values
        },
        None => {
            assert(strings_view(changed@) =~= before + Seq::<Seq<char>>::empty());
            let chars = chars_of(current.as_str());
            let pieces = split_chars(chars.as_slice(), ';');
            assert(pieces@.map_values(|v: Vec<char>| v@) =~= split_on(current@, ';'));
            trimmed_nonempty_exec(&pieces)
        },
    }
}

fn rating_exec(fields: &Vec<(String, String)>, config: &MatchConfig, current: Option<u8>) -> (r: Option<u8>)
    ensures
        r == rating_choice(pairs_view(config.target_modes@), pairs_view(fields@), current),
{
    let offer: Option<u64> = match lookup_exec(fields, "rating") {
        Some(v) => {
            let chars = chars_of(v.as_str());
            parse_unsigned_exec(chars.as_slice(), 255u64)
        },
        None => None,
    };
    if should_write(config, "rating", current.is_none()) && offer.is_some() {
        match offer {
            Some(n) => Some(n as u8),
            None => current,
        }
    } else {
        current
    }
}

/// The tag update a match makes and the fields it changes (see
/// [`update_of`] and [`changed_fields`]).
pub fn build_update(
    current: &AudioTrack,
    fields: &Vec<(String, String)>,
    cover_data_url: Option<String>,
    config: &MatchConfig,
    artist_separator: &str,
) -> (r: (TagUpdate, Vec<String>))
    ensures
        update_of(
            *current,
            pairs_view(config.target_modes@),
            pairs_view(fields@),
            match cover_data_url {
                Some(c) => Some(c@),
                None => None,
            },
            artist_separator@,
            r.0,
        ),
        strings_view(r.1@) == changed_fields(
            *current,
            pairs_view(config.target_modes@),
            pairs_view(fields@),
            cover_data_url is Some,
        ),
{
    let mut changed: Vec<String> = Vec::new();
    let title = text_choice_exec(fields, config, "title", &current.title, &mut changed);
    let artist = text_choice_exec(fields, config, "artist", &current.artist, &mut changed);
    let album = text_choice_exec(fields, config, "album", &current.album, &mut changed);
    let album_artist = text_choice_exec(fields, config, "album_artist", &current.album_artist, &mut changed);
    let language = text_choice_exec(fields, config, "language", &current.language, &mut changed);
    let composer = text_choice_exec(fields, config, "composer", &current.composer, &mut changed);
    let lyricist = text_choice_exec(fields, config, "lyricist", &current.lyricist, &mut changed);
    let copyright = text_choice_exec(fields, config, "copyright", &current.copyright, &mut changed);
    let comment = text_choice_exec(fields, config, "comment", &current.comment, &mut changed);
    let lyrics = text_choice_exec(fields, config, "lyrics", &current.lyrics, &mut changed);
    let year = text_choice_exec(fields, config, "date", &current.year, &mut changed);
    let replay_gain_track_gain = text_choice_exec(
        fields,
        config,
        "replaygain_track_gain",
        &current.replay_gain_track_gain,
        &mut changed,
    );
    let replay_gain_track_peak = text_choice_exec(
        fields,
        config,
        "replaygain_track_peak",
        &current.replay_gain_track_peak,
        &mut changed,
    );
    let replay_gain_album_gain = text_choice_exec(
        fields,
        config,
        "replaygain_album_gain",
        &current.replay_gain_album_gain,
        &mut changed,
    );
    let replay_gain_album_peak = text_choice_exec(
        fields,
        config,
        "replaygain_album_peak",
        &current.replay_gain_album_peak,
        &mut changed,
    );
    let genre = genre_exec(fields, config, &current.genre, &mut changed);
    let track_number = numeric_field("track_number", current.track_number, fields, config, &mut changed);
    let disc_number = numeric_field("disc_number", current.disc_number, fields, config, &mut changed);
    let rating = rating_exec(fields, config, current.rating);
    let ghost before_rating = strings_view(changed@);
    if rating != current.rating {
        changed.push("rating".to_string());
    }
    assert(strings_view(changed@) =~= before_rating + flag("rating"@, rating != current.rating));
    let ghost before_cover = strings_view(changed@);
    if cover_data_url.is_some() {
        changed.push("cover_url".to_string());
    }
    assert(strings_view(changed@) =~= before_cover + flag("cover_url"@, cover_data_url is Some));
    let update = TagUpdate {
        path: current.path.clone(),
        title,
        artist: normalize_separator(artist.as_str(), artist_separator),
        album,
        album_artist,
        genre,
        language,
        composer,
        lyricist,
        copyright,
        rating,
        comment,
        lyrics,
        track_number,
        disc_number,
        year,
        replay_gain_track_gain,
        replay_gain_track_peak,
        replay_gain_album_gain,
        replay_gain_album_peak,
        replay_gain_reference_loudness: current.replay_gain_reference_loudness.clone(),
        cover_data_url,
        remove_cover: false,
    };
    assert(strings_view(changed@) =~= changed_fields(
        *current,
        pairs_view(config.target_modes@),
        pairs_view(fields@),
        update.cover_data_url is Some,
    ));
    (update, changed)
}


/// A text field after a match, against the fields listed as changed: a
/// listed field may be written, was offered a value and took it, that value
/// differing from the old one; a field not listed keeps its old value.
pub open spec fn takes_offer(
    changed: Seq<Seq<char>>,
    modes: Seq<(Seq<char>, Seq<char>)>,
    fields: Seq<(Seq<char>, Seq<char>)>,
    key: Seq<char>,
    before: Seq<char>,
    after: Seq<char>,
) -> bool {
    if changed.contains(key) {
        &&& should_write_spec(modes, key, is_blank(before))
        &&& offered(fields, key) == Some(after)
        &&& after != before
    } else {
        after == before
    }
}

/// Texts that are pairwise different.
#[verifier::opaque]
pub open spec fn distinct_texts(s: Seq<Seq<char>>) -> bool {
    s.no_duplicates()
}

proof fn lemma_add_flag(a: Seq<Seq<char>>, key: Seq<char>, b: bool)
    requires
        distinct_texts(a),
        !a.contains(key),
    ensures
        distinct_texts(a + flag(key, b)),
        forall|x: Seq<char>| #[trigger] (a + flag(key, b)).contains(x) <==> a.contains(x) || (b && x == key),
{
    reveal(distinct_texts);
    let s = a + flag(key, b);
    assert forall|x: Seq<char>| #[trigger] s.contains(x) <==> a.contains(x) || (b && x == key) by {
        if s.contains(x) {
            let i = choose|i: int| 0 <= i < s.len() && s[i] == x;
            if i >= a.len() {
                assert(s[i] == key);
            }
        }
        if a.contains(x) {
            let i = choose|i: int| 0 <= i < a.len() && a[i] == x;
            assert(s[i] == x);
        }
        if b && x == key {
            assert(s[a.len() as int] == x);
        }
    }
    assert forall|i: int, j: int| 0 <= i < s.len() && 0 <= j < s.len() && i != j implies s[i] != s[j] by {
        if i < a.len() && j < a.len() {
        } else if i < a.len() {
            assert(a.contains(s[i]));
        } else if j < a.len() {
            assert(a.contains(s[j]));
        }
    }
}

proof fn lemma_update_keys_differ()
    ensures
        "artist"@ != "title"@,
        "album"@ != "title"@,
        "album"@ != "artist"@,
        "album_artist"@ != "title"@,
        "album_artist"@ != "artist"@,
        "album_artist"@ != "album"@,
        "language"@ != "title"@,
        "language"@ != "artist"@,
        "language"@ != "album"@,
        "language"@ != "album_artist"@,
        "composer"@ != "title"@,
        "composer"@ != "artist"@,
        "composer"@ != "album"@,
        "composer"@ != "album_artist"@,
        "composer"@ != "language"@,
        "lyricist"@ != "title"@,
        "lyricist"@ != "artist"@,
        "lyricist"@ != "album"@,
        "lyricist"@ != "album_artist"@,
        "lyricist"@ != "language"@,
        "lyricist"@ != "composer"@,
        "copyright"@ != "title"@,
        "copyright"@ != "artist"@,
        "copyright"@ != "album"@,
        "copyright"@ != "album_artist"@,
        "copyright"@ != "language"@,
        "copyright"@ != "composer"@,
        "copyright"@ != "lyricist"@,
        "comment"@ != "title"@,
        "comment"@ != "artist"@,
        "comment"@ != "album"@,
        "comment"@ != "album_artist"@,
        "comment"@ != "language"@,
        "comment"@ != "composer"@,
        "comment"@ != "lyricist"@,
        "comment"@ != "copyright"@,
        "lyrics"@ != "title"@,
        "lyrics"@ != "artist"@,
        "lyrics"@ != "album"@,
        "lyrics"@ != "album_artist"@,
        "lyrics"@ != "language"@,
        "lyrics"@ != "composer"@,
        "lyrics"@ != "lyricist"@,
        "lyrics"@ != "copyright"@,
        "lyrics"@ != "comment"@,
        "date"@ != "title"@,
        "date"@ != "artist"@,
        "date"@ != "album"@,
        "date"@ != "album_artist"@,
        "date"@ != "language"@,
        "date"@ != "composer"@,
        "date"@ != "lyricist"@,
        "date"@ != "copyright"@,
        "date"@ != "comment"@,
        "date"@ != "lyrics"@,
        "replaygain_track_gain"@ != "title"@,
        "replaygain_track_gain"@ != "artist"@,
        "replaygain_track_gain"@ != "album"@,
        "replaygain_track_gain"@ != "album_artist"@,
        "replaygain_track_gain"@ != "language"@,
        "replaygain_track_gain"@ != "composer"@,
        "replaygain_track_gain"@ != "lyricist"@,
        "replaygain_track_gain"@ != "copyright"@,
        "replaygain_track_gain"@ != "comment"@,
        "replaygain_track_gain"@ != "lyrics"@,
        "replaygain_track_gain"@ != "date"@,
        "replaygain_track_peak"@ != "title"@,
        "replaygain_track_peak"@ != "artist"@,
        "replaygain_track_peak"@ != "album"@,
        "replaygain_track_peak"@ != "album_artist"@,
        "replaygain_track_peak"@ != "language"@,
        "replaygain_track_peak"@ != "composer"@,
        "replaygain_track_peak"@ != "lyricist"@,
        "replaygain_track_peak"@ != "copyright"@,
        "replaygain_track_peak"@ != "comment"@,
        "replaygain_track_peak"@ != "lyrics"@,
        "replaygain_track_peak"@ != "date"@,
        "replaygain_track_peak"@ != "replaygain_track_gain"@,
        "replaygain_album_gain"@ != "title"@,
        "replaygain_album_gain"@ != "artist"@,
        "replaygain_album_gain"@ != "album"@,
        "replaygain_album_gain"@ != "album_artist"@,
        "replaygain_album_gain"@ != "language"@,
        "replaygain_album_gain"@ != "composer"@,
        "replaygain_album_gain"@ != "lyricist"@,
        "replaygain_album_gain"@ != "copyright"@,
        "replaygain_album_gain"@ != "comment"@,
        "replaygain_album_gain"@ != "lyrics"@,
        "replaygain_album_gain"@ != "date"@,
        "replaygain_album_gain"@ != "replaygain_track_gain"@,
        "replaygain_album_gain"@ != "replaygain_track_peak"@,
        "replaygain_album_peak"@ != "title"@,
        "replaygain_album_peak"@ != "artist"@,
        "replaygain_album_peak"@ != "album"@,
        "replaygain_album_peak"@ != "album_artist"@,
        "replaygain_album_peak"@ != "language"@,
        "replaygain_album_peak"@ != "composer"@,
        "replaygain_album_peak"@ != "lyricist"@,
        "replaygain_album_peak"@ != "copyright"@,
        "replaygain_album_peak"@ != "comment"@,
        "replaygain_album_peak"@ != "lyrics"@,
        "replaygain_album_peak"@ != "date"@,
        "replaygain_album_peak"@ != "replaygain_track_gain"@,
        "replaygain_album_peak"@ != "replaygain_track_peak"@,
        "replaygain_album_peak"@ != "replaygain_album_gain"@,
        "genre"@ != "title"@,
        "genre"@ != "artist"@,
        "genre"@ != "album"@,
        "genre"@ != "album_artist"@,
        "genre"@ != "language"@,
        "genre"@ != "composer"@,
        "genre"@ != "lyricist"@,
        "genre"@ != "copyright"@,
        "genre"@ != "comment"@,
        "genre"@ != "lyrics"@,
        "genre"@ != "date"@,
        "genre"@ != "replaygain_track_gain"@,
        "genre"@ != "replaygain_track_peak"@,
        "genre"@ != "replaygain_album_gain"@,
        "genre"@ != "replaygain_album_peak"@,
        "track_number"@ != "title"@,
        "track_number"@ != "artist"@,
        "track_number"@ != "album"@,
        "track_number"@ != "album_artist"@,
        "track_number"@ != "language"@,
        "track_number"@ != "composer"@,
        "track_number"@ != "lyricist"@,
        "track_number"@ != "copyright"@,
        "track_number"@ != "comment"@,
        "track_number"@ != "lyrics"@,
        "track_number"@ != "date"@,
        "track_number"@ != "replaygain_track_gain"@,
        "track_number"@ != "replaygain_track_peak"@,
        "track_number"@ != "replaygain_album_gain"@,
        "track_number"@ != "replaygain_album_peak"@,
        "track_number"@ != "genre"@,
        "disc_number"@ != "title"@,
        "disc_number"@ != "artist"@,
        "disc_number"@ != "album"@,
        "disc_number"@ != "album_artist"@,
        "disc_number"@ != "language"@,
        "disc_number"@ != "composer"@,
        "disc_number"@ != "lyricist"@,
        "disc_number"@ != "copyright"@,
        "disc_number"@ != "comment"@,
        "disc_number"@ != "lyrics"@,
        "disc_number"@ != "date"@,
        "disc_number"@ != "replaygain_track_gain"@,
        "disc_number"@ != "replaygain_track_peak"@,
        "disc_number"@ != "replaygain_album_gain"@,
        "disc_number"@ != "replaygain_album_peak"@,
        "disc_number"@ != "genre"@,
        "disc_number"@ != "track_number"@,
        "rating"@ != "title"@,
        "rating"@ != "artist"@,
        "rating"@ != "album"@,
        "rating"@ != "album_artist"@,
        "rating"@ != "language"@,
        "rating"@ != "composer"@,
        "rating"@ != "lyricist"@,
        "rating"@ != "copyright"@,
        "rating"@ != "comment"@,
        "rating"@ != "lyrics"@,
        "rating"@ != "date"@,
        "rating"@ != "replaygain_track_gain"@,
        "rating"@ != "replaygain_track_peak"@,
        "rating"@ != "replaygain_album_gain"@,
        "rating"@ != "replaygain_album_peak"@,
        "rating"@ != "genre"@,
        "rating"@ != "track_number"@,
        "rating"@ != "disc_number"@,
        "cover_url"@ != "title"@,
        "cover_url"@ != "artist"@,
        "cover_url"@ != "album"@,
        "cover_url"@ != "album_artist"@,
        "cover_url"@ != "language"@,
        "cover_url"@ != "composer"@,
        "cover_url"@ != "lyricist"@,
        "cover_url"@ != "copyright"@,
        "cover_url"@ != "comment"@,
        "cover_url"@ != "lyrics"@,
        "cover_url"@ != "date"@,
        "cover_url"@ != "replaygain_track_gain"@,
        "cover_url"@ != "replaygain_track_peak"@,
        "cover_url"@ != "replaygain_album_gain"@,
        "cover_url"@ != "replaygain_album_peak"@,
        "cover_url"@ != "genre"@,
        "cover_url"@ != "track_number"@,
        "cover_url"@ != "disc_number"@,
        "cover_url"@ != "rating"@,
{
    reveal_strlit("title");
    reveal_strlit("artist");
    reveal_strlit("album");
    reveal_strlit("album_artist");
    reveal_strlit("language");
    reveal_strlit("composer");
    reveal_strlit("lyricist");
    reveal_strlit("copyright");
    reveal_strlit("comment");
    reveal_strlit("lyrics");
    reveal_strlit("date");
    reveal_strlit("replaygain_track_gain");
    reveal_strlit("replaygain_track_peak");
    reveal_strlit("replaygain_album_gain");
    reveal_strlit("replaygain_album_peak");
    reveal_strlit("genre");
    reveal_strlit("track_number");
    reveal_strlit("disc_number");
    reveal_strlit("rating");
    reveal_strlit("cover_url");
    assert("artist"@ != "title"@) by { assert("artist"@.len() == 6); assert("title"@.len() == 5); }
    assert("album"@ != "title"@) by { assert("album"@[0] == 'a'); assert("title"@[0] == 't'); }
    assert("album"@ != "artist"@) by { assert("album"@.len() == 5); assert("artist"@.len() == 6); }
    assert("album_artist"@ != "title"@) by { assert("album_artist"@.len() == 12); assert("title"@.len() == 5); }
    assert("album_artist"@ != "artist"@) by { assert("album_artist"@.len() == 12); assert("artist"@.len() == 6); }
    assert("album_artist"@ != "album"@) by { assert("album_artist"@.len() == 12); assert("album"@.len() == 5); }
    assert("language"@ != "title"@) by { assert("language"@.len() == 8); assert("title"@.len() == 5); }
    assert("language"@ != "artist"@) by { assert("language"@.len() == 8); assert("artist"@.len() == 6); }
    assert("language"@ != "album"@) by { assert("language"@.len() == 8); assert("album"@.len() == 5); }
    assert("language"@ != "album_artist"@) by { assert("language"@.len() == 8); assert("album_artist"@.len() == 12); }
    assert("composer"@ != "title"@) by { assert("composer"@.len() == 8); assert("title"@.len() == 5); }
    assert("composer"@ != "artist"@) by { assert("composer"@.len() == 8); assert("artist"@.len() == 6); }
    assert("composer"@ != "album"@) by { assert("composer"@.len() == 8); assert("album"@.len() == 5); }
    assert("composer"@ != "album_artist"@) by { assert("composer"@.len() == 8); assert("album_artist"@.len() == 12); }
    assert("composer"@ != "language"@) by { assert("composer"@[0] == 'c'); assert("language"@[0] == 'l'); }
    assert("lyricist"@ != "title"@) by { assert("lyricist"@.len() == 8); assert("title"@.len() == 5); }
    assert("lyricist"@ != "artist"@) by { assert("lyricist"@.len() == 8); assert("artist"@.len() == 6); }
    assert("lyricist"@ != "album"@) by { assert("lyricist"@.len() == 8); assert("album"@.len() == 5); }
    assert("lyricist"@ != "album_artist"@) by { assert("lyricist"@.len() == 8); assert("album_artist"@.len() == 12); }
    assert("lyricist"@ != "language"@) by { assert("lyricist"@[1] == 'y'); assert("language"@[1] == 'a'); }
    assert("lyricist"@ != "composer"@) by { assert("lyricist"@[0] == 'l'); assert("composer"@[0] == 'c'); }
    assert("copyright"@ != "title"@) by { assert("copyright"@.len() == 9); assert("title"@.len() == 5); }
    assert("copyright"@ != "artist"@) by { assert("copyright"@.len() == 9); assert("artist"@.len() == 6); }
    assert("copyright"@ != "album"@) by { assert("copyright"@.len() == 9); assert("album"@.len() == 5); }
    assert("copyright"@ != "album_artist"@) by { assert("copyright"@.len() == 9); assert("album_artist"@.len() == 12); }
    assert("copyright"@ != "language"@) by { assert("copyright"@.len() == 9); assert("language"@.len() == 8); }
    assert("copyright"@ != "composer"@) by { assert("copyright"@.len() == 9); assert("composer"@.len() == 8); }
    assert("copyright"@ != "lyricist"@) by { assert("copyright"@.len() == 9); assert("lyricist"@.len() == 8); }
    assert("comment"@ != "title"@) by { assert("comment"@.len() == 7); assert("title"@.len() == 5); }
    assert("comment"@ != "artist"@) by { assert("comment"@.len() == 7); assert("artist"@.len() == 6); }
    assert("comment"@ != "album"@) by { assert("comment"@.len() == 7); assert("album"@.len() == 5); }
    assert("comment"@ != "album_artist"@) by { assert("comment"@.len() == 7); assert("album_artist"@.len() == 12); }
    assert("comment"@ != "language"@) by { assert("comment"@.len() == 7); assert("language"@.len() == 8); }
    assert("comment"@ != "composer"@) by { assert("comment"@.len() == 7); assert("composer"@.len() == 8); }
    assert("comment"@ != "lyricist"@) by { assert("comment"@.len() == 7); assert("lyricist"@.len() == 8); }
    assert("comment"@ != "copyright"@) by { assert("comment"@.len() == 7); assert("copyright"@.len() == 9); }
    assert("lyrics"@ != "title"@) by { assert("lyrics"@.len() == 6); assert("title"@.len() == 5); }
    assert("lyrics"@ != "artist"@) by { assert("lyrics"@[0] == 'l'); assert("artist"@[0] == 'a'); }
    assert("lyrics"@ != "album"@) by { assert("lyrics"@.len() == 6); assert("album"@.len() == 5); }
    assert("lyrics"@ != "album_artist"@) by { assert("lyrics"@.len() == 6); assert("album_artist"@.len() == 12); }
    assert("lyrics"@ != "language"@) by { assert("lyrics"@.len() == 6); assert("language"@.len() == 8); }
    assert("lyrics"@ != "composer"@) by { assert("lyrics"@.len() == 6); assert("composer"@.len() == 8); }
    assert("lyrics"@ != "lyricist"@) by { assert("lyrics"@.len() == 6); assert("lyricist"@.len() == 8); }
    assert("lyrics"@ != "copyright"@) by { assert("lyrics"@.len() == 6); assert("copyright"@.len() == 9); }
    assert("lyrics"@ != "comment"@) by { assert("lyrics"@.len() == 6); assert("comment"@.len() == 7); }
    assert("date"@ != "title"@) by { assert("date"@.len() == 4); assert("title"@.len() == 5); }
    assert("date"@ != "artist"@) by { assert("date"@.len() == 4); assert("artist"@.len() == 6); }
    assert("date"@ != "album"@) by { assert("date"@.len() == 4); assert("album"@.len() == 5); }
    assert("date"@ != "album_artist"@) by { assert("date"@.len() == 4); assert("album_artist"@.len() == 12); }
    assert("date"@ != "language"@) by { assert("date"@.len() == 4); assert("language"@.len() == 8); }
    assert("date"@ != "composer"@) by { assert("date"@.len() == 4); assert("composer"@.len() == 8); }
    assert("date"@ != "lyricist"@) by { assert("date"@.len() == 4); assert("lyricist"@.len() == 8); }
    assert("date"@ != "copyright"@) by { assert("date"@.len() == 4); assert("copyright"@.len() == 9); }
    assert("date"@ != "comment"@) by { assert("date"@.len() == 4); assert("comment"@.len() == 7); }
    assert("date"@ != "lyrics"@) by { assert("date"@.len() == 4); assert("lyrics"@.len() == 6); }
    assert("replaygain_track_gain"@ != "title"@) by { assert("replaygain_track_gain"@.len() == 21); assert("title"@.len() == 5); }
    assert("replaygain_track_gain"@ != "artist"@) by { assert("replaygain_track_gain"@.len() == 21); assert("artist"@.len() == 6); }
    assert("replaygain_track_gain"@ != "album"@) by { assert("replaygain_track_gain"@.len() == 21); assert("album"@.len() == 5); }
    assert("replaygain_track_gain"@ != "album_artist"@) by { assert("replaygain_track_gain"@.len() == 21); assert("album_artist"@.len() == 12); }
    assert("replaygain_track_gain"@ != "language"@) by { assert("replaygain_track_gain"@.len() == 21); assert("language"@.len() == 8); }
    assert("replaygain_track_gain"@ != "composer"@) by { assert("replaygain_track_gain"@.len() == 21); assert("composer"@.len() == 8); }
    assert("replaygain_track_gain"@ != "lyricist"@) by { assert("replaygain_track_gain"@.len() == 21); assert("lyricist"@.len() == 8); }
    assert("replaygain_track_gain"@ != "copyright"@) by { assert("replaygain_track_gain"@.len() == 21); assert("copyright"@.len() == 9); }
    assert("replaygain_track_gain"@ != "comment"@) by { assert("replaygain_track_gain"@.len() == 21); assert("comment"@.len() == 7); }
    assert("replaygain_track_gain"@ != "lyrics"@) by { assert("replaygain_track_gain"@.len() == 21); assert("lyrics"@.len() == 6); }
    assert("replaygain_track_gain"@ != "date"@) by { assert("replaygain_track_gain"@.len() == 21); assert("date"@.len() == 4); }
    assert("replaygain_track_peak"@ != "title"@) by { assert("replaygain_track_peak"@.len() == 21); assert("title"@.len() == 5); }
    assert("replaygain_track_peak"@ != "artist"@) by { assert("replaygain_track_peak"@.len() == 21); assert("artist"@.len() == 6); }
    assert("replaygain_track_peak"@ != "album"@) by { assert("replaygain_track_peak"@.len() == 21); assert("album"@.len() == 5); }
    assert("replaygain_track_peak"@ != "album_artist"@) by { assert("replaygain_track_peak"@.len() == 21); assert("album_artist"@.len() == 12); }
    assert("replaygain_track_peak"@ != "language"@) by { assert("replaygain_track_peak"@.len() == 21); assert("language"@.len() == 8); }
    assert("replaygain_track_peak"@ != "composer"@) by { assert("replaygain_track_peak"@.len() == 21); assert("composer"@.len() == 8); }
    assert("replaygain_track_peak"@ != "lyricist"@) by { assert("replaygain_track_peak"@.len() == 21); assert("lyricist"@.len() == 8); }
    assert("replaygain_track_peak"@ != "copyright"@) by { assert("replaygain_track_peak"@.len() == 21); assert("copyright"@.len() == 9); }
    assert("replaygain_track_peak"@ != "comment"@) by { assert("replaygain_track_peak"@.len() == 21); assert("comment"@.len() == 7); }
    assert("replaygain_track_peak"@ != "lyrics"@) by { assert("replaygain_track_peak"@.len() == 21); assert("lyrics"@.len() == 6); }
    assert("replaygain_track_peak"@ != "date"@) by { assert("replaygain_track_peak"@.len() == 21); assert("date"@.len() == 4); }
    assert("replaygain_track_peak"@ != "replaygain_track_gain"@) by { assert("replaygain_track_peak"@[17] == 'p'); assert("replaygain_track_gain"@[17] == 'g'); }
    assert("replaygain_album_gain"@ != "title"@) by { assert("replaygain_album_gain"@.len() == 21); assert("title"@.len() == 5); }
    assert("replaygain_album_gain"@ != "artist"@) by { assert("replaygain_album_gain"@.len() == 21); assert("artist"@.len() == 6); }
    assert("replaygain_album_gain"@ != "album"@) by { assert("replaygain_album_gain"@.len() == 21); assert("album"@.len() == 5); }
    assert("replaygain_album_gain"@ != "album_artist"@) by { assert("replaygain_album_gain"@.len() == 21); assert("album_artist"@.len() == 12); }
    assert("replaygain_album_gain"@ != "language"@) by { assert("replaygain_album_gain"@.len() == 21); assert("language"@.len() == 8); }
    assert("replaygain_album_gain"@ != "composer"@) by { assert("replaygain_album_gain"@.len() == 21); assert("composer"@.len() == 8); }
    assert("replaygain_album_gain"@ != "lyricist"@) by { assert("replaygain_album_gain"@.len() == 21); assert("lyricist"@.len() == 8); }
    assert("replaygain_album_gain"@ != "copyright"@) by { assert("replaygain_album_gain"@.len() == 21); assert("copyright"@.len() == 9); }
    assert("replaygain_album_gain"@ != "comment"@) by { assert("replaygain_album_gain"@.len() == 21); assert("comment"@.len() == 7); }
    assert("replaygain_album_gain"@ != "lyrics"@) by { assert("replaygain_album_gain"@.len() == 21); assert("lyrics"@.len() == 6); }
    assert("replaygain_album_gain"@ != "date"@) by { assert("replaygain_album_gain"@.len() == 21); assert("date"@.len() == 4); }
    assert("replaygain_album_gain"@ != "replaygain_track_gain"@) by { assert("replaygain_album_gain"@[11] == 'a'); assert("replaygain_track_gain"@[11] == 't'); }
    assert("replaygain_album_gain"@ != "replaygain_track_peak"@) by { assert("replaygain_album_gain"@[11] == 'a'); assert("replaygain_track_peak"@[11] == 't'); }
    assert("replaygain_album_peak"@ != "title"@) by { assert("replaygain_album_peak"@.len() == 21); assert("title"@.len() == 5); }
    assert("replaygain_album_peak"@ != "artist"@) by { assert("replaygain_album_peak"@.len() == 21); assert("artist"@.len() == 6); }
    assert("replaygain_album_peak"@ != "album"@) by { assert("replaygain_album_peak"@.len() == 21); assert("album"@.len() == 5); }
    assert("replaygain_album_peak"@ != "album_artist"@) by { assert("replaygain_album_peak"@.len() == 21); assert("album_artist"@.len() == 12); }
    assert("replaygain_album_peak"@ != "language"@) by { assert("replaygain_album_peak"@.len() == 21); assert("language"@.len() == 8); }
    assert("replaygain_album_peak"@ != "composer"@) by { assert("replaygain_album_peak"@.len() == 21); assert("composer"@.len() == 8); }
    assert("replaygain_album_peak"@ != "lyricist"@) by { assert("replaygain_album_peak"@.len() == 21); assert("lyricist"@.len() == 8); }
    assert("replaygain_album_peak"@ != "copyright"@) by { assert("replaygain_album_peak"@.len() == 21); assert("copyright"@.len() == 9); }
    assert("replaygain_album_peak"@ != "comment"@) by { assert("replaygain_album_peak"@.len() == 21); assert("comment"@.len() == 7); }
    assert("replaygain_album_peak"@ != "lyrics"@) by { assert("replaygain_album_peak"@.len() == 21); assert("lyrics"@.len() == 6); }
    assert("replaygain_album_peak"@ != "date"@) by { assert("replaygain_album_peak"@.len() == 21); assert("date"@.len() == 4); }
    assert("replaygain_album_peak"@ != "replaygain_track_gain"@) by { assert("replaygain_album_peak"@[11] == 'a'); assert("replaygain_track_gain"@[11] == 't'); }
    assert("replaygain_album_peak"@ != "replaygain_track_peak"@) by { assert("replaygain_album_peak"@[11] == 'a'); assert("replaygain_track_peak"@[11] == 't'); }
    assert("replaygain_album_peak"@ != "replaygain_album_gain"@) by { assert("replaygain_album_peak"@[17] == 'p'); assert("replaygain_album_gain"@[17] == 'g'); }
    assert("genre"@ != "title"@) by { assert("genre"@[0] == 'g'); assert("title"@[0] == 't'); }
    assert("genre"@ != "artist"@) by { assert("genre"@.len() == 5); assert("artist"@.len() == 6); }
    assert("genre"@ != "album"@) by { assert("genre"@[0] == 'g'); assert("album"@[0] == 'a'); }
    assert("genre"@ != "album_artist"@) by { assert("genre"@.len() == 5); assert("album_artist"@.len() == 12); }
    assert("genre"@ != "language"@) by { assert("genre"@.len() == 5); assert("language"@.len() == 8); }
    assert("genre"@ != "composer"@) by { assert("genre"@.len() == 5); assert("composer"@.len() == 8); }
    assert("genre"@ != "lyricist"@) by { assert("genre"@.len() == 5); assert("lyricist"@.len() == 8); }
    assert("genre"@ != "copyright"@) by { assert("genre"@.len() == 5); assert("copyright"@.len() == 9); }
    assert("genre"@ != "comment"@) by { assert("genre"@.len() == 5); assert("comment"@.len() == 7); }
    assert("genre"@ != "lyrics"@) by { assert("genre"@.len() == 5); assert("lyrics"@.len() == 6); }
    assert("genre"@ != "date"@) by { assert("genre"@.len() == 5); assert("date"@.len() == 4); }
    assert("genre"@ != "replaygain_track_gain"@) by { assert("genre"@.len() == 5); assert("replaygain_track_gain"@.len() == 21); }
    assert("genre"@ != "replaygain_track_peak"@) by { assert("genre"@.len() == 5); assert("replaygain_track_peak"@.len() == 21); }
    assert("genre"@ != "replaygain_album_gain"@) by { assert("genre"@.len() == 5); assert("replaygain_album_gain"@.len() == 21); }
    assert("genre"@ != "replaygain_album_peak"@) by { assert("genre"@.len() == 5); assert("replaygain_album_peak"@.len() == 21); }
    assert("track_number"@ != "title"@) by { assert("track_number"@.len() == 12); assert("title"@.len() == 5); }
    assert("track_number"@ != "artist"@) by { assert("track_number"@.len() == 12); assert("artist"@.len() == 6); }
    assert("track_number"@ != "album"@) by { assert("track_number"@.len() == 12); assert("album"@.len() == 5); }
    assert("track_number"@ != "album_artist"@) by { assert("track_number"@[0] == 't'); assert("album_artist"@[0] == 'a'); }
    assert("track_number"@ != "language"@) by { assert("track_number"@.len() == 12); assert("language"@.len() == 8); }
    assert("track_number"@ != "composer"@) by { assert("track_number"@.len() == 12); assert("composer"@.len() == 8); }
    assert("track_number"@ != "lyricist"@) by { assert("track_number"@.len() == 12); assert("lyricist"@.len() == 8); }
    assert("track_number"@ != "copyright"@) by { assert("track_number"@.len() == 12); assert("copyright"@.len() == 9); }
    assert("track_number"@ != "comment"@) by { assert("track_number"@.len() == 12); assert("comment"@.len() == 7); }
    assert("track_number"@ != "lyrics"@) by { assert("track_number"@.len() == 12); assert("lyrics"@.len() == 6); }
    assert("track_number"@ != "date"@) by { assert("track_number"@.len() == 12); assert("date"@.len() == 4); }
    assert("track_number"@ != "replaygain_track_gain"@) by { assert("track_number"@.len() == 12); assert("replaygain_track_gain"@.len() == 21); }
    assert("track_number"@ != "replaygain_track_peak"@) by { assert("track_number"@.len() == 12); assert("replaygain_track_peak"@.len() == 21); }
    assert("track_number"@ != "replaygain_album_gain"@) by { assert("track_number"@.len() == 12); assert("replaygain_album_gain"@.len() == 21); }
    assert("track_number"@ != "replaygain_album_peak"@) by { assert("track_number"@.len() == 12); assert("replaygain_album_peak"@.len() == 21); }
    assert("track_number"@ != "genre"@) by { assert("track_number"@.len() == 12); assert("genre"@.len() == 5); }
    assert("disc_number"@ != "title"@) by { assert("disc_number"@.len() == 11); assert("title"@.len() == 5); }
    assert("disc_number"@ != "artist"@) by { assert("disc_number"@.len() == 11); assert("artist"@.len() == 6); }
    assert("disc_number"@ != "album"@) by { assert("disc_number"@.len() == 11); assert("album"@.len() == 5); }
    assert("disc_number"@ != "album_artist"@) by { assert("disc_number"@.len() == 11); assert("album_artist"@.len() == 12); }
    assert("disc_number"@ != "language"@) by { assert("disc_number"@.len() == 11); assert("language"@.len() == 8); }
    assert("disc_number"@ != "composer"@) by { assert("disc_number"@.len() == 11); assert("composer"@.len() == 8); }
    assert("disc_number"@ != "lyricist"@) by { assert("disc_number"@.len() == 11); assert("lyricist"@.len() == 8); }
    assert("disc_number"@ != "copyright"@) by { assert("disc_number"@.len() == 11); assert("copyright"@.len() == 9); }
    assert("disc_number"@ != "comment"@) by { assert("disc_number"@.len() == 11); assert("comment"@.len() == 7); }
    assert("disc_number"@ != "lyrics"@) by { assert("disc_number"@.len() == 11); assert("lyrics"@.len() == 6); }
    assert("disc_number"@ != "date"@) by { assert("disc_number"@.len() == 11); assert("date"@.len() == 4); }
    assert("disc_number"@ != "replaygain_track_gain"@) by { assert("disc_number"@.len() == 11); assert("replaygain_track_gain"@.len() == 21); }
    assert("disc_number"@ != "replaygain_track_peak"@) by { assert("disc_number"@.len() == 11); assert("replaygain_track_peak"@.len() == 21); }
    assert("disc_number"@ != "replaygain_album_gain"@) by { assert("disc_number"@.len() == 11); assert("replaygain_album_gain"@.len() == 21); }
    assert("disc_number"@ != "replaygain_album_peak"@) by { assert("disc_number"@.len() == 11); assert("replaygain_album_peak"@.len() == 21); }
    assert("disc_number"@ != "genre"@) by { assert("disc_number"@.len() == 11); assert("genre"@.len() == 5); }
    assert("disc_number"@ != "track_number"@) by { assert("disc_number"@.len() == 11); assert("track_number"@.len() == 12); }
    assert("rating"@ != "title"@) by { assert("rating"@.len() == 6); assert("title"@.len() == 5); }
    assert("rating"@ != "artist"@) by { assert("rating"@[0] == 'r'); assert("artist"@[0] == 'a'); }
    assert("rating"@ != "album"@) by { assert("rating"@.len() == 6); assert("album"@.len() == 5); }
    assert("rating"@ != "album_artist"@) by { assert("rating"@.len() == 6); assert("album_artist"@.len() == 12); }
    assert("rating"@ != "language"@) by { assert("rating"@.len() == 6); assert("language"@.len() == 8); }
    assert("rating"@ != "composer"@) by { assert("rating"@.len() == 6); assert("composer"@.len() == 8); }
    assert("rating"@ != "lyricist"@) by { assert("rating"@.len() == 6); assert("lyricist"@.len() == 8); }
    assert("rating"@ != "copyright"@) by { assert("rating"@.len() == 6); assert("copyright"@.len() == 9); }
    assert("rating"@ != "comment"@) by { assert("rating"@.len() == 6); assert("comment"@.len() == 7); }
    assert("rating"@ != "lyrics"@) by { assert("rating"@[0] == 'r'); assert("lyrics"@[0] == 'l'); }
    assert("rating"@ != "date"@) by { assert("rating"@.len() == 6); assert("date"@.len() == 4); }
    assert("rating"@ != "replaygain_track_gain"@) by { assert("rating"@.len() == 6); assert("replaygain_track_gain"@.len() == 21); }
    assert("rating"@ != "replaygain_track_peak"@) by { assert("rating"@.len() == 6); assert("replaygain_track_peak"@.len() == 21); }
    assert("rating"@ != "replaygain_album_gain"@) by { assert("rating"@.len() == 6); assert("replaygain_album_gain"@.len() == 21); }
    assert("rating"@ != "replaygain_album_peak"@) by { assert("rating"@.len() == 6); assert("replaygain_album_peak"@.len() == 21); }
    assert("rating"@ != "genre"@) by { assert("rating"@.len() == 6); assert("genre"@.len() == 5); }
    assert("rating"@ != "track_number"@) by { assert("rating"@.len() == 6); assert("track_number"@.len() == 12); }
    assert("rating"@ != "disc_number"@) by { assert("rating"@.len() == 6); assert("disc_number"@.len() == 11); }
    assert("cover_url"@ != "title"@) by { assert("cover_url"@.len() == 9); assert("title"@.len() == 5); }
    assert("cover_url"@ != "artist"@) by { assert("cover_url"@.len() == 9); assert("artist"@.len() == 6); }
    assert("cover_url"@ != "album"@) by { assert("cover_url"@.len() == 9); assert("album"@.len() == 5); }
    assert("cover_url"@ != "album_artist"@) by { assert("cover_url"@.len() == 9); assert("album_artist"@.len() == 12); }
    assert("cover_url"@ != "language"@) by { assert("cover_url"@.len() == 9); assert("language"@.len() == 8); }
    assert("cover_url"@ != "composer"@) by { assert("cover_url"@.len() == 9); assert("composer"@.len() == 8); }
    assert("cover_url"@ != "lyricist"@) by { assert("cover_url"@.len() == 9); assert("lyricist"@.len() == 8); }
    assert("cover_url"@ != "copyright"@) by { assert("cover_url"@[2] == 'v'); assert("copyright"@[2] == 'p'); }
    assert("cover_url"@ != "comment"@) by { assert("cover_url"@.len() == 9); assert("comment"@.len() == 7); }
    assert("cover_url"@ != "lyrics"@) by { assert("cover_url"@.len() == 9); assert("lyrics"@.len() == 6); }
    assert("cover_url"@ != "date"@) by { assert("cover_url"@.len() == 9); assert("date"@.len() == 4); }
    assert("cover_url"@ != "replaygain_track_gain"@) by { assert("cover_url"@.len() == 9); assert("replaygain_track_gain"@.len() == 21); }
    assert("cover_url"@ != "replaygain_track_peak"@) by { assert("cover_url"@.len() == 9); assert("replaygain_track_peak"@.len() == 21); }
    assert("cover_url"@ != "replaygain_album_gain"@) by { assert("cover_url"@.len() == 9); assert("replaygain_album_gain"@.len() == 21); }
    assert("cover_url"@ != "replaygain_album_peak"@) by { assert("cover_url"@.len() == 9); assert("replaygain_album_peak"@.len() == 21); }
    assert("cover_url"@ != "genre"@) by { assert("cover_url"@.len() == 9); assert("genre"@.len() == 5); }
    assert("cover_url"@ != "track_number"@) by { assert("cover_url"@.len() == 9); assert("track_number"@.len() == 12); }
    assert("cover_url"@ != "disc_number"@) by { assert("cover_url"@.len() == 9); assert("disc_number"@.len() == 11); }
    assert("cover_url"@ != "rating"@) by { assert("cover_url"@.len() == 9); assert("rating"@.len() == 6); }
}

/// The keys among the first `n` whose flag is set, in order.
pub open spec fn flagged(keys: Seq<Seq<char>>, changes: Seq<bool>, n: nat) -> Seq<Seq<char>>
    decreases n,
{
    if n == 0 {
        Seq::empty()
    } else {
        flagged(keys, changes, (n - 1) as nat) + flag(keys[n - 1], changes[n - 1])
    }
}

proof fn lemma_flagged(keys: Seq<Seq<char>>, changes: Seq<bool>, n: nat)
    requires
        n <= keys.len(),
        n <= changes.len(),
        forall|i: int, j: int| 0 <= i < j < n ==> keys[i] != keys[j],
    ensures
        distinct_texts(flagged(keys, changes, n)),
        forall|x: Seq<char>| #[trigger] flagged(keys, changes, n).contains(x)
            <==> exists|i: int| 0 <= i < n && keys[i] == x && changes[i],
    decreases n,
{
    if n == 0 {
        reveal(distinct_texts);
    } else {
        let m = (n - 1) as nat;
        lemma_flagged(keys, changes, m);
        let a = flagged(keys, changes, m);
        if a.contains(keys[m as int]) {
            let i = choose|i: int| 0 <= i < m && keys[i] == keys[m as int] && changes[i];
            assert(keys[i] != keys[m as int]);
        }
        lemma_add_flag(a, keys[m as int], changes[m as int]);
        assert forall|x: Seq<char>| #[trigger] flagged(keys, changes, n).contains(x)
            <==> exists|i: int| 0 <= i < n && keys[i] == x && changes[i] by {
            if exists|i: int| 0 <= i < n && keys[i] == x && changes[i] {
                let i = choose|i: int| 0 <= i < n && keys[i] == x && changes[i];
                if i < m {
                    assert(a.contains(x));
                }
            }
        }
    }
}

/// The keys of the fields a match may list as changed, in the order they
/// are considered.
pub open spec fn update_keys() -> Seq<Seq<char>> {
    seq![
        "title"@,
        "artist"@,
        "album"@,
        "album_artist"@,
        "language"@,
        "composer"@,
        "lyricist"@,
        "copyright"@,
        "comment"@,
        "lyrics"@,
        "date"@,
        "replaygain_track_gain"@,
        "replaygain_track_peak"@,
        "replaygain_album_gain"@,
        "replaygain_album_peak"@,
        "genre"@,
        "track_number"@,
        "disc_number"@,
        "rating"@,
        "cover_url"@,
    ]
}

proof fn lemma_update_keys_distinct()
    ensures
        forall|i: int, j: int| 0 <= i < j < 20 ==> update_keys()[i] != update_keys()[j],
{
    lemma_update_keys_differ();
    let k = update_keys();
    assert(k[0] == "title"@);
    assert(k[1] == "artist"@);
    assert(k[2] == "album"@);
    assert(k[3] == "album_artist"@);
    assert(k[4] == "language"@);
    assert(k[5] == "composer"@);
    assert(k[6] == "lyricist"@);
    assert(k[7] == "copyright"@);
    assert(k[8] == "comment"@);
    assert(k[9] == "lyrics"@);
    assert(k[10] == "date"@);
    assert(k[11] == "replaygain_track_gain"@);
    assert(k[12] == "replaygain_track_peak"@);
    assert(k[13] == "replaygain_album_gain"@);
    assert(k[14] == "replaygain_album_peak"@);
    assert(k[15] == "genre"@);
    assert(k[16] == "track_number"@);
    assert(k[17] == "disc_number"@);
    assert(k[18] == "rating"@);
    assert(k[19] == "cover_url"@);
}

/// Whether each field of [`update_keys`] changes in a match.
pub open spec fn field_changes(
    current: AudioTrack,
    modes: Seq<(Seq<char>, Seq<char>)>,
    fields: Seq<(Seq<char>, Seq<char>)>,
    has_cover: bool,
) -> Seq<bool> {
    seq![
        text_choice(modes, fields, "title"@, current.title@).1,
        text_choice(modes, fields, "artist"@, current.artist@).1,
        text_choice(modes, fields, "album"@, current.album@).1,
        text_choice(modes, fields, "album_artist"@, current.album_artist@).1,
        text_choice(modes, fields, "language"@, current.language@).1,
        text_choice(modes, fields, "composer"@, current.composer@).1,
        text_choice(modes, fields, "lyricist"@, current.lyricist@).1,
        text_choice(modes, fields, "copyright"@, current.copyright@).1,
        text_choice(modes, fields, "comment"@, current.comment@).1,
        text_choice(modes, fields, "lyrics"@, current.lyrics@).1,
        text_choice(modes, fields, "date"@, current.year@).1,
        text_choice(modes, fields, "replaygain_track_gain"@, current.replay_gain_track_gain@).1,
        text_choice(modes, fields, "replaygain_track_peak"@, current.replay_gain_track_peak@).1,
        text_choice(modes, fields, "replaygain_album_gain"@, current.replay_gain_album_gain@).1,
        text_choice(modes, fields, "replaygain_album_peak"@, current.replay_gain_album_peak@).1,
        genre_choice(modes, fields, current.genre@).1,
        numeric_choice(modes, fields, "track_number"@, current.track_number).1,
        numeric_choice(modes, fields, "disc_number"@, current.disc_number).1,
        rating_choice(modes, fields, current.rating) != current.rating,
        has_cover,
    ]
}

proof fn lemma_changed_fields_flagged(
    current: AudioTrack,
    modes: Seq<(Seq<char>, Seq<char>)>,
    fields: Seq<(Seq<char>, Seq<char>)>,
    has_cover: bool,
)
    ensures
        changed_fields(current, modes, fields, has_cover)
            === flagged(update_keys(), field_changes(current, modes, fields, has_cover), 20),
{
    let k = update_keys();
    let c = field_changes(current, modes, fields, has_cover);
    reveal_with_fuel(flagged, 21);
    assert(k[0] == "title"@ && c[0] == (text_choice(modes, fields, "title"@, current.title@).1));
    assert(k[1] == "artist"@ && c[1] == (text_choice(modes, fields, "artist"@, current.artist@).1));
    assert(k[2] == "album"@ && c[2] == (text_choice(modes, fields, "album"@, current.album@).1));
    assert(k[3] == "album_artist"@ && c[3] == (text_choice(modes, fields, "album_artist"@, current.album_artist@).1));
    assert(k[4] == "language"@ && c[4] == (text_choice(modes, fields, "language"@, current.language@).1));
    assert(k[5] == "composer"@ && c[5] == (text_choice(modes, fields, "composer"@, current.composer@).1));
    assert(k[6] == "lyricist"@ && c[6] == (text_choice(modes, fields, "lyricist"@, current.lyricist@).1));
    assert(k[7] == "copyright"@ && c[7] == (text_choice(modes, fields, "copyright"@, current.copyright@).1));
    assert(k[8] == "comment"@ && c[8] == (text_choice(modes, fields, "comment"@, current.comment@).1));
    assert(k[9] == "lyrics"@ && c[9] == (text_choice(modes, fields, "lyrics"@, current.lyrics@).1));
    assert(k[10] == "date"@ && c[10] == (text_choice(modes, fields, "date"@, current.year@).1));
    assert(k[11] == "replaygain_track_gain"@ && c[11] == (text_choice(modes, fields, "replaygain_track_gain"@, current.replay_gain_track_gain@).1));
    assert(k[12] == "replaygain_track_peak"@ && c[12] == (text_choice(modes, fields, "replaygain_track_peak"@, current.replay_gain_track_peak@).1));
    assert(k[13] == "replaygain_album_gain"@ && c[13] == (text_choice(modes, fields, "replaygain_album_gain"@, current.replay_gain_album_gain@).1));
    assert(k[14] == "replaygain_album_peak"@ && c[14] == (text_choice(modes, fields, "replaygain_album_peak"@, current.replay_gain_album_peak@).1));
    assert(k[15] == "genre"@ && c[15] == (genre_choice(modes, fields, current.genre@).1));
    assert(k[16] == "track_number"@ && c[16] == (numeric_choice(modes, fields, "track_number"@, current.track_number).1));
    assert(k[17] == "disc_number"@ && c[17] == (numeric_choice(modes, fields, "disc_number"@, current.disc_number).1));
    assert(k[18] == "rating"@ && c[18] == (rating_choice(modes, fields, current.rating) != current.rating));
    assert(k[19] == "cover_url"@ && c[19] == (has_cover));
}

proof fn lemma_flagged_keys(changes: Seq<bool>)
    requires
        changes.len() == 20,
    ensures
        distinct_texts(flagged(update_keys(), changes, 20)),
        flagged(update_keys(), changes, 20).contains("title"@) <==> changes[0],
        flagged(update_keys(), changes, 20).contains("artist"@) <==> changes[1],
        flagged(update_keys(), changes, 20).contains("album"@) <==> changes[2],
        flagged(update_keys(), changes, 20).contains("album_artist"@) <==> changes[3],
        flagged(update_keys(), changes, 20).contains("language"@) <==> changes[4],
        flagged(update_keys(), changes, 20).contains("composer"@) <==> changes[5],
        flagged(update_keys(), changes, 20).contains("lyricist"@) <==> changes[6],
        flagged(update_keys(), changes, 20).contains("copyright"@) <==> changes[7],
        flagged(update_keys(), changes, 20).contains("comment"@) <==> changes[8],
        flagged(update_keys(), changes, 20).contains("lyrics"@) <==> changes[9],
        flagged(update_keys(), changes, 20).contains("date"@) <==> changes[10],
        flagged(update_keys(), changes, 20).contains("replaygain_track_gain"@) <==> changes[11],
        flagged(update_keys(), changes, 20).contains("replaygain_track_peak"@) <==> changes[12],
        flagged(update_keys(), changes, 20).contains("replaygain_album_gain"@) <==> changes[13],
        flagged(update_keys(), changes, 20).contains("replaygain_album_peak"@) <==> changes[14],
        flagged(update_keys(), changes, 20).contains("genre"@) <==> changes[15],
        flagged(update_keys(), changes, 20).contains("track_number"@) <==> changes[16],
        flagged(update_keys(), changes, 20).contains("disc_number"@) <==> changes[17],
        flagged(update_keys(), changes, 20).contains("rating"@) <==> changes[18],
        flagged(update_keys(), changes, 20).contains("cover_url"@) <==> changes[19],
{
    let k = update_keys();
    lemma_update_keys_distinct();
    lemma_flagged(k, changes, 20);
    assert(k[0] == "title"@);
    assert(k[1] == "artist"@);
    assert(k[2] == "album"@);
    assert(k[3] == "album_artist"@);
    assert(k[4] == "language"@);
    assert(k[5] == "composer"@);
    assert(k[6] == "lyricist"@);
    assert(k[7] == "copyright"@);
    assert(k[8] == "comment"@);
    assert(k[9] == "lyrics"@);
    assert(k[10] == "date"@);
    assert(k[11] == "replaygain_track_gain"@);
    assert(k[12] == "replaygain_track_peak"@);
    assert(k[13] == "replaygain_album_gain"@);
    assert(k[14] == "replaygain_album_peak"@);
    assert(k[15] == "genre"@);
    assert(k[16] == "track_number"@);
    assert(k[17] == "disc_number"@);
    assert(k[18] == "rating"@);
    assert(k[19] == "cover_url"@);
    if flagged(k, changes, 20).contains("title"@) {
        let i = choose|i: int| 0 <= i < 20 && k[i] == "title"@ && changes[i];
        assert(i == 0);
    }
    if flagged(k, changes, 20).contains("artist"@) {
        let i = choose|i: int| 0 <= i < 20 && k[i] == "artist"@ && changes[i];
        assert(i == 1);
    }
    if flagged(k, changes, 20).contains("album"@) {
        let i = choose|i: int| 0 <= i < 20 && k[i] == "album"@ && changes[i];
        assert(i == 2);
    }
    if flagged(k, changes, 20).contains("album_artist"@) {
        let i = choose|i: int| 0 <= i < 20 && k[i] == "album_artist"@ && changes[i];
        assert(i == 3);
    }
    if flagged(k, changes, 20).contains("language"@) {
        let i = choose|i: int| 0 <= i < 20 && k[i] == "language"@ && changes[i];
        assert(i == 4);
    }
    if flagged(k, changes, 20).contains("composer"@) {
        let i = choose|i: int| 0 <= i < 20 && k[i] == "composer"@ && changes[i];
        assert(i == 5);
    }
    if flagged(k, changes, 20).contains("lyricist"@) {
        let i = choose|i: int| 0 <= i < 20 && k[i] == "lyricist"@ && changes[i];
        assert(i == 6);
    }
    if flagged(k, changes, 20).contains("copyright"@) {
        let i = choose|i: int| 0 <= i < 20 && k[i] == "copyright"@ && changes[i];
        assert(i == 7);
    }
    if flagged(k, changes, 20).contains("comment"@) {
        let i = choose|i: int| 0 <= i < 20 && k[i] == "comment"@ && changes[i];
        assert(i == 8);
    }
    if flagged(k, changes, 20).contains("lyrics"@) {
        let i = choose|i: int| 0 <= i < 20 && k[i] == "lyrics"@ && changes[i];
        assert(i == 9);
    }
    if flagged(k, changes, 20).contains("date"@) {
        let i = choose|i: int| 0 <= i < 20 && k[i] == "date"@ && changes[i];
        assert(i == 10);
    }
    if flagged(k, changes, 20).contains("replaygain_track_gain"@) {
        let i = choose|i: int| 0 <= i < 20 && k[i] == "replaygain_track_gain"@ && changes[i];
        assert(i == 11);
    }
    if flagged(k, changes, 20).contains("replaygain_track_peak"@) {
        let i = choose|i: int| 0 <= i < 20 && k[i] == "replaygain_track_peak"@ && changes[i];
        assert(i == 12);
    }
    if flagged(k, changes, 20).contains("replaygain_album_gain"@) {
        let i = choose|i: int| 0 <= i < 20 && k[i] == "replaygain_album_gain"@ && changes[i];
        assert(i == 13);
    }
    if flagged(k, changes, 20).contains("replaygain_album_peak"@) {
        let i = choose|i: int| 0 <= i < 20 && k[i] == "replaygain_album_peak"@ && changes[i];
        assert(i == 14);
    }
    if flagged(k, changes, 20).contains("genre"@) {
        let i = choose|i: int| 0 <= i < 20 && k[i] == "genre"@ && changes[i];
        assert(i == 15);
    }
    if flagged(k, changes, 20).contains("track_number"@) {
        let i = choose|i: int| 0 <= i < 20 && k[i] == "track_number"@ && changes[i];
        assert(i == 16);
    }
    if flagged(k, changes, 20).contains("disc_number"@) {
        let i = choose|i: int| 0 <= i < 20 && k[i] == "disc_number"@ && changes[i];
        assert(i == 17);
    }
    if flagged(k, changes, 20).contains("rating"@) {
        let i = choose|i: int| 0 <= i < 20 && k[i] == "rating"@ && changes[i];
        assert(i == 18);
    }
    if flagged(k, changes, 20).contains("cover_url"@) {
        let i = choose|i: int| 0 <= i < 20 && k[i] == "cover_url"@ && changes[i];
        assert(i == 19);
    }
}

/// A match lists each changed field once, and lists a field exactly when
/// its choice changes it; the cover is listed exactly when a new cover was
/// fetched.
pub proof fn changed_fields_law(
    current: AudioTrack,
    modes: Seq<(Seq<char>, Seq<char>)>,
    fields: Seq<(Seq<char>, Seq<char>)>,
    has_cover: bool,
)
    ensures
        changed_fields(current, modes, fields, has_cover).no_duplicates(),
        changed_fields(current, modes, fields, has_cover).contains("title"@) <==> text_choice(modes, fields, "title"@, current.title@).1,
        changed_fields(current, modes, fields, has_cover).contains("artist"@) <==> text_choice(modes, fields, "artist"@, current.artist@).1,
        changed_fields(current, modes, fields, has_cover).contains("album"@) <==> text_choice(modes, fields, "album"@, current.album@).1,
        changed_fields(current, modes, fields, has_cover).contains("album_artist"@) <==> text_choice(modes, fields, "album_artist"@, current.album_artist@).1,
        changed_fields(current, modes, fields, has_cover).contains("language"@) <==> text_choice(modes, fields, "language"@, current.language@).1,
        changed_fields(current, modes, fields, has_cover).contains("composer"@) <==> text_choice(modes, fields, "composer"@, current.composer@).1,
        changed_fields(current, modes, fields, has_cover).contains("lyricist"@) <==> text_choice(modes, fields, "lyricist"@, current.lyricist@).1,
        changed_fields(current, modes, fields, has_cover).contains("copyright"@) <==> text_choice(modes, fields, "copyright"@, current.copyright@).1,
        changed_fields(current, modes, fields, has_cover).contains("comment"@) <==> text_choice(modes, fields, "comment"@, current.comment@).1,
        changed_fields(current, modes, fields, has_cover).contains("lyrics"@) <==> text_choice(modes, fields, "lyrics"@, current.lyrics@).1,
        changed_fields(current, modes, fields, has_cover).contains("date"@) <==> text_choice(modes, fields, "date"@, current.year@).1,
        changed_fields(current, modes, fields, has_cover).contains("replaygain_track_gain"@) <==> text_choice(modes, fields, "replaygain_track_gain"@, current.replay_gain_track_gain@).1,
        changed_fields(current, modes, fields, has_cover).contains("replaygain_track_peak"@) <==> text_choice(modes, fields, "replaygain_track_peak"@, current.replay_gain_track_peak@).1,
        changed_fields(current, modes, fields, has_cover).contains("replaygain_album_gain"@) <==> text_choice(modes, fields, "replaygain_album_gain"@, current.replay_gain_album_gain@).1,
        changed_fields(current, modes, fields, has_cover).contains("replaygain_album_peak"@) <==> text_choice(modes, fields, "replaygain_album_peak"@, current.replay_gain_album_peak@).1,
        changed_fields(current, modes, fields, has_cover).contains("genre"@) <==> genre_choice(modes, fields, current.genre@).1,
        changed_fields(current, modes, fields, has_cover).contains("track_number"@) <==> numeric_choice(modes, fields, "track_number"@, current.track_number).1,
        changed_fields(current, modes, fields, has_cover).contains("disc_number"@) <==> numeric_choice(modes, fields, "disc_number"@, current.disc_number).1,
        changed_fields(current, modes, fields, has_cover).contains("rating"@) <==> rating_choice(modes, fields, current.rating) != current.rating,
        changed_fields(current, modes, fields, has_cover).contains("cover_url"@) <==> has_cover,
{
    let c = field_changes(current, modes, fields, has_cover);
    lemma_changed_fields_flagged(current, modes, fields, has_cover);
    lemma_flagged_keys(c);
    assert(c[0] == (text_choice(modes, fields, "title"@, current.title@).1));
    assert(c[1] == (text_choice(modes, fields, "artist"@, current.artist@).1));
    assert(c[2] == (text_choice(modes, fields, "album"@, current.album@).1));
    assert(c[3] == (text_choice(modes, fields, "album_artist"@, current.album_artist@).1));
    assert(c[4] == (text_choice(modes, fields, "language"@, current.language@).1));
    assert(c[5] == (text_choice(modes, fields, "composer"@, current.composer@).1));
    assert(c[6] == (text_choice(modes, fields, "lyricist"@, current.lyricist@).1));
    assert(c[7] == (text_choice(modes, fields, "copyright"@, current.copyright@).1));
    assert(c[8] == (text_choice(modes, fields, "comment"@, current.comment@).1));
    assert(c[9] == (text_choice(modes, fields, "lyrics"@, current.lyrics@).1));
    assert(c[10] == (text_choice(modes, fields, "date"@, current.year@).1));
    assert(c[11] == (text_choice(modes, fields, "replaygain_track_gain"@, current.replay_gain_track_gain@).1));
    assert(c[12] == (text_choice(modes, fields, "replaygain_track_peak"@, current.replay_gain_track_peak@).1));
    assert(c[13] == (text_choice(modes, fields, "replaygain_album_gain"@, current.replay_gain_album_gain@).1));
    assert(c[14] == (text_choice(modes, fields, "replaygain_album_peak"@, current.replay_gain_album_peak@).1));
    assert(c[15] == (genre_choice(modes, fields, current.genre@).1));
    assert(c[16] == (numeric_choice(modes, fields, "track_number"@, current.track_number).1));
    assert(c[17] == (numeric_choice(modes, fields, "disc_number"@, current.disc_number).1));
    assert(c[18] == (rating_choice(modes, fields, current.rating) != current.rating));
    assert(c[19] == (has_cover));
    reveal(distinct_texts);
}

/// A match lists each changed field once; it lists the cover exactly when a
/// new cover was fetched; and each text field (but the artists, whose
/// separator is normalized) takes the offered value exactly when it is
/// listed, else keeps its old value. The path is kept and the cover is never
/// removed.
pub proof fn match_update_law(
    current: AudioTrack,
    modes: Seq<(Seq<char>, Seq<char>)>,
    fields: Seq<(Seq<char>, Seq<char>)>,
    cover: Option<Seq<char>>,
    separator: Seq<char>,
    u: TagUpdate,
)
    requires
        update_of(current, modes, fields, cover, separator, u),
    ensures
        changed_fields(current, modes, fields, cover is Some).no_duplicates(),
        changed_fields(current, modes, fields, cover is Some).contains("cover_url"@) <==> cover is Some,
        takes_offer(changed_fields(current, modes, fields, cover is Some), modes, fields, "title"@, current.title@, u.title@),
        takes_offer(changed_fields(current, modes, fields, cover is Some), modes, fields, "album"@, current.album@, u.album@),
        takes_offer(changed_fields(current, modes, fields, cover is Some), modes, fields, "album_artist"@, current.album_artist@, u.album_artist@),
        takes_offer(changed_fields(current, modes, fields, cover is Some), modes, fields, "language"@, current.language@, u.language@),
        takes_offer(changed_fields(current, modes, fields, cover is Some), modes, fields, "composer"@, current.composer@, u.composer@),
        takes_offer(changed_fields(current, modes, fields, cover is Some), modes, fields, "lyricist"@, current.lyricist@, u.lyricist@),
        takes_offer(changed_fields(current, modes, fields, cover is Some), modes, fields, "copyright"@, current.copyright@, u.copyright@),
        takes_offer(changed_fields(current, modes, fields, cover is Some), modes, fields, "comment"@, current.comment@, u.comment@),
        takes_offer(changed_fields(current, modes, fields, cover is Some), modes, fields, "lyrics"@, current.lyrics@, u.lyrics@),
        takes_offer(changed_fields(current, modes, fields, cover is Some), modes, fields, "date"@, current.year@, u.year@),
        takes_offer(changed_fields(current, modes, fields, cover is Some), modes, fields, "replaygain_track_gain"@, current.replay_gain_track_gain@, u.replay_gain_track_gain@),
        takes_offer(changed_fields(current, modes, fields, cover is Some), modes, fields, "replaygain_track_peak"@, current.replay_gain_track_peak@, u.replay_gain_track_peak@),
        takes_offer(changed_fields(current, modes, fields, cover is Some), modes, fields, "replaygain_album_gain"@, current.replay_gain_album_gain@, u.replay_gain_album_gain@),
        takes_offer(changed_fields(current, modes, fields, cover is Some), modes, fields, "replaygain_album_peak"@, current.replay_gain_album_peak@, u.replay_gain_album_peak@),
        u.path@ == current.path@,
        !u.remove_cover,
{
    changed_fields_law(current, modes, fields, cover is Some);
}

// ---------------------------------------------------------------------------
// cleaning titles and artists for search and comparison
// ---------------------------------------------------------------------------

/// Version and release noise in titles: official video, lyrics, live,
/// remix, instrumental and the like, with the brackets around them.
pub const VERSION_NOISE: &'static str = r#"(?i)[(\[（【《]?\s*(?:official\s*(?:video|audio|mv)|music\s*video|lyric[s]?\s*video|lyrics?|完整版|高清|无损|动态歌词|歌词版|instrumental|inst\.?|off\s*vocal|伴奏|纯音乐|live|现场版?|remix|remaster(?:ed)?|acoustic|cover|sped\s*up|slowed|nightcore|demo|edit|radio\s*edit|deluxe|bonus\s*track)\s*[)\]）】》]?"#;

/// Brackets, quotes and dashes.
pub const CLEAN_PUNCTUATION: &'static str = r#"[【】\[\]（）()《》<>「」『』"'\-–—~·・]"#;

/// Runs of punctuation that separate words.
pub const NORMALIZE_PUNCTUATION: &'static str = r#"[._/\\|,:;，。！？!?#&＆]+"#;

/// What separates the parts of a title or an artist list: dashes, slashes,
/// commas, ampersands, plus signs, bars, `_` between spaces, and the words
/// x, and, feat., ft., featuring and with.
pub const SEGMENT_SPLIT: &'static str = r#"(?i)\s*[-–—－/、,，&＆+×|｜]\s*|\s+_\s+|_-_|\s+(?:x|and|feat\.?|ft\.?|featuring|with)\s+"#;

/// A leading track number with what follows it.
pub const LEADING_TRACK_NUMBER: &'static str = r#"^\d+[.\s\-_]+"#;

/// A trailing copy number such as `(2)`.
pub const TRAILING_COPY_NUMBER: &'static str = r#"\(\d+\)$"#;

/// A value without version noise and brackets, with single spaces.
pub open spec fn clean_noise_spec(value: Seq<char>) -> Seq<char> {
    collapse_whitespace(
        spec_regex_replace_all(
            CLEAN_PUNCTUATION@,
            spec_regex_replace_all(VERSION_NOISE@, value, " "@),
            " "@,
        ),
    )
}

/// Removes version noise and brackets (see [`clean_noise_spec`]).
pub fn clean_noise(value: &str) -> (r: String)
    ensures
        r@ == clean_noise_spec(value@),
{
    let a = regex_replace_all(VERSION_NOISE, value, " ");
    let b = regex_replace_all(CLEAN_PUNCTUATION, a.as_str(), " ");
    let chars = chars_of(b.as_str());
    collapse_whitespace_exec(chars.as_slice())
}

/// A value as it is compared: cleaned, lower-cased, ideographic spaces
/// and punctuation runs turned into spaces, with single spaces.
pub open spec fn normalize_for_match_spec(value: Seq<char>) -> Seq<char> {
    collapse_whitespace(
        spec_regex_replace_all(
            NORMALIZE_PUNCTUATION@,
            replace_char(spec_to_lowercase(clean_noise_spec(value)), '\u{3000}', ' '),
            " "@,
        ),
    )
}

/// The form in which values are compared (see [`normalize_for_match_spec`]).
pub fn normalize_for_match(value: &str) -> (r: String)
    ensures
        r@ == normalize_for_match_spec(value@),
{
    let cleaned = clean_noise(value);
    let lower = to_lowercase(cleaned.as_str());
    let lc = chars_of(lower.as_str());
    let spaced = replace_char_exec(lc.as_slice(), '\u{3000}', ' ');
    let spaced_text = crate::text::string_of(spaced.as_slice());
    let replaced = regex_replace_all(NORMALIZE_PUNCTUATION, spaced_text.as_str(), " ");
    let rc = chars_of(replaced.as_str());
    collapse_whitespace_exec(rc.as_slice())
}

/// The cleaned pieces, the empty ones left out.
pub open spec fn cleaned_pieces(pieces: Seq<Seq<char>>) -> Seq<Seq<char>>
    decreases pieces.len(),
{
    if pieces.len() == 0 {
        Seq::empty()
    } else {
        let p = cleaned_pieces(pieces.drop_last());
        let c = clean_noise_spec(pieces.last());
        if c.len() > 0 {
            p.push(c)
        } else {
            p
        }
    }
}

/// The parts of a title or artist list: split at [`SEGMENT_SPLIT`], each
/// cleaned, empty ones and repetitions left out.
pub open spec fn segments_spec(value: Seq<char>) -> Seq<Seq<char>> {
    first_occurrences(cleaned_pieces(spec_regex_split(SEGMENT_SPLIT@, value)))
}

/// The parts of a title or artist list (see [`segments_spec`]).
pub fn split_to_segments(value: &str) -> (r: Vec<String>)
    ensures
        strings_view(r@) == segments_spec(value@),
{
    let pieces = regex_split(SEGMENT_SPLIT, value);
    let ghost pv = spec_regex_split(SEGMENT_SPLIT@, value@);
    let mut cleaned: Vec<String> = Vec::new();
    let mut i: usize = 0;
    while i < pieces.len()
        invariant
            0 <= i <= pieces@.len(),
            pieces@.len() == pv.len(),
            pv == spec_regex_split(SEGMENT_SPLIT@, value@),
            forall|k: int| 0 <= k < pieces@.len() ==> #[trigger] pieces@[k]@ == pv[k],
            strings_view(cleaned@) == cleaned_pieces(pv.take(i as int)),
        decreases pieces.len() - i,
    {
        assert(pv.take(i + 1).drop_last() == pv.take(i as int));
        assert(pv.take(i + 1).last() == pieces@[i as int]@);
        let c = clean_noise(pieces[i].as_str());
        if !c.as_str().is_empty() {
            let ghost prev = strings_view(cleaned@);
            cleaned.push(c);
            assert(strings_view(cleaned@) =~= prev.push(clean_noise_spec(pv[i as int])));
        }
        i = i + 1;
    }
    assert(pv.take(pieces@.len() as int) == pv);
    deduplicate(&mut cleaned);
    cleaned
}

/// A file name without what follows its last `.` (the whole name when it
/// has no `.`).
pub open spec fn name_before_last_dot(name: Seq<char>) -> Seq<char> {
    let k = last_dot(name);
    if k >= 0 {
        name.take(k)
    } else {
        name
    }
}

/// The parts of a file name: its stem without a trailing copy number and a
/// leading track number, trimmed and split as [`segments_spec`] says.
pub open spec fn file_name_segments_spec(file_name: Seq<char>) -> Seq<Seq<char>> {
    let stem = name_before_last_dot(file_name);
    let a = spec_regex_replace_first(TRAILING_COPY_NUMBER@, stem, Seq::empty());
    let b = spec_regex_replace_first(LEADING_TRACK_NUMBER@, a, Seq::empty());
    segments_spec(trim(b))
}

/// The parts of a file name (see [`file_name_segments_spec`]).
pub fn file_name_segments(file_name: &str) -> (r: Vec<String>)
    ensures
        strings_view(r@) == file_name_segments_spec(file_name@),
{
    let chars = chars_of(file_name);
    let stem = match last_dot_exec(chars.as_slice()) {
        Some(k) => string_of_range(chars.as_slice(), 0, k),
        None => file_name.to_string(),
    };
    assert(stem@ == name_before_last_dot(file_name@));
    let a = regex_replace_first(TRAILING_COPY_NUMBER, stem.as_str(), "");
    let b = regex_replace_first(LEADING_TRACK_NUMBER, a.as_str(), "");
    proof {
        reveal_strlit("");
        assert(""@ =~= Seq::<char>::empty());
    }
    let t = str_trimmed(b.as_str());
    split_to_segments(t.as_str())
}

/// Whether `sub` occurs in `s`.
pub open spec fn contains_seq(s: Seq<char>, sub: Seq<char>) -> bool {
    exists|i: int| 0 <= i <= s.len() - sub.len() && #[trigger] s.subrange(i, i + sub.len()) == sub
}

/// Whether `sub` occurs in `s` (see [`contains_seq`]).
pub fn contains_str(s: &str, sub: &str) -> (r: bool)
    ensures
        r == contains_seq(s@, sub@),
{
    let a = chars_of(s);
    let b = chars_of(sub);
    if b.len() == 0 {
        assert(s@.subrange(0int, 0int + sub@.len()) =~= sub@);
        return true;
    }
    if b.len() > a.len() {
        return false;
    }
    let mut i: usize = 0;
    while i <= a.len() - b.len()
        invariant
            1 <= b@.len() <= a@.len(),
            a@ == s@,
            b@ == sub@,
            0 <= i <= a@.len() - b@.len() + 1,
            forall|j: int| 0 <= j < i ==> #[trigger] a@.subrange(j, j + b@.len()) != b@,
        decreases a@.len() - b@.len() + 1 - i,
    {
        let piece = crate::text::slice_range(a.as_slice(), i, i + b.len());
        if crate::text::chars_eq(piece.as_slice(), b.as_slice()) {
            assert(a@.subrange(i as int, i + b@.len()) == b@);
            return true;
        }
        i = i + 1;
    }
    false
}

/// A tag usable for searching: not blank, and not marked unknown (`未知`)
/// in any case.
pub open spec fn usable_tag(value: Seq<char>) -> bool {
    !is_blank(value) && !contains_seq(spec_to_lowercase(value), "未知"@)
}

fn usable_tag_exec(value: &str) -> (r: bool)
    ensures
        r == usable_tag(value@),
{
    if str_blank(value) {
        return false;
    }
    let lower = to_lowercase(value);
    !contains_str(lower.as_str(), "未知")
}

/// The parts used to search for a track: from its title and artist tags
/// when usable, or from its file name when the tags give none or the file
/// name is preferred and gives some.
pub open spec fn local_segments_spec(track: AudioTrack, prefer_file_name: bool) -> Seq<Seq<char>> {
    let file = file_name_segments_spec(track.file_name@);
    let tags = first_occurrences(
        (if usable_tag(track.title@) {
            segments_spec(track.title@)
        } else {
            Seq::empty()
        }) + (if usable_tag(track.artist@) {
            segments_spec(track.artist@)
        } else {
            Seq::empty()
        }),
    );
    if prefer_file_name {
        if file.len() == 0 {
            tags
        } else {
            file
        }
    } else if tags.len() == 0 {
        file
    } else {
        tags
    }
}

/// The parts used to search for a track (see [`local_segments_spec`]).
pub fn local_segments(track: &AudioTrack, prefer_file_name: bool) -> (r: Vec<String>)
    ensures
        strings_view(r@) == local_segments_spec(*track, prefer_file_name),
{
    let file = file_name_segments(track.file_name.as_str());
    let mut tags: Vec<String> = Vec::new();
    if usable_tag_exec(track.title.as_str()) {
        tags = split_to_segments(track.title.as_str());
    }
    let ghost head = strings_view(tags@);
    if usable_tag_exec(track.artist.as_str()) {
        let mut more = split_to_segments(track.artist.as_str());
        tags.append(&mut more);
    }
    assert(strings_view(tags@) =~= head + (if usable_tag(track.artist@) {
        segments_spec(track.artist@)
    } else {
        Seq::<Seq<char>>::empty()
    }));
    deduplicate(&mut tags);
    if prefer_file_name {
        if file.len() == 0 {
            tags
        } else {
            file
        }
    } else if tags.len() == 0 {
        file
    } else {
        tags
    }
}

/// The texts that are not empty.
pub open spec fn nonempty_texts(values: Seq<Seq<char>>) -> Seq<Seq<char>>
    decreases values.len(),
{
    if values.len() == 0 {
        Seq::empty()
    } else {
        let p = nonempty_texts(values.drop_last());
        if values.last().len() > 0 {
            p.push(values.last())
        } else {
            p
        }
    }
}

/// The queries tried for a track before removing repetitions: its parts
/// joined by spaces, then its first two parts when there are several, then
/// the cleaned title and artist, and the cleaned title (or only the cleaned
/// title when there is no artist).
pub open spec fn raw_queries(track: AudioTrack, prefer_file_name: bool) -> Seq<Seq<char>> {
    let segments = local_segments_spec(track, prefer_file_name);
    let title = clean_noise_spec(track.title@);
    (if segments.len() > 0 {
        seq![join_with(segments, " "@)] + (if segments.len() > 1 {
            segments.take(2)
        } else {
            Seq::empty()
        })
    } else {
        Seq::empty()
    }) + (if !is_blank(track.title@) && !is_blank(track.artist@) {
        seq![title + " "@ + clean_noise_spec(track.artist@), title]
    } else if !is_blank(track.title@) {
        seq![title]
    } else {
        Seq::empty()
    })
}

/// The search queries for a track: [`raw_queries`] without repetitions and
/// empty ones, at most five.
pub open spec fn search_queries(track: AudioTrack, prefer_file_name: bool) -> Seq<Seq<char>> {
    let q = nonempty_texts(first_occurrences(raw_queries(track, prefer_file_name)));
    if q.len() > 5 {
        q.take(5)
    } else {
        q
    }
}

proof fn lemma_nonempty_texts(values: Seq<Seq<char>>)
    requires
        values.no_duplicates(),
    ensures
        nonempty_texts(values).no_duplicates(),
        forall|i: int| 0 <= i < nonempty_texts(values).len() ==> (#[trigger] nonempty_texts(values)[i]).len() > 0,
        forall|x: Seq<char>| nonempty_texts(values).contains(x) ==> values.contains(x),
    decreases values.len(),
{
    if values.len() > 0 {
        let rest = values.drop_last();
        assert(rest.no_duplicates());
        lemma_nonempty_texts(rest);
        let p = nonempty_texts(rest);
        let x = values.last();
        if x.len() > 0 {
            let q = p.push(x);
            assert(!p.contains(x)) by {
                if p.contains(x) {
                    assert(rest.contains(x));
                    let j = choose|j: int| 0 <= j < rest.len() && rest[j] == x;
                    assert(values[j] == rest[j]);
                    assert(values[values.len() - 1] == x);
                    assert(j != values.len() - 1);
                }
            }
            assert forall|i: int, j: int| 0 <= i < q.len() && 0 <= j < q.len() && i != j implies q[i] != q[j] by {
                if i < p.len() && j < p.len() {
                    assert(q[i] == p[i] && q[j] == p[j]);
                } else if i < p.len() {
                    assert(q[i] == p[i]);
                    assert(q[j] == x);
                    assert(p.contains(p[i]));
                } else {
                    assert(q[j] == p[j]);
                    assert(q[i] == x);
                    assert(p.contains(p[j]));
                }
            }
            assert forall|y: Seq<char>| q.contains(y) implies values.contains(y) by {
                if y != x {
                    let k = choose|k: int| 0 <= k < q.len() && q[k] == y;
                    assert(k < p.len());
                    assert(p[k] == y);
                    assert(p.contains(y));
                    assert(rest.contains(y));
                    let m = choose|m: int| 0 <= m < rest.len() && rest[m] == y;
                    assert(values[m] == rest[m]);
                } else {
                    assert(values[values.len() - 1] == y);
                }
            }
            assert forall|i: int| 0 <= i < q.len() implies (#[trigger] q[i]).len() > 0 by {
                if i < p.len() {
                    assert(q[i] == p[i]);
                }
            }
        } else {
            assert forall|y: Seq<char>| p.contains(y) implies values.contains(y) by {
                assert(rest.contains(y));
                let m = choose|m: int| 0 <= m < rest.len() && rest[m] == y;
                assert(values[m] == rest[m]);
            }
        }
    }
}

/// The search queries for a track are distinct, none is empty, and there
/// are at most five of them.
pub proof fn search_queries_are_distinct_and_few(track: AudioTrack, prefer_file_name: bool)
    ensures
        search_queries(track, prefer_file_name).no_duplicates(),
        search_queries(track, prefer_file_name).len() <= 5,
        forall|i: int| 0 <= i < search_queries(track, prefer_file_name).len() ==> (
        #[trigger] search_queries(track, prefer_file_name)[i]).len() > 0,
{
    let raw = raw_queries(track, prefer_file_name);
    crate::lyrics::model::lemma_first_occurrences_no_duplicates(raw);
    let q = nonempty_texts(first_occurrences(raw));
    lemma_nonempty_texts(first_occurrences(raw));
    if q.len() > 5 {
        let t = q.take(5);
        assert forall|i: int, j: int| 0 <= i < t.len() && 0 <= j < t.len() && i != j implies t[i] != t[j] by {
            assert(t[i] == q[i] && t[j] == q[j]);
        }
        assert forall|i: int| 0 <= i < t.len() implies (#[trigger] t[i]).len() > 0 by {
            assert(t[i] == q[i]);
        }
    }
}

proof fn lemma_first_occurrences_first(s: Seq<Seq<char>>)
    requires
        s.len() > 0,
    ensures
        first_occurrences(s).len() > 0,
        first_occurrences(s)[0] == s[0],
    decreases s.len(),
{
    let p = s.drop_last();
    if s.len() == 1 {
        assert(first_occurrences(p).len() == 0);
        assert(!first_occurrences(p).contains(s.last()));
    } else {
        lemma_first_occurrences_first(p);
    }
}

proof fn lemma_nonempty_texts_first(v: Seq<Seq<char>>)
    requires
        v.len() > 0,
        v[0].len() > 0,
    ensures
        nonempty_texts(v).len() > 0,
        nonempty_texts(v)[0] == v[0],
    decreases v.len(),
{
    if v.len() > 1 {
        lemma_nonempty_texts_first(v.drop_last());
    } else {
        assert(nonempty_texts(v.drop_last()).len() == 0);
    }
}

/// With the file name preferred, a track whose file name gives parts is
/// searched by those parts, whatever its tags: they are its search parts,
/// and its first query is them joined by spaces. When the file name gives
/// none, the preference changes nothing.
pub proof fn preferred_file_name_law(track: AudioTrack)
    ensures
        file_name_segments_spec(track.file_name@).len() > 0 ==> local_segments_spec(track, true)
            == file_name_segments_spec(track.file_name@),
        file_name_segments_spec(track.file_name@).len() > 0 && join_with(
            file_name_segments_spec(track.file_name@),
            " "@,
        ).len() > 0 ==> search_queries(track, true).len() > 0 && search_queries(track, true)[0] == join_with(
            file_name_segments_spec(track.file_name@),
            " "@,
        ),
        file_name_segments_spec(track.file_name@).len() == 0 ==> local_segments_spec(track, true)
            == local_segments_spec(track, false),
{
    let file = file_name_segments_spec(track.file_name@);
    if file.len() > 0 && join_with(file, " "@).len() > 0 {
        let raw = raw_queries(track, true);
        assert(raw[0] == join_with(file, " "@));
        lemma_first_occurrences_first(raw);
        lemma_nonempty_texts_first(first_occurrences(raw));
        let q = nonempty_texts(first_occurrences(raw));
        if q.len() > 5 {
            assert(q.take(5)[0] == q[0]);
        }
    }
}

/// The search queries for a track (see [`search_queries`]).
pub fn build_search_queries(track: &AudioTrack, prefer_file_name: bool) -> (r: Vec<String>)
    ensures
        strings_view(r@) == search_queries(*track, prefer_file_name),
{
    let segments = local_segments(track, prefer_file_name);
    let mut queries: Vec<String> = Vec::new();
    if segments.len() > 0 {
        queries.push(join_texts(&segments, " "));
        if segments.len() > 1 {
            queries.push(segments[0].clone());
            queries.push(segments[1].clone());
            assert(strings_view(segments@).take(2) =~= seq![segments@[0]@, segments@[1]@]);
        }
    }
    let ghost head = strings_view(queries@);
    let title_blank = str_blank(track.title.as_str());
    let artist_blank = str_blank(track.artist.as_str());
    if !title_blank && !artist_blank {
        let title = clean_noise(track.title.as_str());
        let artist = clean_noise(track.artist.as_str());
        let mut both = title.clone();
        both.append(" ");
        both.append(artist.as_str());
        queries.push(both);
        queries.push(title);
    } else if !title_blank {
        queries.push(clean_noise(track.title.as_str()));
    }
    assert(strings_view(queries@) =~= raw_queries(*track, prefer_file_name));
    deduplicate(&mut queries);
    let ghost deduped = strings_view(queries@);
    let mut out: Vec<String> = Vec::new();
    let mut i: usize = 0;
    while i < queries.len()
        invariant
            0 <= i <= queries@.len(),
            deduped == strings_view(queries@),
            strings_view(out@) == nonempty_texts(deduped.take(i as int)),
        decreases queries.len() - i,
    {
        assert(deduped.take(i + 1).drop_last() == deduped.take(i as int));
        assert(deduped.take(i + 1).last() == queries@[i as int]@);
        if !queries[i].as_str().is_empty() {
            let ghost prev = strings_view(out@);
            out.push(queries[i].clone());
            assert(strings_view(out@) =~= prev.push(queries@[i as int]@));
        }
        i = i + 1;
    }
    assert(deduped.take(queries@.len() as int) == deduped);
    if out.len() > 5 {
        out.truncate(5);
        assert(strings_view(out@) =~= nonempty_texts(deduped).take(5));
    }
    out
}

// ---------------------------------------------------------------------------
// search results
// ---------------------------------------------------------------------------

/// The text of a scalar JSON value: a string as it is, a number or boolean
/// as its JSON text, an array as the texts of its scalar items joined by
/// `/`; nothing for null or an object.
pub open spec fn scalar_text(v: JsonValue) -> Option<Seq<char>>
    decreases v,
{
    match v {
        JsonValue::Str(s) => Some(s@),
        JsonValue::Number(n) => Some(n.text@),
        JsonValue::Bool(b) => Some(bool_text(b)),
        JsonValue::Array(items) => Some(join_with(scalar_texts(items@), "/"@)),
        _ => None,
    }
}

/// The texts of the scalar items.
pub open spec fn scalar_texts(items: Seq<JsonValue>) -> Seq<Seq<char>>
    decreases items,
{
    if items.len() == 0 {
        Seq::empty()
    } else {
        let p = scalar_texts(items.drop_last());
        match scalar_text(items.last()) {
            Some(t) => p.push(t),
            None => p,
        }
    }
}

/// The text of a scalar JSON value (see [`scalar_text`]).
pub fn scalar_string(value: &JsonValue) -> (r: Option<String>)
    ensures
        match r {
            Some(t) => scalar_text(*value) == Some(t@),
            None => scalar_text(*value) is None,
        },
    decreases value,
{
    match value {
        JsonValue::Str(s) => Some(s.clone()),
        JsonValue::Number(n) => Some(n.text.clone()),
        JsonValue::Bool(b) => {
            let mut out = String::new();
            push_bool_text(&mut out, *b);
            Some(out)
        },
        JsonValue::Array(items) => {
            let mut texts: Vec<String> = Vec::new();
            let mut i: usize = 0;
            while i < items.len()
                invariant
                    0 <= i <= items@.len(),
                    *value == JsonValue::Array(*items),
                    strings_view(texts@) == scalar_texts(items@.take(i as int)),
                decreases items.len() - i,
            {
                assert(items@.take(i + 1).drop_last() == items@.take(i as int));
                assert(items@.take(i + 1).last() == items@[i as int]);
                assert(decreases_to!(*value => (*value)->Array_0));
                assert((*value)->Array_0 == *items);
                assert(decreases_to!(*items => items@));
                assert(decreases_to!(items@ => items@[i as int]));
                assert(decreases_to!(*value => items@[i as int]));
                match scalar_string(&items[i]) {
                    Some(t) => {
                        let ghost prev = strings_view(texts@);
                        texts.push(t);
                        assert(strings_view(texts@) =~= prev.push(scalar_text(items@[i as int]).unwrap()));
                    },
                    None => {},
                }
                i = i + 1;
            }
            assert(items@.take(items@.len() as int) == items@);
            Some(join_texts(&texts, "/"))
        },
        _ => None,
    }
}

/// The text of the first of the keys whose value is scalar, or the empty
/// text.
pub open spec fn string_value_spec(value: JsonValue, aliases: Seq<Seq<char>>) -> Seq<char>
    decreases aliases.len(),
{
    if aliases.len() == 0 {
        Seq::empty()
    } else {
        match get_spec(value, aliases[0]) {
            Some(v) => match scalar_text(v) {
                Some(t) => t,
                None => string_value_spec(value, aliases.drop_first()),
            },
            None => string_value_spec(value, aliases.drop_first()),
        }
    }
}

/// The text of the first of the keys whose value is scalar (see
/// [`string_value_spec`]).
pub fn string_value(value: &JsonValue, aliases: &Vec<&str>) -> (r: String)
    ensures
        r@ == string_value_spec(*value, aliases@.map_values(|a: &str| a@)),
{
    let ghost av = aliases@.map_values(|a: &str| a@);
    let mut i: usize = 0;
    assert(av.skip(0) =~= av);
    while i < aliases.len()
        invariant
            0 <= i <= aliases@.len(),
            av == aliases@.map_values(|a: &str| a@),
            string_value_spec(*value, av) == string_value_spec(*value, av.skip(i as int)),
        decreases aliases.len() - i,
    {
        assert(av.skip(i as int)[0] == aliases@[i as int]@);
        assert(av.skip(i as int).drop_first() =~= av.skip(i + 1));
        if let Some(v) = get(value, aliases[i]) {
            if let Some(t) = scalar_string(v) {
                return t;
            }
        }
        i = i + 1;
    }
    assert(av.skip(aliases@.len() as int) =~= Seq::<Seq<char>>::empty());
    String::new()
}

/// The texts of the object's entries whose values are scalar, by key.
pub open spec fn entry_texts(entries: Seq<(String, JsonValue)>) -> Seq<(Seq<char>, Seq<char>)>
    decreases entries.len(),
{
    if entries.len() == 0 {
        Seq::empty()
    } else {
        let p = entry_texts(entries.drop_last());
        match scalar_text(entries.last().1) {
            Some(t) => p.push((entries.last().0@, t)),
            None => p,
        }
    }
}

/// The fields a result gives directly: the scalar entries of its `fields`
/// object, or of its `metadata` object when it has no `fields`.
pub open spec fn given_fields(result: JsonValue) -> Seq<(Seq<char>, Seq<char>)> {
    let holder = match get_spec(result, "fields"@) {
        Some(v) => Some(v),
        None => get_spec(result, "metadata"@),
    };
    match holder {
        Some(JsonValue::Object(entries)) => entry_texts(entries@),
        _ => Seq::empty(),
    }
}

/// The fields with `key` added as `value`, when the value is not blank and
/// the key is not there yet.
pub open spec fn with_alias(fields: Seq<(Seq<char>, Seq<char>)>, key: Seq<char>, value: Seq<char>) -> Seq<(Seq<char>, Seq<char>)> {
    if !is_blank(value) && lookup(fields, key) is None {
        fields.push((key, value))
    } else {
        fields
    }
}

/// The pairs whose values are not blank.
pub open spec fn nonblank_pairs(pairs: Seq<(Seq<char>, Seq<char>)>) -> Seq<(Seq<char>, Seq<char>)>
    decreases pairs.len(),
{
    if pairs.len() == 0 {
        Seq::empty()
    } else {
        let p = nonblank_pairs(pairs.drop_last());
        if is_blank(pairs.last().1) {
            p
        } else {
            p.push(pairs.last())
        }
    }
}

/// The fields of a search result: the ones it gives directly (see
/// [`given_fields`]), then title, artist, album, date, track number and
/// cover URL from their usual keys when not given, the blank ones left out.
pub open spec fn normalized_fields_spec(result: JsonValue) -> Seq<(Seq<char>, Seq<char>)> {
    let f0 = given_fields(result);
    let f1 = with_alias(f0, "title"@, string_value_spec(result, seq!["title"@, "name"@, "songName"@]));
    let f2 = with_alias(f1, "artist"@, string_value_spec(result, seq!["artist"@, "artists"@, "singer"@]));
    let f3 = with_alias(f2, "album"@, string_value_spec(result, seq!["album"@, "albumName"@]));
    let f4 = with_alias(
        f3,
        "date"@,
        string_value_spec(result, seq!["date"@, "releaseDate"@, "year"@, "release_date"@]),
    );
    let f5 = with_alias(
        f4,
        "track_number"@,
        string_value_spec(result, seq!["trackNumber"@, "trackerNumber"@, "track_number"@]),
    );
    let f6 = with_alias(
        f5,
        "cover_url"@,
        string_value_spec(result, seq!["picUrl"@, "coverUrl"@, "cover_url"@, "artworkUrl"@]),
    );
    nonblank_pairs(f6)
}

fn add_alias(fields: &mut Vec<(String, String)>, key: &str, value: String)
    ensures
        pairs_view(final(fields)@) == with_alias(pairs_view(old(fields)@), key@, value@),
{
    if !str_blank(value.as_str()) && lookup_exec(fields, key).is_none() {
        let ghost prev = pairs_view(fields@);
        fields.push((key.to_string(), value));
        assert(pairs_view(fields@) =~= prev.push((key@, value@)));
    }
}

/// The fields of a search result (see [`normalized_fields_spec`]).
pub fn normalized_fields(result: &JsonValue) -> (r: Vec<(String, String)>)
    ensures
        pairs_view(r@) == normalized_fields_spec(*result),
{
    let holder = match get(result, "fields") {
        Some(v) => Some(v),
        None => get(result, "metadata"),
    };
    let mut fields: Vec<(String, String)> = Vec::new();
    if let Some(JsonValue::Object(entries)) = holder {
        let mut i: usize = 0;
        while i < entries.len()
            invariant
                0 <= i <= entries@.len(),
                pairs_view(fields@) == entry_texts(entries@.take(i as int)),
            decreases entries.len() - i,
        {
            assert(entries@.take(i + 1).drop_last() == entries@.take(i as int));
            assert(entries@.take(i + 1).last() == entries@[i as int]);
            if let Some(t) = scalar_string(&entries[i].1) {
                let ghost prev = pairs_view(fields@);
                fields.push((entries[i].0.clone(), t));
                assert(pairs_view(fields@) =~= prev.push((entries@[i as int].0@, scalar_text(entries@[i as int].1).unwrap())));
            }
            i = i + 1;
        }
        assert(entries@.take(entries@.len() as int) == entries@);
    }
    assert(pairs_view(fields@) == given_fields(*result));
    let aliases = vec!["title", "name", "songName"];
    let v = string_value(result, &aliases);
    assert(aliases@.map_values(|a: &str| a@) =~= seq!["title"@, "name"@, "songName"@]);
    add_alias(&mut fields, "title", v);
    let aliases = vec!["artist", "artists", "singer"];
    let v = string_value(result, &aliases);
    assert(aliases@.map_values(|a: &str| a@) =~= seq!["artist"@, "artists"@, "singer"@]);
    add_alias(&mut fields, "artist", v);
    let aliases = vec!["album", "albumName"];
    let v = string_value(result, &aliases);
    assert(aliases@.map_values(|a: &str| a@) =~= seq!["album"@, "albumName"@]);
    add_alias(&mut fields, "album", v);
    let aliases = vec!["date", "releaseDate", "year", "release_date"];
    let v = string_value(result, &aliases);
    assert(aliases@.map_values(|a: &str| a@) =~= seq!["date"@, "releaseDate"@, "year"@, "release_date"@]);
    add_alias(&mut fields, "date", v);
    let aliases = vec!["trackNumber", "trackerNumber", "track_number"];
    let v = string_value(result, &aliases);
    assert(aliases@.map_values(|a: &str| a@) =~= seq!["trackNumber"@, "trackerNumber"@, "track_number"@]);
    add_alias(&mut fields, "track_number", v);
    let aliases = vec!["picUrl", "coverUrl", "cover_url", "artworkUrl"];
    let v = string_value(result, &aliases);
    assert(aliases@.map_values(|a: &str| a@) =~= seq!["picUrl"@, "coverUrl"@, "cover_url"@, "artworkUrl"@]);
    add_alias(&mut fields, "cover_url", v);
    let ghost all = pairs_view(fields@);
    let mut out: Vec<(String, String)> = Vec::new();
    let mut i: usize = 0;
    while i < fields.len()
        invariant
            0 <= i <= fields@.len(),
            all == pairs_view(fields@),
            pairs_view(out@) == nonblank_pairs(all.take(i as int)),
        decreases fields.len() - i,
    {
        assert(all.take(i + 1).drop_last() == all.take(i as int));
        assert(all.take(i + 1).last() == (fields@[i as int].0@, fields@[i as int].1@));
        if !str_blank(fields[i].1.as_str()) {
            let ghost prev = pairs_view(out@);
            out.push((fields[i].0.clone(), fields[i].1.clone()));
            assert(pairs_view(out@) =~= prev.push((fields@[i as int].0@, fields@[i as int].1@)));
        }
        i = i + 1;
    }
    assert(all.take(fields@.len() as int) == all);
    out
}

/// The items of the array under `key`, when there is one.
pub open spec fn array_at(response: JsonValue, key: Seq<char>) -> Option<Seq<JsonValue>> {
    match get_spec(response, key) {
        Some(JsonValue::Array(a)) => Some(a@),
        _ => None,
    }
}

/// The results of a search response: the response itself when it is an
/// array, else the first of its `items`, `results`, `songs` and `data`
/// that is an array, else none.
pub open spec fn response_results(response: JsonValue) -> Seq<JsonValue> {
    match response {
        JsonValue::Array(items) => items@,
        _ => if array_at(response, "items"@) is Some {
            array_at(response, "items"@).unwrap()
        } else if array_at(response, "results"@) is Some {
            array_at(response, "results"@).unwrap()
        } else if array_at(response, "songs"@) is Some {
            array_at(response, "songs"@).unwrap()
        } else if array_at(response, "data"@) is Some {
            array_at(response, "data"@).unwrap()
        } else {
            Seq::empty()
        },
    }
}

fn refs_of<'a>(items: &'a Vec<JsonValue>) -> (r: Vec<&'a JsonValue>)
    ensures
        r@.map_values(|x: &JsonValue| *x) == items@,
{
    let mut out: Vec<&'a JsonValue> = Vec::new();
    let mut i: usize = 0;
    while i < items.len()
        invariant
            0 <= i <= items@.len(),
            out@.map_values(|x: &JsonValue| *x) == items@.take(i as int),
        decreases items.len() - i,
    {
        let ghost prev = out@;
        let x = &items[i];
        out.push(x);
        assert(out@ == prev.push(x));
        assert(out@.map_values(|x: &JsonValue| *x) =~= prev.map_values(|x: &JsonValue| *x).push(items@[i as int]));
        assert(items@.take(i + 1) =~= items@.take(i as int).push(items@[i as int]));
        i = i + 1;
    }
    assert(items@.take(items@.len() as int) =~= items@);
    out
}

/// The results of a search response (see [`response_results`]).
pub fn normalize_results(response: &JsonValue) -> (r: Vec<&JsonValue>)
    ensures
        r@.map_values(|x: &JsonValue| *x) == response_results(*response),
{
    if let JsonValue::Array(items) = response {
        return refs_of(items);
    }
    if let Some(JsonValue::Array(a)) = get(response, "items") {
        return refs_of(a);
    }
    if let Some(JsonValue::Array(a)) = get(response, "results") {
        return refs_of(a);
    }
    if let Some(JsonValue::Array(a)) = get(response, "songs") {
        return refs_of(a);
    }
    if let Some(JsonValue::Array(a)) = get(response, "data") {
        return refs_of(a);
    }
    let out: Vec<&JsonValue> = Vec::new();
    assert(out@.map_values(|x: &JsonValue| *x) =~= Seq::<JsonValue>::empty());
    out
}

// ---------------------------------------------------------------------------
// which sources are searched, in which order
// ---------------------------------------------------------------------------

/// A plugin searched for metadata: enabled, able to search songs, and in
/// the task's source list when the task gives one.
pub open spec fn searchable(p: SourcePlugin, order: Seq<Seq<char>>) -> bool {
    &&& p.enabled
    &&& strings_view(p.manifest.capabilities@).contains("searchSongs"@)
    &&& (order.len() == 0 || order.contains(p.manifest.id@))
}

/// The indices below `n` of the searchable plugins with the id `id` (any
/// id when `id` is `None`), in order.
pub open spec fn searchable_indices(
    plugins: Seq<SourcePlugin>,
    order: Seq<Seq<char>>,
    id: Option<Seq<char>>,
    n: int,
) -> Seq<int>
    decreases n,
{
    if n <= 0 {
        Seq::empty()
    } else {
        let p = searchable_indices(plugins, order, id, n - 1);
        let q = plugins[n - 1];
        if searchable(q, order) && (id is None || id == Some(q.manifest.id@)) {
            p.push(n - 1)
        } else {
            p
        }
    }
}

/// The searchable plugins with the ids of `ids`, id by id.
pub open spec fn indices_by_ids(plugins: Seq<SourcePlugin>, order: Seq<Seq<char>>, ids: Seq<Seq<char>>) -> Seq<int>
    decreases ids.len(),
{
    if ids.len() == 0 {
        Seq::empty()
    } else {
        indices_by_ids(plugins, order, ids.drop_last()) + searchable_indices(
            plugins,
            order,
            Some(ids.last()),
            plugins.len() as int,
        )
    }
}

/// The order in which the plugins are searched, as indices: the searchable
/// plugins sorted by the first position of their id in the task's source
/// list (a stable sort, so in list order when the task gives no list).
pub open spec fn search_order(plugins: Seq<SourcePlugin>, order: Seq<Seq<char>>) -> Seq<int> {
    if order.len() == 0 {
        searchable_indices(plugins, order, None, plugins.len() as int)
    } else {
        indices_by_ids(plugins, order, first_occurrences(order))
    }
}

fn searchable_exec(p: &SourcePlugin, order: &Vec<String>) -> (r: bool)
    ensures
        r == searchable(*p, strings_view(order@)),
{
    p.enabled && contains_text(&p.manifest.capabilities, "searchSongs") && (order.len() == 0
        || contains_text(order, p.manifest.id.as_str()))
}

fn searchable_with(plugins: &Vec<SourcePlugin>, order: &Vec<String>, id: Option<&str>) -> (r: Vec<usize>)
    ensures
        r@.map_values(|i: usize| i as int) == searchable_indices(
            plugins@,
            strings_view(order@),
            match id {
                Some(x) => Some(x@),
                None => None,
            },
            plugins@.len() as int,
        ),
{
    let ghost idv = match id {
        Some(x) => Some(x@),
        None => None,
    };
    let mut out: Vec<usize> = Vec::new();
    let mut k: usize = 0;
    while k < plugins.len()
        invariant
            0 <= k <= plugins@.len(),
            idv == (match id {
                Some(x) => Some(x@),
                None => None::<Seq<char>>,
            }),
            out@.map_values(|i: usize| i as int) == searchable_indices(
                plugins@,
                strings_view(order@),
                idv,
                k as int,
            ),
        decreases plugins.len() - k,
    {
        let p = &plugins[k];
        let id_ok = match id {
            Some(x) => str_eq(p.manifest.id.as_str(), x),
            None => true,
        };
        if searchable_exec(p, order) && id_ok {
            let ghost prev = out@.map_values(|i: usize| i as int);
            out.push(k);
            assert(out@.map_values(|i: usize| i as int) =~= prev.push(k as int));
        }
        k = k + 1;
    }
    out
}

/// The order in which the plugins are searched (see [`search_order`]).
pub fn order_search_plugins(plugins: &Vec<SourcePlugin>, enabled_order: &Vec<String>) -> (r: Vec<usize>)
    ensures
        r@.map_values(|i: usize| i as int) == search_order(plugins@, strings_view(enabled_order@)),
{
    if enabled_order.len() == 0 {
        return searchable_with(plugins, enabled_order, None);
    }
    let mut ids: Vec<String> = Vec::new();
    let mut j: usize = 0;
    while j < enabled_order.len()
        invariant
            0 <= j <= enabled_order@.len(),
            strings_view(ids@) == first_occurrences(strings_view(enabled_order@).take(j as int)),
        decreases enabled_order.len() - j,
    {
        let ghost ov = strings_view(enabled_order@);
        assert(ov.take(j + 1).drop_last() == ov.take(j as int));
        assert(ov.take(j + 1).last() == enabled_order@[j as int]@);
        if !contains_text(&ids, enabled_order[j].as_str()) {
            let ghost prev = strings_view(ids@);
            ids.push(enabled_order[j].clone());
            assert(strings_view(ids@) =~= prev.push(enabled_order@[j as int]@));
        }
        j = j + 1;
    }
    assert(strings_view(enabled_order@).take(enabled_order@.len() as int) == strings_view(enabled_order@));
    let ghost iv = strings_view(ids@);
    let mut out: Vec<usize> = Vec::new();
    let mut k: usize = 0;
    while k < ids.len()
        invariant
            0 <= k <= ids@.len(),
            iv == strings_view(ids@),
            out@.map_values(|i: usize| i as int) == indices_by_ids(
                plugins@,
                strings_view(enabled_order@),
                iv.take(k as int),
            ),
        decreases ids.len() - k,
    {
        assert(iv.take(k + 1).drop_last() == iv.take(k as int));
        assert(iv.take(k + 1).last() == ids@[k as int]@);
        let ghost prev = out@.map_values(|i: usize| i as int);
        let mut more = searchable_with(plugins, enabled_order, Some(ids[k].as_str()));
        let ghost added = more@.map_values(|i: usize| i as int);
        out.append(&mut more);
        assert(out@.map_values(|i: usize| i as int) =~= prev + added);
        k = k + 1;
    }
    assert(iv.take(ids@.len() as int) == iv);
    out
}

/// A match only writes what the task's modes allow: a field in
/// `supplement` mode keeps a value it already has, a field in `overwrite`
/// mode takes the value the match offers, and a disabled or unlisted field
/// is never written.
pub proof fn modes_decide_what_is_written(
    modes: Seq<(Seq<char>, Seq<char>)>,
    fields: Seq<(Seq<char>, Seq<char>)>,
    key: Seq<char>,
    current: Seq<char>,
)
    ensures
        lookup(modes, key) == Some("supplement"@) && !is_blank(current) ==> text_choice(
            modes,
            fields,
            key,
            current,
        ) == (current, false),
        lookup(modes, key) == Some("overwrite"@) && offered(fields, key) is Some ==> text_choice(
            modes,
            fields,
            key,
            current,
        ).0 == offered(fields, key).unwrap(),
        (lookup(modes, key) is None || lookup(modes, key) == Some("disabled"@)) ==> text_choice(
            modes,
            fields,
            key,
            current,
        ) == (current, false),
{
    reveal_strlit("supplement");
    reveal_strlit("overwrite");
    reveal_strlit("disabled");
    assert("supplement"@ != "overwrite"@) by {
        assert("supplement"@[0] != "overwrite"@[0]);
    }
    assert("disabled"@ != "overwrite"@ && "disabled"@ != "supplement"@) by {
        assert("disabled"@[0] != "overwrite"@[0] && "disabled"@[0] != "supplement"@[0]);
    }
}

// ---------------------------------------------------------------------------
// remote images
// ---------------------------------------------------------------------------

/// The largest remote image a match downloads.
pub const MAX_REMOTE_IMAGE_BYTES: u64 = 20 * 1024 * 1024;

/// Checks the scheme of a remote image URL: only `http` and `https`.
pub fn check_image_scheme(scheme: &str) -> (r: Result<(), String>)
    ensures
        r is Ok <==> (scheme@ == "http"@ || scheme@ == "https"@),
        r matches Err(e) ==> e@ == "Only HTTP and HTTPS image URLs are supported"@,
{
    if str_eq(scheme, "http") || str_eq(scheme, "https") {
        Ok(())
    } else {
        Err("Only HTTP and HTTPS image URLs are supported".to_string())
    }
}

/// The media type of a response: its `Content-Type` up to the first `;`,
/// or `application/octet-stream` when it has none.
pub open spec fn remote_mime_spec(content_type: Option<Seq<char>>) -> Seq<char> {
    match content_type {
        Some(t) => t.take(crate::text::first_index_of(t, ';')),
        None => "application/octet-stream"@,
    }
}

/// The media type of a response (see [`remote_mime_spec`]).
pub fn remote_image_mime(content_type: Option<&str>) -> (r: String)
    ensures
        r@ == remote_mime_spec(
            match content_type {
                Some(t) => Some(t@),
                None => None,
            },
        ),
{
    match content_type {
        None => "application/octet-stream".to_string(),
        Some(t) => {
            let chars = chars_of(t);
            let k = crate::text::find_char_from(chars.as_slice(), 0, ';');
            assert(chars@.skip(0) == chars@);
            let r = string_of_range(chars.as_slice(), 0, k);
            assert(chars@.subrange(0, k as int) == chars@.take(k as int));
            r
        },
    }
}

/// Why a response is refused before its body is read, if it is: its media
/// type is not an image type, or it announces more than 20 MB.
pub open spec fn remote_image_problem(mime: Seq<char>, length: Option<u64>) -> Option<Seq<char>> {
    if !(mime.len() >= 6 && mime.take(6) == "image/"@) {
        Some("Remote resource is not an image: "@ + mime)
    } else if length matches Some(n) && n > MAX_REMOTE_IMAGE_BYTES {
        Some("Remote image is larger than 20 MB"@)
    } else {
        None
    }
}

/// Checks a response before its body is read (see
/// [`remote_image_problem`]).
pub fn check_remote_image(mime: &str, length: Option<u64>) -> (r: Result<(), String>)
    ensures
        match r {
            Ok(()) => remote_image_problem(mime@, length) is None,
            Err(e) => remote_image_problem(mime@, length) == Some(e@),
        },
{
    let chars = chars_of(mime);
    let prefix = chars_of("image/");
    proof {
        reveal_strlit("image/");
    }
    if !crate::text::starts_with(chars.as_slice(), prefix.as_slice()) {
        let mut e = "Remote resource is not an image: ".to_string();
        e.append(mime);
        return Err(e);
    }
    if let Some(n) = length {
        if n > MAX_REMOTE_IMAGE_BYTES {
            return Err("Remote image is larger than 20 MB".to_string());
        }
    }
    Ok(())
}

/// Checks the size of a downloaded image against 20 MB.
pub fn check_remote_size(size: u64) -> (r: Result<(), String>)
    ensures
        r is Ok <==> size <= MAX_REMOTE_IMAGE_BYTES,
        r matches Err(e) ==> e@ == "Remote image is larger than 20 MB"@,
{
    if size > MAX_REMOTE_IMAGE_BYTES {
        return Err("Remote image is larger than 20 MB".to_string());
    }
    Ok(())
}

/// The requested size kept between 64 and 4096 pixels.
pub open spec fn edge_for(max_size: u32) -> u32 {
    if max_size < 64 {
        64
    } else if max_size > 4096 {
        4096
    } else {
        max_size
    }
}

/// The edge of a resized remote image (see [`edge_for`]).
pub fn thumbnail_edge(max_size: u32) -> (r: u32)
    ensures
        r == edge_for(max_size),
{
    if max_size < 64 {
        64
    } else if max_size > 4096 {
        4096
    } else {
        max_size
    }
}

// ---------------------------------------------------------------------------
// edit distance
// ---------------------------------------------------------------------------

/// The smallest of three numbers.
pub open spec fn min3(x: nat, y: nat, z: nat) -> nat {
    if x <= y && x <= z {
        x
    } else if y <= z {
        y
    } else {
        z
    }
}

/// The edit distance between the first `i` characters of `a` and the first
/// `j` characters of `b`: insertions, deletions and substitutions of one
/// character each count one.
pub open spec fn edit_distance_prefix(a: Seq<char>, b: Seq<char>, i: nat, j: nat) -> nat
    decreases i + j,
{
    if i == 0 {
        j
    } else if j == 0 {
        i
    } else if a[i - 1] == b[j - 1] {
        edit_distance_prefix(a, b, (i - 1) as nat, (j - 1) as nat)
    } else {
        1 + min3(
            edit_distance_prefix(a, b, (i - 1) as nat, (j - 1) as nat),
            edit_distance_prefix(a, b, (i - 1) as nat, j),
            edit_distance_prefix(a, b, i, (j - 1) as nat),
        )
    }
}

/// The edit (Levenshtein) distance between two texts.
pub open spec fn edit_distance(a: Seq<char>, b: Seq<char>) -> nat {
    edit_distance_prefix(a, b, a.len(), b.len())
}

/// The distance between prefixes is at most the longer prefix's length.
pub proof fn lemma_edit_distance_bound(a: Seq<char>, b: Seq<char>, i: nat, j: nat)
    ensures
        edit_distance_prefix(a, b, i, j) <= if i <= j {
            j
        } else {
            i
        },
    decreases i + j,
{
    if i > 0 && j > 0 {
        lemma_edit_distance_bound(a, b, (i - 1) as nat, (j - 1) as nat);
        lemma_edit_distance_bound(a, b, (i - 1) as nat, j);
        lemma_edit_distance_bound(a, b, i, (j - 1) as nat);
    }
}

/// The edit distance between two texts (see [`edit_distance`]), computed
/// one row of prefixes at a time.
pub fn levenshtein_distance(left: &[char], right: &[char]) -> (r: usize)
    ensures
        r == edit_distance(left@, right@),
{
    let n = left.len();
    let m = right.len();
    let mut previous: Vec<usize> = Vec::new();
    let mut k: usize = 0;
    while k < m
        invariant
            m == right@.len(),
            k <= m,
            previous@.len() == k,
            forall|x: int| 0 <= x < k ==> previous@[x] == edit_distance_prefix(left@, right@, 0, x as nat),
        decreases m - k,
    {
        previous.push(k);
        k = k + 1;
    }
    previous.push(m);
    let mut i: usize = 0;
    while i < n
        invariant
            n == left@.len(),
            m == right@.len(),
            i <= n,
            previous@.len() == m + 1,
            forall|x: int| 0 <= x <= m ==> previous@[x] == edit_distance_prefix(left@, right@, i as nat, x as nat),
        decreases n - i,
    {
        let mut current: Vec<usize> = Vec::new();
        current.push(i + 1);
        let mut j: usize = 0;
        while j < m
            invariant
                n == left@.len(),
                m == right@.len(),
                i < n,
                j <= m,
                previous@.len() == m + 1,
                forall|x: int| 0 <= x <= m ==> previous@[x] == edit_distance_prefix(left@, right@, i as nat, x as nat),
                current@.len() == j + 1,
                forall|x: int| 0 <= x <= j ==> current@[x] == edit_distance_prefix(left@, right@, (i + 1) as nat, x as nat),
            decreases m - j,
        {
            proof {
                lemma_edit_distance_bound(left@, right@, i as nat, j as nat);
                lemma_edit_distance_bound(left@, right@, i as nat, (j + 1) as nat);
                lemma_edit_distance_bound(left@, right@, (i + 1) as nat, j as nat);
            }
            let value = if left[i] == right[j] {
                previous[j]
            } else {
                let a = previous[j];
                let b = previous[j + 1];
                let c = current[j];
                let smallest = if a <= b && a <= c {
                    a
                } else if b <= c {
                    b
                } else {
                    c
                };
                smallest + 1
            };
            current.push(value);
            j = j + 1;
        }
        previous = current;
        i = i + 1;
    }
    previous[m]
}

} // verus!

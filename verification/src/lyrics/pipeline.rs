//! The parts of the lyrics pipeline that stand on the LRC reader: telling
//! the format of a lyric text, the keys under which plugins hand over raw
//! lyrics and the choice among them, the warnings for TTML extensions, and
//! extracting the plain text of lyrics.
use vstd::prelude::*;
use crate::lyrics::model::{
    DocumentView, LineView, LyricFormat, LyricsDocument, LyricsLine, LyricsOptions, TrackType,
    TrackView, line_visible_text, visible_text, format_name, WordView, LyricsWord, LyricsTrack,
    LyricsMetadata, words_text, tags_view,
};
use crate::json::{JsonValue, get, get_spec, json_text, push_json};
use crate::lyrics::lrc::{parse, parsed_document, link_text, link_key_exec, words_view};
use crate::pattern::{regex_is_match, spec_regex_is_match, regex_first_groups, spec_regex_first_groups, optional_texts};
use crate::text::{
    is_blank, lines_of, split_lines, str_blank, trim, trimmed, chars_of, strings_view, str_eq,
    contains_text,
};
use crate::batch::metadata::{join_with, join_texts};

verus! {

broadcast use vstd::string::group_string_axioms;

/// A TTML document: a `tt` element, or a `p` element with timing.
pub const TTML_PATTERN: &'static str = r"(?i)<(?:\w+:)?tt(?:\s|>)|<(?:\w+:)?p\b[^>]*(?:begin|end)=";

/// An enhanced-LRC word stamp `<mm:ss.xx>`, with an optional `|singer`.
pub const ENHANCED_PATTERN: &'static str = r"<\d{1,3}:\d{2}(?:[.:]\d{1,3})?(?:\|[^<>]*)?>";

/// A line with two or more `[mm:ss.xx]` stamps.
pub const VERBATIM_PATTERN: &'static str = r"(?m)^\s*(?:\[\d{1,3}:\d{2}(?:[.:]\d{1,3})?\].*){2,}";

/// The format of a lyric text: TTML when it holds TTML markup, else
/// enhanced LRC when it holds word stamps, else verbatim LRC when a line
/// holds two stamps, else plain LRC.
pub open spec fn detect_format_spec(raw: Seq<char>) -> LyricFormat {
    if spec_regex_is_match(TTML_PATTERN@, raw) {
        LyricFormat::Ttml
    } else if spec_regex_is_match(ENHANCED_PATTERN@, raw) {
        LyricFormat::EnhancedLrc
    } else if spec_regex_is_match(VERBATIM_PATTERN@, raw) {
        LyricFormat::VerbatimLrc
    } else {
        LyricFormat::PlainLrc
    }
}

/// The format of a lyric text (see [`detect_format_spec`]).
pub fn detect_format(raw: &str) -> (r: LyricFormat)
    ensures
        r == detect_format_spec(raw@),
{
    if regex_is_match(TTML_PATTERN, raw) {
        LyricFormat::Ttml
    } else if regex_is_match(ENHANCED_PATTERN, raw) {
        LyricFormat::EnhancedLrc
    } else if regex_is_match(VERBATIM_PATTERN, raw) {
        LyricFormat::VerbatimLrc
    } else {
        LyricFormat::PlainLrc
    }
}

/// The key under which a plugin result holds raw lyrics of a format.
pub fn raw_key(format: LyricFormat) -> (r: &'static str)
    ensures
        r@ == (match format {
            LyricFormat::PlainLrc => "rawPlainLrc"@,
            LyricFormat::VerbatimLrc => "rawVerbatimLrc"@,
            LyricFormat::EnhancedLrc => "rawEnhancedLrc"@,
            LyricFormat::Ttml => "rawTtml"@,
        }),
{
    match format {
        LyricFormat::PlainLrc => "rawPlainLrc",
        LyricFormat::VerbatimLrc => "rawVerbatimLrc",
        LyricFormat::EnhancedLrc => "rawEnhancedLrc",
        LyricFormat::Ttml => "rawTtml",
    }
}

/// The keys, camel case then snake case, under which a plugin result may
/// hold raw lyrics of a format.
pub open spec fn raw_keys_spec(format: LyricFormat) -> Seq<Seq<char>> {
    match format {
        LyricFormat::PlainLrc => seq!["rawPlainLrc"@, "raw_plain_lrc"@],
        LyricFormat::VerbatimLrc => seq!["rawVerbatimLrc"@, "raw_verbatim_lrc"@],
        LyricFormat::EnhancedLrc => seq!["rawEnhancedLrc"@, "raw_enhanced_lrc"@],
        LyricFormat::Ttml => seq!["rawTtml"@, "raw_ttml"@],
    }
}

/// The keys under which a plugin result may hold raw lyrics of a format
/// (see [`raw_keys_spec`]).
pub fn raw_keys(format: LyricFormat) -> (r: Vec<&'static str>)
    ensures
        r@.map_values(|k: &str| k@) == raw_keys_spec(format),
{
    let r = match format {
        LyricFormat::PlainLrc => vec!["rawPlainLrc", "raw_plain_lrc"],
        LyricFormat::VerbatimLrc => vec!["rawVerbatimLrc", "raw_verbatim_lrc"],
        LyricFormat::EnhancedLrc => vec!["rawEnhancedLrc", "raw_enhanced_lrc"],
        LyricFormat::Ttml => vec!["rawTtml", "raw_ttml"],
    };
    assert(r@.map_values(|k: &str| k@) =~= raw_keys_spec(format));
    r
}

/// The keys under which a plugin result may hold multi-person enhanced LRC.
pub fn multi_person_enhanced_raw_keys() -> (r: Vec<&'static str>)
    ensures
        r@.map_values(|k: &str| k@) == seq!["rawMultiPersonEnhancedLrc"@, "raw_multi_person_enhanced_lrc"@],
{
    let r = vec!["rawMultiPersonEnhancedLrc", "raw_multi_person_enhanced_lrc"];
    assert(r@.map_values(|k: &str| k@) =~= seq!["rawMultiPersonEnhancedLrc"@, "raw_multi_person_enhanced_lrc"@]);
    r
}

/// Appends a format to the order of formats to try, unless it is there.
pub fn push_unique(order: &mut Vec<LyricFormat>, format: LyricFormat)
    ensures
        final(order)@ == (if old(order)@.contains(format) {
            old(order)@
        } else {
            old(order)@.push(format)
        }),
{
    if !crate::lyrics::model::contains_kind_format(order, format) {
        order.push(format);
    }
}

/// The largest lyrics file the application reads.
pub const MAX_LYRICS_FILE_BYTES: u64 = 5 * 1024 * 1024;

/// Checks the size of a lyrics file before it is read.
pub fn check_lyrics_file_size(size: u64) -> (r: Result<(), String>)
    ensures
        r is Ok <==> size <= MAX_LYRICS_FILE_BYTES,
        r matches Err(e) ==> e@ == "Lyrics file must be smaller than 5 MB"@,
{
    if size > MAX_LYRICS_FILE_BYTES {
        return Err("Lyrics file must be smaller than 5 MB".to_string());
    }
    Ok(())
}

/// The result of rendering lyrics: the text, warnings, and the formats read
/// and written.
#[derive(Debug)]
pub struct LyricsPipelineResult {
    pub text: String,
    pub warnings: Vec<String>,
    pub source_format: Option<LyricFormat>,
    pub target_format: LyricFormat,
}

/// The result with no lyrics, for the target format.
pub fn empty_result(target_format: LyricFormat) -> (r: LyricsPipelineResult)
    ensures
        r.text@.len() == 0,
        r.warnings@.len() == 0,
        r.source_format is None,
        r.target_format == target_format,
{
    LyricsPipelineResult { text: String::new(), warnings: Vec::new(), source_format: None, target_format }
}

/// Reads a lyric text of an LRC format; TTML is read by a TTML reader,
/// which the library does not hold, so a TTML text gives `None`.
pub fn parse_document(raw: &str, format: LyricFormat) -> (r: Option<LyricsDocument>)
    ensures
        match r {
            Some(d) => format != LyricFormat::Ttml && d@ == parsed_document(raw@, format),
            None => format == LyricFormat::Ttml,
        },
{
    if format == LyricFormat::Ttml {
        None
    } else {
        Some(parse(raw, format))
    }
}

/// The keys under which a plugin result may hold multi-person enhanced LRC.
pub open spec fn multi_person_keys() -> Seq<Seq<char>> {
    seq!["rawMultiPersonEnhancedLrc"@, "raw_multi_person_enhanced_lrc"@]
}

/// Whether a document holds a line in one of its tracks.
pub open spec fn has_lines(d: DocumentView) -> bool {
    exists|i: int| 0 <= i < d.tracks.len() && #[trigger] d.tracks[i].lines.len() > 0
}

/// The text under the first of `keys` whose value is a string.
pub open spec fn raw_string_spec(object: JsonValue, keys: Seq<Seq<char>>) -> Option<Seq<char>>
    decreases keys.len(),
{
    if keys.len() == 0 {
        None
    } else {
        match get_spec(object, keys[0]) {
            Some(JsonValue::Str(s)) => Some(s@),
            _ => raw_string_spec(object, keys.drop_first()),
        }
    }
}

/// What one attempt reads: the document of a raw text in a format, when
/// the text is not blank, the format is an LRC one (the library holds no
/// TTML reader) and the document has lines.
pub open spec fn attempt_reads(raw: Option<Seq<char>>, format: LyricFormat) -> Option<DocumentView> {
    match raw {
        Some(t) => if !is_blank(t) && format != LyricFormat::Ttml && has_lines(parsed_document(t, format)) {
            Some(parsed_document(t, format))
        } else {
            None
        },
        None => None,
    }
}

/// The document of the first attempt that reads one.
pub open spec fn first_document(attempts: Seq<(Option<Seq<char>>, LyricFormat)>) -> Option<DocumentView>
    decreases attempts.len(),
{
    if attempts.len() == 0 {
        None
    } else {
        match attempt_reads(attempts[0].0, attempts[0].1) {
            Some(d) => Some(d),
            None => first_document(attempts.drop_first()),
        }
    }
}

/// `order` with `format` appended unless it is there.
pub open spec fn push_unique_spec(order: Seq<LyricFormat>, format: LyricFormat) -> Seq<LyricFormat> {
    if order.contains(format) {
        order
    } else {
        order.push(format)
    }
}

/// The formats tried for raw lyrics: the target, TTML when secondary lines
/// are wanted, then enhanced, verbatim and plain LRC and TTML, each once.
pub open spec fn try_order(target: LyricFormat, wants_secondary: bool) -> Seq<LyricFormat> {
    let o1 = push_unique_spec(Seq::empty(), target);
    let o2 = if wants_secondary {
        push_unique_spec(o1, LyricFormat::Ttml)
    } else {
        o1
    };
    push_unique_spec(
        push_unique_spec(
            push_unique_spec(push_unique_spec(o2, LyricFormat::EnhancedLrc), LyricFormat::VerbatimLrc),
            LyricFormat::PlainLrc,
        ),
        LyricFormat::Ttml,
    )
}

/// The attempts on the multi-person enhanced LRC keys, read as enhanced
/// LRC.
pub open spec fn multi_person_attempts(object: JsonValue) -> Seq<(Option<Seq<char>>, LyricFormat)> {
    multi_person_keys().map_values(
        |k: Seq<char>| (raw_string_spec(object, seq![k]), LyricFormat::EnhancedLrc),
    )
}

/// The attempts on the raw keys of each format of `order`.
pub open spec fn format_attempts(object: JsonValue, order: Seq<LyricFormat>) -> Seq<(Option<Seq<char>>, LyricFormat)> {
    order.map_values(|f: LyricFormat| (raw_string_spec(object, raw_keys_spec(f)), f))
}

/// The document a plugin's raw lyrics give: multi-person enhanced LRC
/// first (it keeps word timings and singers), then the formats of
/// [`try_order`]; the first raw text that reads into a document with lines.
pub open spec fn best_raw_document(
    object: JsonValue,
    target: LyricFormat,
    wants_secondary: bool,
) -> Option<DocumentView> {
    match first_document(multi_person_attempts(object)) {
        Some(d) => Some(d),
        None => first_document(format_attempts(object, try_order(target, wants_secondary))),
    }
}

fn raw_string<'a>(object: &'a JsonValue, keys: &Vec<&str>) -> (r: Option<&'a str>)
    ensures
        match r {
            Some(s) => raw_string_spec(*object, keys@.map_values(|k: &str| k@)) == Some(s@),
            None => raw_string_spec(*object, keys@.map_values(|k: &str| k@)) is None,
        },
{
    let ghost kv = keys@.map_values(|k: &str| k@);
    let mut i: usize = 0;
    assert(kv.skip(0) =~= kv);
    while i < keys.len()
        invariant
            0 <= i <= keys@.len(),
            kv == keys@.map_values(|k: &str| k@),
            raw_string_spec(*object, kv) == raw_string_spec(*object, kv.skip(i as int)),
        decreases keys.len() - i,
    {
        assert(kv.skip(i as int)[0] == keys@[i as int]@);
        assert(kv.skip(i as int).drop_first() =~= kv.skip(i + 1));
        match get(object, keys[i]) {
            Some(JsonValue::Str(s)) => {
                return Some(s.as_str());
            },
            _ => {},
        }
        i = i + 1;
    }
    assert(kv.skip(i as int).len() == 0);
    None
}

fn has_lines_exec(d: &LyricsDocument) -> (r: bool)
    ensures
        r == has_lines(d@),
{
    let mut i: usize = 0;
    while i < d.tracks.len()
        invariant
            0 <= i <= d.tracks@.len(),
            forall|j: int| 0 <= j < i ==> (#[trigger] d@.tracks[j]).lines.len() == 0,
        decreases d.tracks.len() - i,
    {
        assert(d@.tracks[i as int].lines.len() == d.tracks@[i as int].lines@.len());
        if d.tracks[i].lines.len() > 0 {
            return true;
        }
        i = i + 1;
    }
    false
}

fn try_attempt(raw: Option<&str>, format: LyricFormat) -> (r: Option<LyricsDocument>)
    ensures
        match r {
            Some(d) => attempt_reads(
                match raw {
                    Some(t) => Some(t@),
                    None => None,
                },
                format,
            ) == Some(d@),
            None => attempt_reads(
                match raw {
                    Some(t) => Some(t@),
                    None => None,
                },
                format,
            ) is None,
        },
{
    match raw {
        None => None,
        Some(t) => {
            if str_blank(t) {
                return None;
            }
            match parse_document(t, format) {
                None => None,
                Some(d) => if has_lines_exec(&d) {
                    Some(d)
                } else {
                    None
                },
            }
        },
    }
}

fn try_format(object: &JsonValue, format: LyricFormat) -> (r: Option<LyricsDocument>)
    ensures
        match r {
            Some(d) => attempt_reads(raw_string_spec(*object, raw_keys_spec(format)), format) == Some(d@),
            None => attempt_reads(raw_string_spec(*object, raw_keys_spec(format)), format) is None,
        },
{
    let keys = raw_keys(format);
    let raw = raw_string(object, &keys);
    try_attempt(raw, format)
}

/// The document a plugin's raw lyrics give (see [`best_raw_document`]);
/// secondary lines are wanted when translations or romanizations are shown
/// or only translations are asked for.
pub fn parse_best_raw_document(
    object: &JsonValue,
    target_format: LyricFormat,
    options: &LyricsOptions,
) -> (r: Option<LyricsDocument>)
    ensures
        match r {
            Some(d) => best_raw_document(
                *object,
                target_format,
                options.show_translation || options.show_romanization
                    || options.only_translation_if_available,
            ) == Some(d@),
            None => best_raw_document(
                *object,
                target_format,
                options.show_translation || options.show_romanization
                    || options.only_translation_if_available,
            ) is None,
        },
{
    let mpe = multi_person_enhanced_raw_keys();
    let ghost ma = multi_person_attempts(*object);
    let mut k: usize = 0;
    assert(ma.skip(0) =~= ma);
    while k < mpe.len()
        invariant
            0 <= k <= mpe@.len(),
            mpe@.map_values(|x: &str| x@) == multi_person_keys(),
            ma == multi_person_attempts(*object),
            first_document(ma) == first_document(ma.skip(k as int)),
        decreases mpe.len() - k,
    {
        let one = vec![mpe[k]];
        assert(one@.map_values(|x: &str| x@) =~= seq![multi_person_keys()[k as int]]);
        let raw = raw_string(object, &one);
        assert(ma.skip(k as int)[0] == ma[k as int]);
        assert(ma.skip(k as int).drop_first() =~= ma.skip(k + 1));
        if let Some(d) = try_attempt(raw, LyricFormat::EnhancedLrc) {
            return Some(d);
        }
        k = k + 1;
    }
    assert(ma.skip(k as int).len() == 0);
    let wants = options.show_translation || options.show_romanization || options.only_translation_if_available;
    let mut order: Vec<LyricFormat> = Vec::new();
    push_unique(&mut order, target_format);
    if wants {
        push_unique(&mut order, LyricFormat::Ttml);
    }
    push_unique(&mut order, LyricFormat::EnhancedLrc);
    push_unique(&mut order, LyricFormat::VerbatimLrc);
    push_unique(&mut order, LyricFormat::PlainLrc);
    push_unique(&mut order, LyricFormat::Ttml);
    assert(order@ =~= try_order(target_format, wants));
    let ghost fa = format_attempts(*object, order@);
    let mut i: usize = 0;
    assert(fa.skip(0) =~= fa);
    while i < order.len()
        invariant
            0 <= i <= order@.len(),
            fa == format_attempts(*object, order@),
            first_document(fa) == first_document(fa.skip(i as int)),
            first_document(multi_person_attempts(*object)) is None,
            order@ == try_order(target_format, wants),
            wants == (options.show_translation || options.show_romanization
                || options.only_translation_if_available),
        decreases order.len() - i,
    {
        let format = order[i];
        assert(fa.skip(i as int)[0] == fa[i as int]);
        assert(fa.skip(i as int).drop_first() =~= fa.skip(i + 1));
        if let Some(d) = try_format(object, format) {
            return Some(d);
        }
        i = i + 1;
    }
    assert(fa.skip(i as int).len() == 0);
    None
}

// ---------------------------------------------------------------------------
// TTML namespace warnings
// ---------------------------------------------------------------------------

/// An `xmlns` declaration; its first group is the namespace.
pub const TTML_NAMESPACE_PATTERN: &'static str = r#"xmlns(?::[\w-]+)?=["']([^"']+)["']"#;

/// The TTML namespaces whose content LRC can hold.
pub open spec fn known_namespace(ns: Seq<char>) -> bool {
    ||| ns == "http://www.w3.org/ns/ttml"@
    ||| ns == "http://www.w3.org/ns/ttml#metadata"@
    ||| ns == "http://music.apple.com/lyric-ttml-internal"@
}

/// The namespaces found that are not known, each once, in order of first
/// declaration; a declaration whose namespace was not captured counts for
/// nothing.
pub open spec fn unknown_namespaces(found: Seq<Option<Seq<char>>>) -> Seq<Seq<char>>
    decreases found.len(),
{
    if found.len() == 0 {
        Seq::empty()
    } else {
        let p = unknown_namespaces(found.drop_last());
        match found.last() {
            Some(ns) => if known_namespace(ns) || p.contains(ns) {
                p
            } else {
                p.push(ns)
            },
            None => p,
        }
    }
}

/// The warning for a namespace that the target format cannot hold.
pub open spec fn namespace_warning(target: LyricFormat, ns: Seq<char>) -> Seq<char> {
    "TTML extension cannot be represented in "@ + format_name(target) + ": "@ + ns
}

/// The warnings of rendering TTML into another format: one for each
/// namespace the raw TTML declares beyond the known ones. There are none
/// unless the document was read from TTML and the target is not TTML.
pub open spec fn warnings_spec(
    object: JsonValue,
    source_format: Option<LyricFormat>,
    target: LyricFormat,
) -> Seq<Seq<char>> {
    if source_format != Some(LyricFormat::Ttml) || target == LyricFormat::Ttml {
        Seq::empty()
    } else {
        match get_spec(object, "rawTtml"@) {
            Some(JsonValue::Str(raw)) => unknown_namespaces(
                spec_regex_first_groups(TTML_NAMESPACE_PATTERN@, raw@),
            ).map_values(|ns: Seq<char>| namespace_warning(target, ns)),
            _ => Seq::empty(),
        }
    }
}

fn known_namespace_exec(ns: &str) -> (r: bool)
    ensures
        r == known_namespace(ns@),
{
    str_eq(ns, "http://www.w3.org/ns/ttml") || str_eq(ns, "http://www.w3.org/ns/ttml#metadata")
        || str_eq(ns, "http://music.apple.com/lyric-ttml-internal")
}

/// The warnings of rendering a plugin result (see [`warnings_spec`]).
pub fn collect_warnings(
    object: &JsonValue,
    source_format: Option<LyricFormat>,
    target_format: LyricFormat,
) -> (r: Vec<String>)
    ensures
        strings_view(r@) == warnings_spec(*object, source_format, target_format),
{
    let from_ttml = match source_format {
        Some(LyricFormat::Ttml) => true,
        _ => false,
    };
    let none: Vec<String> = Vec::new();
    assert(strings_view(none@) =~= Seq::<Seq<char>>::empty());
    if !from_ttml || target_format == LyricFormat::Ttml {
        return none;
    }
    let raw = match get(object, "rawTtml") {
        Some(JsonValue::Str(raw)) => raw,
        _ => {
            return none;
        },
    };
    let found = regex_first_groups(TTML_NAMESPACE_PATTERN, raw.as_str());
    let ghost fv = spec_regex_first_groups(TTML_NAMESPACE_PATTERN@, raw@);
    let mut unknown: Vec<String> = Vec::new();
    let mut i: usize = 0;
    while i < found.len()
        invariant
            0 <= i <= found@.len(),
            fv == optional_texts(found@),
            strings_view(unknown@) == unknown_namespaces(fv.take(i as int)),
        decreases found.len() - i,
    {
        assert(fv.take(i + 1).drop_last() =~= fv.take(i as int));
        assert(fv.take(i + 1).last() == fv[i as int]);
        match &found[i] {
            Some(group) => {
                let ns = group.as_str();
                if !known_namespace_exec(ns) && !contains_text(&unknown, ns) {
                    let ghost before = strings_view(unknown@);
                    unknown.push(group.clone());
                    assert(strings_view(unknown@) =~= before.push(ns@));
                }
            },
            None => {},
        }
        i = i + 1;
    }
    assert(fv.take(found@.len() as int) =~= fv);
    let ghost uv = strings_view(unknown@);
    let name = target_format.as_str();
    let mut out: Vec<String> = Vec::new();
    let mut k: usize = 0;
    while k < unknown.len()
        invariant
            0 <= k <= unknown@.len(),
            uv == strings_view(unknown@),
            name@ == format_name(target_format),
            strings_view(out@) == uv.take(k as int).map_values(
                |ns: Seq<char>| namespace_warning(target_format, ns),
            ),
        decreases unknown.len() - k,
    {
        let mut w = "TTML extension cannot be represented in ".to_string();
        w.append(name);
        w.append(": ");
        w.append(unknown[k].as_str());
        let ghost before = strings_view(out@);
        out.push(w);
        assert(strings_view(out@) =~= before.push(namespace_warning(target_format, uv[k as int])));
        assert(uv.take(k + 1).map_values(|ns: Seq<char>| namespace_warning(target_format, ns))
            =~= uv.take(k as int).map_values(|ns: Seq<char>| namespace_warning(target_format, ns)).push(
            namespace_warning(target_format, uv[k as int]),
        ));
        k = k + 1;
    }
    assert(uv.take(unknown@.len() as int) =~= uv);
    out
}

/// The index of the first original track, or the number of tracks.
pub open spec fn first_original(tracks: Seq<TrackView>) -> int
    decreases tracks.len(),
{
    if tracks.len() == 0 {
        0
    } else if tracks[0].kind == TrackType::Original {
        0
    } else {
        1 + first_original(tracks.drop_first())
    }
}

/// The visible texts of the lines that are not empty.
pub open spec fn shown_texts(lines: Seq<LineView>) -> Seq<Seq<char>>
    decreases lines.len(),
{
    if lines.len() == 0 {
        Seq::empty()
    } else {
        let p = shown_texts(lines.drop_last());
        let t = visible_text(lines.last());
        if t.len() > 0 {
            p.push(t)
        } else {
            p
        }
    }
}

/// The visible texts of the first original track's lines, empty ones left
/// out.
pub open spec fn original_texts(doc: DocumentView) -> Seq<Seq<char>> {
    let k = first_original(doc.tracks);
    if 0 <= k < doc.tracks.len() {
        shown_texts(doc.tracks[k].lines)
    } else {
        Seq::empty()
    }
}

/// The trimmed lines that are not empty.
pub open spec fn trimmed_lines(lines: Seq<Seq<char>>) -> Seq<Seq<char>>
    decreases lines.len(),
{
    if lines.len() == 0 {
        Seq::empty()
    } else {
        let p = trimmed_lines(lines.drop_last());
        let t = trim(lines.last());
        if t.len() > 0 {
            p.push(t)
        } else {
            p
        }
    }
}

/// The plain text of lyrics: empty for a blank text; else the lines of the
/// first original track of the text read in its format, one per line; when
/// that gives none (always for TTML, which the library does not read), the
/// text's own non-blank lines, trimmed.
pub open spec fn plain_text_spec(raw: Seq<char>) -> Seq<char> {
    if is_blank(raw) {
        Seq::empty()
    } else {
        let format = detect_format_spec(raw);
        let from_document = if format == LyricFormat::Ttml {
            Seq::empty()
        } else {
            original_texts(parsed_document(raw, format))
        };
        if from_document.len() > 0 {
            join_with(from_document, "\n"@)
        } else {
            join_with(trimmed_lines(lines_of(raw)), "\n"@)
        }
    }
}

fn original_texts_exec(doc: &LyricsDocument) -> (r: Vec<String>)
    ensures
        strings_view(r@) == original_texts(doc@),
{
    let ghost tv = doc@.tracks;
    let mut k: usize = 0;
    assert(tv.skip(0) =~= tv);
    while k < doc.tracks.len()
        invariant
            0 <= k <= doc.tracks@.len(),
            tv == doc@.tracks,
            first_original(tv) == k + first_original(tv.skip(k as int)),
        decreases doc.tracks.len() - k,
    {
        assert(tv.skip(k as int)[0] == doc.tracks@[k as int]@);
        if doc.tracks[k].kind == TrackType::Original {
            let lines = &doc.tracks[k].lines;
            let ghost lv = lines@.map_values(|l: LyricsLine| l@);
            assert(lv == tv[k as int].lines);
            let mut out: Vec<String> = Vec::new();
            let mut i: usize = 0;
            while i < lines.len()
                invariant
                    0 <= i <= lines@.len(),
                    lv == lines@.map_values(|l: LyricsLine| l@),
                    strings_view(out@) == shown_texts(lv.take(i as int)),
                decreases lines.len() - i,
            {
                assert(lv.take(i + 1).drop_last() == lv.take(i as int));
                assert(lv.take(i + 1).last() == lines@[i as int]@);
                let t = line_visible_text(&lines[i]);
                if !t.as_str().is_empty() {
                    let ghost prev = strings_view(out@);
                    out.push(t);
                    assert(strings_view(out@) =~= prev.push(visible_text(lines@[i as int]@)));
                }
                i = i + 1;
            }
            assert(lv.take(lines@.len() as int) == lv);
            return out;
        }
        assert(tv.skip(k as int).drop_first() =~= tv.skip(k + 1));
        k = k + 1;
    }
    Vec::new()
}

/// The plain text of lyrics (see [`plain_text_spec`]).
pub fn extract_plain_text(raw: &str) -> (r: String)
    ensures
        r@ == plain_text_spec(raw@),
{
    if str_blank(raw) {
        return String::new();
    }
    let format = detect_format(raw);
    let texts = match parse_document(raw, format) {
        Some(document) => original_texts_exec(&document),
        None => Vec::new(),
    };
    if texts.len() > 0 {
        return join_texts(&texts, "\n");
    }
    let chars = chars_of(raw);
    let lines = split_lines(chars.as_slice());
    let ghost ls = lines_of(raw@);
    let mut kept: Vec<String> = Vec::new();
    let mut i: usize = 0;
    while i < lines.len()
        invariant
            0 <= i <= lines@.len(),
            lines@.len() == ls.len(),
            ls == lines_of(raw@),
            forall|j: int| 0 <= j < lines@.len() ==> #[trigger] lines@[j]@ == ls[j],
            strings_view(kept@) == trimmed_lines(ls.take(i as int)),
        decreases lines.len() - i,
    {
        assert(ls.take(i + 1).drop_last() == ls.take(i as int));
        assert(ls.take(i + 1).last() == lines@[i as int]@);
        let t = trimmed(lines[i].as_slice());
        if !t.as_str().is_empty() {
            let ghost prev = strings_view(kept@);
            kept.push(t);
            assert(strings_view(kept@) =~= prev.push(trim(ls[i as int])));
        }
        i = i + 1;
    }
    assert(ls.take(lines@.len() as int) == ls);
    join_texts(&kept, "\n")
}

// ---------------------------------------------------------------------------
// structured plugin results
// ---------------------------------------------------------------------------

/// The lyric candidates of a plugin's result: the items of an array, in
/// order (best match first), or the result itself.
pub open spec fn plugin_candidates_spec(result: JsonValue) -> Seq<JsonValue> {
    match result {
        JsonValue::Array(items) => items@,
        _ => seq![result],
    }
}

/// The lyric candidates of a plugin's result (see
/// [`plugin_candidates_spec`]).
pub fn plugin_candidates(result: &JsonValue) -> (r: Vec<&JsonValue>)
    ensures
        r@.map_values(|v: &JsonValue| *v) == plugin_candidates_spec(*result),
{
    match result {
        JsonValue::Array(items) => {
            let mut out: Vec<&JsonValue> = Vec::new();
            let mut i: usize = 0;
            while i < items.len()
                invariant
                    0 <= i <= items@.len(),
                    out@.map_values(|v: &JsonValue| *v) == items@.take(i as int),
                decreases items.len() - i,
            {
                let ghost before = out@;
                out.push(&items[i]);
                assert(out@ == before.push(&items[i as int]));
                assert(items@.take(i + 1) =~= items@.take(i as int).push(items@[i as int]));
                assert(out@.map_values(|v: &JsonValue| *v) =~= before.map_values(|v: &JsonValue| *v).push(items@[i as int]));
                i = i + 1;
            }
            assert(items@.take(items@.len() as int) =~= items@);
            out
        },
        _ => {
            let out = vec![result];
            assert(out@.map_values(|v: &JsonValue| *v) =~= seq![*result]);
            out
        },
    }
}

/// Whether a result object is structured: its `original` is an array.
pub open spec fn is_structured_spec(object: JsonValue) -> bool {
    get_spec(object, "original"@) matches Some(JsonValue::Array(_))
}

/// Whether a result object is structured (see [`is_structured_spec`]).
pub fn is_structured(object: &JsonValue) -> (r: bool)
    ensures
        r == is_structured_spec(*object),
{
    match get(object, "original") {
        Some(JsonValue::Array(_)) => true,
        _ => false,
    }
}

/// The whole number a JSON value gives: an integer as it is, another number
/// rounded; nothing for what is not a number.
pub open spec fn number_value(v: JsonValue) -> Option<i64> {
    match v {
        JsonValue::Number(n) => match n.as_i64 {
            Some(i) => Some(i),
            None => Some(n.rounded),
        },
        _ => None,
    }
}

/// The whole number a JSON value gives (see [`number_value`]).
pub fn number_to_i64(v: &JsonValue) -> (r: Option<i64>)
    ensures
        r == number_value(*v),
{
    match v {
        JsonValue::Number(n) => match n.as_i64 {
            Some(i) => Some(i),
            None => Some(n.rounded),
        },
        _ => None,
    }
}

/// The text a JSON value gives: a string as it is, anything else as its
/// JSON text.
pub open spec fn value_text(v: JsonValue) -> Seq<char> {
    match v {
        JsonValue::Str(s) => s@,
        _ => json_text(v),
    }
}

/// The text a JSON value gives (see [`value_text`]).
pub fn value_to_text(v: &JsonValue) -> (r: String)
    ensures
        r@ == value_text(*v),
{
    match v {
        JsonValue::Str(s) => s.clone(),
        _ => {
            let mut out = String::new();
            push_json(&mut out, v);
            assert(out@ =~= json_text(*v));
            out
        },
    }
}

/// A word of a structured line: an array of start, end and text.
pub open spec fn compact_word(v: JsonValue) -> Result<WordView, Seq<char>> {
    match v {
        JsonValue::Array(w) => if w@.len() < 3 {
            Err("Structured lyric word must have start, end and text"@)
        } else {
            Ok(WordView { start_ms: number_value(w@[0]), end_ms: number_value(w@[1]), text: value_text(w@[2]) })
        },
        _ => Err("Structured lyric word must be an array"@),
    }
}

/// The words of a structured line, or the error of the first one that is
/// not a word.
pub open spec fn compact_words(ws: Seq<JsonValue>) -> Result<Seq<WordView>, Seq<char>>
    decreases ws.len(),
{
    if ws.len() == 0 {
        Ok(Seq::empty())
    } else {
        match compact_words(ws.drop_last()) {
            Err(e) => Err(e),
            Ok(p) => match compact_word(ws.last()) {
                Err(e) => Err(e),
                Ok(w) => Ok(p.push(w)),
            },
        }
    }
}

/// A structured line, the `index`-th of its track: an array of start, end
/// and either the text or the words (whose texts make the text). It gets the
/// link key `L{index + 1}`; only original lines keep their words.
pub open spec fn compact_line_spec(v: JsonValue, index: int, kind: TrackType) -> Result<LineView, Seq<char>> {
    match v {
        JsonValue::Array(items) => if items@.len() < 3 {
            Err("Structured lyric line must have start, end and text"@)
        } else {
            let start = number_value(items@[0]);
            let end = number_value(items@[1]);
            match items@[2] {
                JsonValue::Array(ws) => match compact_words(ws@) {
                    Err(e) => Err(e),
                    Ok(words) => Ok(LineView {
                        start_ms: start,
                        end_ms: end,
                        text: words_text(words),
                        words: if kind == TrackType::Original {
                            words
                        } else {
                            Seq::empty()
                        },
                        link_key: Some(link_text(index)),
                        agent_id: None,
                    }),
                },
                other => Ok(LineView {
                    start_ms: start,
                    end_ms: end,
                    text: value_text(other),
                    words: Seq::empty(),
                    link_key: Some(link_text(index)),
                    agent_id: None,
                }),
            }
        },
        _ => Err("Structured lyric line must be an array"@),
    }
}

fn compact_word_exec(v: &JsonValue) -> (r: Result<LyricsWord, String>)
    ensures
        match r {
            Ok(w) => compact_word(*v) == Ok::<WordView, Seq<char>>(w@),
            Err(e) => compact_word(*v) == Err::<WordView, Seq<char>>(e@),
        },
{
    match v {
        JsonValue::Array(w) => {
            if w.len() < 3 {
                Err("Structured lyric word must have start, end and text".to_string())
            } else {
                Ok(LyricsWord {
                    start_ms: number_to_i64(&w[0]),
                    end_ms: number_to_i64(&w[1]),
                    text: value_to_text(&w[2]),
                })
            }
        },
        _ => Err("Structured lyric word must be an array".to_string()),
    }
}

/// A structured line (see [`compact_line_spec`]).
pub fn compact_line(v: &JsonValue, index: usize, kind: TrackType) -> (r: Result<LyricsLine, String>)
    requires
        index < u64::MAX,
    ensures
        match r {
            Ok(l) => compact_line_spec(*v, index as int, kind) == Ok::<LineView, Seq<char>>(l@),
            Err(e) => compact_line_spec(*v, index as int, kind) == Err::<LineView, Seq<char>>(e@),
        },
{
    let items = match v {
        JsonValue::Array(items) => items,
        _ => {
            return Err("Structured lyric line must be an array".to_string());
        },
    };
    if items.len() < 3 {
        return Err("Structured lyric line must have start, end and text".to_string());
    }
    let start_ms = number_to_i64(&items[0]);
    let end_ms = number_to_i64(&items[1]);
    let key = link_key_exec(index);
    match &items[2] {
        JsonValue::Array(ws) => {
            assert(items@[2] == JsonValue::Array(*ws));
            let mut words: Vec<LyricsWord> = Vec::new();
            let mut text = String::new();
            let mut i: usize = 0;
            assert(ws@.take(0) =~= Seq::<JsonValue>::empty());
            assert(words_view(words@) =~= Seq::<WordView>::empty());
            while i < ws.len()
                invariant
                    0 <= i <= ws@.len(),
                    *v == JsonValue::Array(*items),
                    items@.len() >= 3,
                    items@[2] == JsonValue::Array(*ws),
                    start_ms == number_value(items@[0]),
                    end_ms == number_value(items@[1]),
                    key@ == link_text(index as int),
                    compact_words(ws@.take(i as int)) == Ok::<Seq<WordView>, Seq<char>>(words_view(words@)),
                    text@ == words_text(words_view(words@)),
                decreases ws.len() - i,
            {
                assert(ws@.take(i + 1).drop_last() =~= ws@.take(i as int));
                assert(ws@.take(i + 1).last() == ws@[i as int]);
                match compact_word_exec(&ws[i]) {
                    Ok(w) => {
                        let ghost before = words_view(words@);
                        text.append(w.text.as_str());
                        words.push(w);
                        assert(words_view(words@) =~= before.push(w@));
                        assert(words_view(words@).drop_last() =~= before);
                    },
                    Err(e) => {
                        proof {
                            lemma_compact_words_error(ws@, i as int);
                        }
                        return Err(e);
                    },
                }
                i = i + 1;
            }
            assert(ws@.take(ws@.len() as int) =~= ws@);
            let kept = if kind == TrackType::Original {
                words
            } else {
                Vec::new()
            };
            assert(kind != TrackType::Original ==> words_view(kept@) =~= Seq::<WordView>::empty());
            Ok(LyricsLine { start_ms, end_ms, text, words: kept, link_key: Some(key), agent_id: None })
        },
        other => {
            let text = value_to_text(other);
            let l = LyricsLine { start_ms, end_ms, text, words: Vec::new(), link_key: Some(key), agent_id: None };
            assert(words_view(l.words@) =~= Seq::<WordView>::empty());
            Ok(l)
        },
    }
}

proof fn lemma_compact_words_error(ws: Seq<JsonValue>, i: int)
    requires
        0 <= i < ws.len(),
        compact_words(ws.take(i + 1)) is Err,
    ensures
        compact_words(ws) == compact_words(ws.take(i + 1)),
    decreases ws.len() - i,
{
    if i + 1 < ws.len() {
        assert(ws.take(i + 2).drop_last() =~= ws.take(i + 1));
        lemma_compact_words_error(ws, i + 1);
    } else {
        assert(ws.take(i + 1) =~= ws);
    }
}

/// The lines of a structured track, each with its index, or the error of
/// the first line that is not one.
pub open spec fn compact_lines_from(ls: Seq<JsonValue>, kind: TrackType) -> Result<Seq<LineView>, Seq<char>>
    decreases ls.len(),
{
    if ls.len() == 0 {
        Ok(Seq::empty())
    } else {
        match compact_lines_from(ls.drop_last(), kind) {
            Err(e) => Err(e),
            Ok(p) => match compact_line_spec(ls.last(), ls.len() - 1, kind) {
                Err(e) => Err(e),
                Ok(l) => Ok(p.push(l)),
            },
        }
    }
}

/// The lines of a structured track: none when the value is not an array.
pub open spec fn compact_lines_spec(v: Option<JsonValue>, kind: TrackType) -> Result<Seq<LineView>, Seq<char>> {
    match v {
        Some(JsonValue::Array(ls)) => compact_lines_from(ls@, kind),
        _ => Ok(Seq::empty()),
    }
}

proof fn lemma_compact_lines_error(ls: Seq<JsonValue>, kind: TrackType, i: int)
    requires
        0 <= i < ls.len(),
        compact_lines_from(ls.take(i + 1), kind) is Err,
    ensures
        compact_lines_from(ls, kind) == compact_lines_from(ls.take(i + 1), kind),
    decreases ls.len() - i,
{
    if i + 1 < ls.len() {
        assert(ls.take(i + 2).drop_last() =~= ls.take(i + 1));
        lemma_compact_lines_error(ls, kind, i + 1);
    } else {
        assert(ls.take(i + 1) =~= ls);
    }
}

/// The lines of a structured track (see [`compact_lines_spec`]).
pub fn compact_lines(v: Option<&JsonValue>, kind: TrackType) -> (r: Result<Vec<LyricsLine>, String>)
    ensures
        match r {
            Ok(ls) => compact_lines_spec(match v {
                Some(x) => Some(*x),
                None => None,
            }, kind) == Ok::<Seq<LineView>, Seq<char>>(ls@.map_values(|l: LyricsLine| l@)),
            Err(e) => compact_lines_spec(match v {
                Some(x) => Some(*x),
                None => None,
            }, kind) == Err::<Seq<LineView>, Seq<char>>(e@),
        },
{
    let ls = match v {
        Some(JsonValue::Array(ls)) => ls,
        _ => {
            let out: Vec<LyricsLine> = Vec::new();
            assert(out@.map_values(|l: LyricsLine| l@) =~= Seq::<LineView>::empty());
            return Ok(out);
        },
    };
    let mut out: Vec<LyricsLine> = Vec::new();
    let mut i: usize = 0;
    assert(ls@.take(0) =~= Seq::<JsonValue>::empty());
    assert(out@.map_values(|l: LyricsLine| l@) =~= Seq::<LineView>::empty());
    while i < ls.len()
        invariant
            0 <= i <= ls@.len(),
            match v {
                Some(x) => *x == JsonValue::Array(*ls),
                None => false,
            },
            compact_lines_from(ls@.take(i as int), kind) == Ok::<Seq<LineView>, Seq<char>>(out@.map_values(|l: LyricsLine| l@)),
        decreases ls.len() - i,
    {
        assert(ls@.take(i + 1).drop_last() =~= ls@.take(i as int));
        assert(ls@.take(i + 1).last() == ls@[i as int]);
        match compact_line(&ls[i], i, kind) {
            Ok(l) => {
                let ghost before = out@.map_values(|l: LyricsLine| l@);
                out.push(l);
                assert(out@.map_values(|l: LyricsLine| l@) =~= before.push(l@));
            },
            Err(e) => {
                proof {
                    lemma_compact_lines_error(ls@, kind, i as int);
                }
                return Err(e);
            },
        }
        i = i + 1;
    }
    assert(ls@.take(ls@.len() as int) =~= ls@);
    Ok(out)
}

/// The tags of a structured result: each entry that is not null, with its
/// value as text, when that text is not blank; in order.
pub open spec fn structured_tags(entries: Seq<(String, JsonValue)>) -> Seq<(Seq<char>, Seq<char>)>
    decreases entries.len(),
{
    if entries.len() == 0 {
        Seq::empty()
    } else {
        let p = structured_tags(entries.drop_last());
        let e = entries.last();
        match e.1 {
            JsonValue::Null => p,
            v => if is_blank(value_text(v)) {
                p
            } else {
                p.push((e.0@, value_text(v)))
            },
        }
    }
}

/// The tags of a structured result's `tags` value: none unless it is an
/// object.
pub open spec fn tags_of(v: Option<JsonValue>) -> Seq<(Seq<char>, Seq<char>)> {
    match v {
        Some(JsonValue::Object(entries)) => structured_tags(entries@),
        _ => Seq::empty(),
    }
}

/// A track of a structured result when it has lines.
pub open spec fn track_if_any(kind: TrackType, lines: Seq<LineView>) -> Seq<TrackView> {
    if lines.len() > 0 {
        seq![TrackView { kind, lines }]
    } else {
        Seq::empty()
    }
}

/// The document of a structured result: the original track (always), then
/// the translated and romanization tracks when they have lines, and the
/// tags; or the error of the first line that is not one.
pub open spec fn structured_document(object: JsonValue) -> Result<DocumentView, Seq<char>> {
    match compact_lines_spec(get_spec(object, "original"@), TrackType::Original) {
        Err(e) => Err(e),
        Ok(o) => match compact_lines_spec(get_spec(object, "translated"@), TrackType::Translation) {
            Err(e) => Err(e),
            Ok(t) => match compact_lines_spec(get_spec(object, "romanization"@), TrackType::Romanization) {
                Err(e) => Err(e),
                Ok(r) => Ok(DocumentView {
                    tags: tags_of(get_spec(object, "tags"@)),
                    agents: Seq::empty(),
                    tracks: seq![TrackView { kind: TrackType::Original, lines: o }] + track_if_any(
                        TrackType::Translation,
                        t,
                    ) + track_if_any(TrackType::Romanization, r),
                    source_format: None,
                }),
            },
        },
    }
}

fn structured_tags_exec(v: Option<&JsonValue>) -> (r: Vec<(String, String)>)
    ensures
        tags_view(r@) == tags_of(match v {
            Some(x) => Some(*x),
            None => None,
        }),
{
    let entries = match v {
        Some(JsonValue::Object(entries)) => entries,
        _ => {
            let out: Vec<(String, String)> = Vec::new();
            assert(tags_view(out@) =~= Seq::<(Seq<char>, Seq<char>)>::empty());
            return out;
        },
    };
    let mut out: Vec<(String, String)> = Vec::new();
    let mut i: usize = 0;
    assert(entries@.take(0) =~= Seq::<(String, JsonValue)>::empty());
    assert(tags_view(out@) =~= Seq::<(Seq<char>, Seq<char>)>::empty());
    while i < entries.len()
        invariant
            0 <= i <= entries@.len(),
            match v {
                Some(x) => *x == JsonValue::Object(*entries),
                None => false,
            },
            tags_view(out@) == structured_tags(entries@.take(i as int)),
        decreases entries.len() - i,
    {
        assert(entries@.take(i + 1).drop_last() =~= entries@.take(i as int));
        assert(entries@.take(i + 1).last() == entries@[i as int]);
        let value = &entries[i].1;
        match value {
            JsonValue::Null => {},
            _ => {
                let text = value_to_text(value);
                if !str_blank(text.as_str()) {
                    let ghost before = tags_view(out@);
                    out.push((entries[i].0.clone(), text));
                    assert(tags_view(out@) =~= before.push((entries@[i as int].0@, value_text(*value))));
                }
            },
        }
        i = i + 1;
    }
    assert(entries@.take(entries@.len() as int) =~= entries@);
    out
}

/// The document of a structured result (see [`structured_document`]).
pub fn document_from_structured(object: &JsonValue) -> (r: Result<LyricsDocument, String>)
    ensures
        match r {
            Ok(d) => structured_document(*object) == Ok::<DocumentView, Seq<char>>(d@),
            Err(e) => structured_document(*object) == Err::<DocumentView, Seq<char>>(e@),
        },
{
    let original = match compact_lines(get(object, "original"), TrackType::Original) {
        Ok(lines) => lines,
        Err(e) => {
            return Err(e);
        },
    };
    let translated = match compact_lines(get(object, "translated"), TrackType::Translation) {
        Ok(lines) => lines,
        Err(e) => {
            return Err(e);
        },
    };
    let romanization = match compact_lines(get(object, "romanization"), TrackType::Romanization) {
        Ok(lines) => lines,
        Err(e) => {
            return Err(e);
        },
    };
    let ghost ov = original@.map_values(|l: LyricsLine| l@);
    let ghost tv = translated@.map_values(|l: LyricsLine| l@);
    let ghost rv = romanization@.map_values(|l: LyricsLine| l@);
    let mut tracks: Vec<LyricsTrack> = Vec::new();
    tracks.push(LyricsTrack::new(TrackType::Original, original));
    let ghost first = tracks@.map_values(|t: LyricsTrack| t@);
    assert(first =~= seq![TrackView { kind: TrackType::Original, lines: ov }]);
    if translated.len() > 0 {
        tracks.push(LyricsTrack::new(TrackType::Translation, translated));
    }
    let ghost second = tracks@.map_values(|t: LyricsTrack| t@);
    assert(second =~= first + track_if_any(TrackType::Translation, tv));
    if romanization.len() > 0 {
        tracks.push(LyricsTrack::new(TrackType::Romanization, romanization));
    }
    assert(tracks@.map_values(|t: LyricsTrack| t@) =~= second + track_if_any(TrackType::Romanization, rv));
    let tags = structured_tags_exec(get(object, "tags"));
    let d = LyricsDocument {
        metadata: LyricsMetadata::from_lrc_tags(tags),
        agents: Vec::new(),
        tracks,
        source_format: None,
    };
    assert(d@.agents =~= Seq::<Seq<char>>::empty());
    Ok(d)
}

} // verus!

//! The lyrics document model shared by the LRC reader/writer and the
//! processing pipeline, with its mathematical views.
use vstd::prelude::*;

verus! {

/// The lyric text formats the library reads and writes.
#[derive(Clone, Copy, Debug, PartialEq, Eq, Structural)]
pub enum LyricFormat {
    PlainLrc,
    VerbatimLrc,
    EnhancedLrc,
    Ttml,
}

/// The name of a format, as settings and plugin results spell it.
pub open spec fn format_name(format: LyricFormat) -> Seq<char> {
    match format {
        LyricFormat::PlainLrc => "plainLrc"@,
        LyricFormat::VerbatimLrc => "verbatimLrc"@,
        LyricFormat::EnhancedLrc => "enhancedLrc"@,
        LyricFormat::Ttml => "ttml"@,
    }
}

impl LyricFormat {
    /// The name of the format (see [`format_name`]).
    pub fn as_str(&self) -> (r: &'static str)
        ensures
            r@ == format_name(*self),
    {
        match self {
            LyricFormat::PlainLrc => "plainLrc",
            LyricFormat::VerbatimLrc => "verbatimLrc",
            LyricFormat::EnhancedLrc => "enhancedLrc",
            LyricFormat::Ttml => "ttml",
        }
    }
}

/// The role of a track of lines in a document.
#[derive(Clone, Copy, Debug, PartialEq, Eq, Structural)]
pub enum TrackType {
    Original,
    Translation,
    Romanization,
}

/// One kind of line in the written output order.
#[derive(Clone, Copy, Debug, PartialEq, Eq, Structural)]
pub enum LineTrack {
    Original,
    Translation,
    Romanization,
}

/// A timed word (or syllable) of a line.
#[derive(Debug)]
pub struct LyricsWord {
    pub start_ms: Option<i64>,
    pub end_ms: Option<i64>,
    pub text: String,
}

/// The view of a [`LyricsWord`].
pub struct WordView {
    pub start_ms: Option<i64>,
    pub end_ms: Option<i64>,
    pub text: Seq<char>,
}

impl View for LyricsWord {
    type V = WordView;

    open spec fn view(&self) -> WordView {
        WordView { start_ms: self.start_ms, end_ms: self.end_ms, text: self.text@ }
    }
}

/// The view of an optional text.
pub open spec fn opt_text(o: Option<String>) -> Option<Seq<char>> {
    match o {
        Some(s) => Some(s@),
        None => None,
    }
}

/// A line of lyrics.
#[derive(Debug)]
pub struct LyricsLine {
    pub start_ms: Option<i64>,
    pub end_ms: Option<i64>,
    pub text: String,
    pub words: Vec<LyricsWord>,
    pub link_key: Option<String>,
    pub agent_id: Option<String>,
}

/// The view of a [`LyricsLine`].
pub struct LineView {
    pub start_ms: Option<i64>,
    pub end_ms: Option<i64>,
    pub text: Seq<char>,
    pub words: Seq<WordView>,
    pub link_key: Option<Seq<char>>,
    pub agent_id: Option<Seq<char>>,
}

impl View for LyricsLine {
    type V = LineView;

    open spec fn view(&self) -> LineView {
        LineView {
            start_ms: self.start_ms,
            end_ms: self.end_ms,
            text: self.text@,
            words: self.words@.map_values(|w: LyricsWord| w@),
            link_key: opt_text(self.link_key),
            agent_id: opt_text(self.agent_id),
        }
    }
}

/// The text a line shows: its own text, or the concatenation of its words
/// when the line has no text of its own.
pub open spec fn visible_text(line: LineView) -> Seq<char> {
    if line.text.len() > 0 {
        line.text
    } else {
        words_text(line.words)
    }
}

/// The concatenation of the words' texts.
pub open spec fn words_text(words: Seq<WordView>) -> Seq<char>
    decreases words.len(),
{
    if words.len() == 0 {
        Seq::empty()
    } else {
        words_text(words.drop_last()) + words.last().text
    }
}

/// A track: lines of one role.
#[derive(Debug)]
pub struct LyricsTrack {
    pub kind: TrackType,
    pub lines: Vec<LyricsLine>,
}

/// The view of a [`LyricsTrack`].
pub struct TrackView {
    pub kind: TrackType,
    pub lines: Seq<LineView>,
}

impl View for LyricsTrack {
    type V = TrackView;

    open spec fn view(&self) -> TrackView {
        TrackView { kind: self.kind, lines: self.lines@.map_values(|l: LyricsLine| l@) }
    }
}

impl LyricsTrack {
    pub fn new(kind: TrackType, lines: Vec<LyricsLine>) -> (r: LyricsTrack)
        ensures
            r@.kind == kind,
            r@.lines == lines@.map_values(|l: LyricsLine| l@),
    {
        LyricsTrack { kind, lines }
    }
}

/// Document metadata: the `[key:value]` tags, in the order they were read.
#[derive(Debug)]
pub struct LyricsMetadata {
    pub tags: Vec<(String, String)>,
}

/// The view of a tag list.
pub open spec fn tags_view(tags: Seq<(String, String)>) -> Seq<(Seq<char>, Seq<char>)> {
    tags.map_values(|t: (String, String)| (t.0@, t.1@))
}

impl LyricsMetadata {
    /// Metadata holding the given tags.
    pub fn from_lrc_tags(tags: Vec<(String, String)>) -> (r: LyricsMetadata)
        ensures
            tags_view(r.tags@) == tags_view(tags@),
    {
        LyricsMetadata { tags }
    }

    /// The tags to write back as `[key:value]` lines, in order.
    pub fn lrc_tags(&self) -> (r: &Vec<(String, String)>)
        ensures
            tags_view(r@) == tags_view(self.tags@),
    {
        &self.tags
    }
}

/// A parsed lyrics document.
#[derive(Debug)]
pub struct LyricsDocument {
    pub metadata: LyricsMetadata,
    pub agents: Vec<String>,
    pub tracks: Vec<LyricsTrack>,
    pub source_format: Option<LyricFormat>,
}

/// The view of a [`LyricsDocument`].
pub struct DocumentView {
    pub tags: Seq<(Seq<char>, Seq<char>)>,
    pub agents: Seq<Seq<char>>,
    pub tracks: Seq<TrackView>,
    pub source_format: Option<LyricFormat>,
}

impl View for LyricsDocument {
    type V = DocumentView;

    open spec fn view(&self) -> DocumentView {
        DocumentView {
            tags: tags_view(self.metadata.tags@),
            agents: self.agents@.map_values(|a: String| a@),
            tracks: self.tracks@.map_values(|t: LyricsTrack| t@),
            source_format: self.source_format,
        }
    }
}

/// Options of lyric rendering: the order in which the kinds of line are
/// written after each original line, and which secondary lines are wanted.
#[derive(Debug)]
pub struct LyricsOptions {
    pub line_order: Vec<LineTrack>,
    pub show_translation: bool,
    pub show_romanization: bool,
    pub only_translation_if_available: bool,
}

/// The order of kinds actually used: the first occurrence of each kind in
/// `order`, followed by the kinds that `order` leaves out, in the order
/// original, translation, romanization.
pub open spec fn normalized_line_order(order: Seq<LineTrack>) -> Seq<LineTrack> {
    let given = first_occurrences(order);
    given + missing_kinds(given)
}

/// The kinds that `given` leaves out, in the order original, translation,
/// romanization.
pub open spec fn missing_kinds(given: Seq<LineTrack>) -> Seq<LineTrack> {
    (if given.contains(LineTrack::Original) {
        Seq::empty()
    } else {
        seq![LineTrack::Original]
    }) + (if given.contains(LineTrack::Translation) {
        Seq::empty()
    } else {
        seq![LineTrack::Translation]
    }) + (if given.contains(LineTrack::Romanization) {
        Seq::empty()
    } else {
        seq![LineTrack::Romanization]
    })
}

/// The elements of `s` without the repetitions, in order of first occurrence.
pub open spec fn first_occurrences<A>(s: Seq<A>) -> Seq<A>
    decreases s.len(),
{
    if s.len() == 0 {
        Seq::empty()
    } else {
        let p = first_occurrences(s.drop_last());
        if p.contains(s.last()) {
            p
        } else {
            p.push(s.last())
        }
    }
}

/// [`first_occurrences`] holds each element once.
pub proof fn lemma_first_occurrences_no_duplicates<A>(s: Seq<A>)
    ensures
        first_occurrences(s).no_duplicates(),
    decreases s.len(),
{
    if s.len() > 0 {
        lemma_first_occurrences_no_duplicates(s.drop_last());
        let p = first_occurrences(s.drop_last());
        if !p.contains(s.last()) {
            let q = p.push(s.last());
            assert forall|i: int, j: int| 0 <= i < q.len() && 0 <= j < q.len() && i != j implies q[i] != q[j] by {
                if i < p.len() && j < p.len() {
                    assert(q[i] == p[i] && q[j] == p[j]);
                } else if i < p.len() {
                    assert(q[i] == p[i]);
                } else {
                    assert(q[j] == p[j]);
                }
            }
        }
    }
}

impl LyricsOptions {
    /// The default options: the order original, translation,
    /// romanization, with translations and romanizations shown.
    pub fn new() -> (r: LyricsOptions)
        ensures
            r.line_order@ == seq![LineTrack::Original, LineTrack::Translation, LineTrack::Romanization],
            r.show_translation,
            r.show_romanization,
            !r.only_translation_if_available,
    {
        let mut line_order: Vec<LineTrack> = Vec::new();
        line_order.push(LineTrack::Original);
        line_order.push(LineTrack::Translation);
        line_order.push(LineTrack::Romanization);
        LyricsOptions {
            line_order,
            show_translation: true,
            show_romanization: true,
            only_translation_if_available: false,
        }
    }

    /// See [`normalized_line_order`].
    pub fn normalized_line_order(&self) -> (r: Vec<LineTrack>)
        ensures
            r@ == normalized_line_order(self.line_order@),
    {
        let mut given: Vec<LineTrack> = Vec::new();
        let mut i: usize = 0;
        while i < self.line_order.len()
            invariant
                0 <= i <= self.line_order@.len(),
                given@ == first_occurrences(self.line_order@.take(i as int)),
            decreases self.line_order.len() - i,
        {
            let k = self.line_order[i];
            assert(self.line_order@.take(i + 1).drop_last() == self.line_order@.take(i as int));
            if !contains_kind(&given, k) {
                given.push(k);
            }
            i = i + 1;
        }
        assert(self.line_order@.take(self.line_order@.len() as int) == self.line_order@);
        let has_original = contains_kind(&given, LineTrack::Original);
        let has_translation = contains_kind(&given, LineTrack::Translation);
        let has_romanization = contains_kind(&given, LineTrack::Romanization);
        let ghost g = given@;
        let mut out = given;
        if !has_original {
            out.push(LineTrack::Original);
        }
        if !has_translation {
            out.push(LineTrack::Translation);
        }
        if !has_romanization {
            out.push(LineTrack::Romanization);
        }
        assert(out@ =~= g + missing_kinds(g));
        out
    }
}

/// Whether `kinds` contains `k`.
pub fn contains_kind(kinds: &Vec<LineTrack>, k: LineTrack) -> (r: bool)
    ensures
        r == kinds@.contains(k),
{
    let mut i: usize = 0;
    while i < kinds.len()
        invariant
            0 <= i <= kinds@.len(),
            forall|j: int| 0 <= j < i ==> kinds@[j] != k,
        decreases kinds.len() - i,
    {
        if kinds[i] == k {
            return true;
        }
        i = i + 1;
    }
    false
}

/// Whether `formats` contains `f`.
pub fn contains_kind_format(formats: &Vec<LyricFormat>, f: LyricFormat) -> (r: bool)
    ensures
        r == formats@.contains(f),
{
    let mut i: usize = 0;
    while i < formats.len()
        invariant
            0 <= i <= formats@.len(),
            forall|j: int| 0 <= j < i ==> formats@[j] != f,
        decreases formats.len() - i,
    {
        if formats[i] == f {
            return true;
        }
        i = i + 1;
    }
    false
}

/// A copy of a word.
pub fn copy_word(w: &LyricsWord) -> (r: LyricsWord)
    ensures
        r@ == w@,
{
    LyricsWord { start_ms: w.start_ms, end_ms: w.end_ms, text: w.text.clone() }
}

/// A copy of an optional text.
pub fn copy_opt_text(o: &Option<String>) -> (r: Option<String>)
    ensures
        opt_text(r) == opt_text(*o),
{
    match o {
        Some(s) => Some(s.clone()),
        None => None,
    }
}

/// A copy of a list of words.
pub fn copy_words(words: &Vec<LyricsWord>) -> (r: Vec<LyricsWord>)
    ensures
        r@.map_values(|w: LyricsWord| w@) == words@.map_values(|w: LyricsWord| w@),
{
    let mut out: Vec<LyricsWord> = Vec::new();
    let mut i: usize = 0;
    while i < words.len()
        invariant
            0 <= i <= words@.len(),
            out@.len() == i,
            forall|j: int| 0 <= j < i ==> #[trigger] out@[j]@ == words@[j]@,
        decreases words.len() - i,
    {
        out.push(copy_word(&words[i]));
        i = i + 1;
    }
    assert(out@.map_values(|w: LyricsWord| w@) =~= words@.map_values(|w: LyricsWord| w@));
    out
}

/// A copy of a line.
pub fn copy_line(line: &LyricsLine) -> (r: LyricsLine)
    ensures
        r@ == line@,
{
    LyricsLine {
        start_ms: line.start_ms,
        end_ms: line.end_ms,
        text: line.text.clone(),
        words: copy_words(&line.words),
        link_key: copy_opt_text(&line.link_key),
        agent_id: copy_opt_text(&line.agent_id),
    }
}

/// The text a line shows (see [`visible_text`]).
pub fn line_visible_text(line: &LyricsLine) -> (r: String)
    ensures
        r@ == visible_text(line@),
{
    let text = crate::text::chars_of(line.text.as_str());
    if text.len() > 0 {
        return line.text.clone();
    }
    let mut out = String::new();
    let mut i: usize = 0;
    let ghost ws = line@.words;
    while i < line.words.len()
        invariant
            0 <= i <= line.words@.len(),
            ws == line.words@.map_values(|w: LyricsWord| w@),
            out@ == words_text(ws.take(i as int)),
        decreases line.words.len() - i,
    {
        assert(ws.take(i + 1).drop_last() == ws.take(i as int));
        out.append(line.words[i].text.as_str());
        i = i + 1;
    }
    assert(ws.take(ws.len() as int) == ws);
    out
}

proof fn lemma_first_occurrences_distinct(s: Seq<LineTrack>)
    ensures
        first_occurrences(s).no_duplicates(),
        forall|k: LineTrack| first_occurrences(s).contains(k) <==> s.contains(k),
    decreases s.len(),
{
    if s.len() > 0 {
        lemma_first_occurrences_distinct(s.drop_last());
        let p = first_occurrences(s.drop_last());
        let last = s.last();
        assert forall|k: LineTrack| first_occurrences(s).contains(k) <==> s.contains(k) by {
            if s.contains(k) {
                let i = choose|i: int| 0 <= i < s.len() && s[i] == k;
                if i < s.len() - 1 {
                    assert(s.drop_last()[i] == k);
                    assert(s.drop_last().contains(k));
                    assert(p.contains(k));
                    let j = choose|j: int| 0 <= j < p.len() && p[j] == k;
                    if !p.contains(last) {
                        assert(p.push(last)[j] == k);
                    }
                } else if !p.contains(last) {
                    assert(p.push(last)[p.len() as int] == k);
                }
            }
            if first_occurrences(s).contains(k) {
                let i = choose|i: int| 0 <= i < first_occurrences(s).len() && first_occurrences(s)[i] == k;
                if i < p.len() {
                    assert(p[i] == k);
                    assert(p.contains(k));
                    assert(s.drop_last().contains(k));
                    let j = choose|j: int| 0 <= j < s.drop_last().len() && s.drop_last()[j] == k;
                    assert(s[j] == k);
                } else {
                    assert(s[s.len() - 1] == k);
                }
            }
        }
        if !p.contains(last) {
            assert forall|i: int, j: int| 0 <= i < j < p.push(last).len() implies p.push(last)[i]
                != p.push(last)[j] by {
                if j == p.len() {
                    assert(p.push(last)[i] == p[i]);
                    assert(p[i] != last);
                }
            }
        }
    }
}

proof fn lemma_three_kinds(g: Seq<LineTrack>)
    requires
        g.no_duplicates(),
    ensures
        g.len() <= 3,
{
    if g.len() > 3 {
        let a = g[0];
        let b = g[1];
        let c = g[2];
        let d = g[3];
        assert(a != b && a != c && a != d && b != c && b != d && c != d);
        assert(a is Original || a is Translation || a is Romanization);
        assert(b is Original || b is Translation || b is Romanization);
        assert(c is Original || c is Translation || c is Romanization);
        assert(d is Original || d is Translation || d is Romanization);
    }
}

/// The normalized order writes each kind of line exactly once: it holds
/// original, translation and romanization lines, each once.
#[verifier::rlimit(40)]
pub proof fn normalized_order_is_a_permutation(order: Seq<LineTrack>)
    ensures
        normalized_line_order(order).len() == 3,
        normalized_line_order(order).no_duplicates(),
        normalized_line_order(order).contains(LineTrack::Original),
        normalized_line_order(order).contains(LineTrack::Translation),
        normalized_line_order(order).contains(LineTrack::Romanization),
{
    let given = first_occurrences(order);
    lemma_first_occurrences_distinct(order);
    let missing = missing_kinds(given);
    let all = given + missing;
    assert(all.contains(LineTrack::Original)) by {
        if given.contains(LineTrack::Original) {
            let i = choose|i: int| 0 <= i < given.len() && given[i] == LineTrack::Original;
            assert(all[i] == LineTrack::Original);
        } else {
            assert(missing[0] == LineTrack::Original);
            assert(all[given.len() as int] == LineTrack::Original);
        }
    }
    assert(all.contains(LineTrack::Translation)) by {
        if given.contains(LineTrack::Translation) {
            let i = choose|i: int| 0 <= i < given.len() && given[i] == LineTrack::Translation;
            assert(all[i] == LineTrack::Translation);
        } else {
            let off = if given.contains(LineTrack::Original) {
                0int
            } else {
                1int
            };
            assert(missing[off] == LineTrack::Translation);
            assert(all[given.len() + off] == LineTrack::Translation);
        }
    }
    assert(all.contains(LineTrack::Romanization)) by {
        if given.contains(LineTrack::Romanization) {
            let i = choose|i: int| 0 <= i < given.len() && given[i] == LineTrack::Romanization;
            assert(all[i] == LineTrack::Romanization);
        } else {
            let off = missing.len() - 1;
            assert(missing[off] == LineTrack::Romanization);
            assert(all[given.len() + off] == LineTrack::Romanization);
        }
    }
    assert(missing.no_duplicates());
    assert forall|k: LineTrack| missing.contains(k) implies !given.contains(k) by {
        let j = choose|j: int| 0 <= j < missing.len() && missing[j] == k;
    }
    assert(all.no_duplicates()) by {
        assert forall|i: int, j: int| 0 <= i < j < all.len() implies all[i] != all[j] by {
            if j < given.len() {
                assert(all[i] == given[i] && all[j] == given[j]);
            } else if i < given.len() {
                assert(all[j] == missing[j - given.len()]);
                assert(missing.contains(all[j]));
                assert(all[i] == given[i]);
                assert(given.contains(all[i]));
            } else {
                assert(all[i] == missing[i - given.len()]);
                assert(all[j] == missing[j - given.len()]);
            }
        }
    }
    lemma_three_kinds(all);
    assert(all.len() >= 3) by {
        let io = choose|i: int| 0 <= i < all.len() && all[i] == LineTrack::Original;
        let it = choose|i: int| 0 <= i < all.len() && all[i] == LineTrack::Translation;
        let ir = choose|i: int| 0 <= i < all.len() && all[i] == LineTrack::Romanization;
        assert(io != it && io != ir && it != ir);
    }
}

} // verus!

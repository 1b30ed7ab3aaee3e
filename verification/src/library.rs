//! The music library: the key under which a folder scan runs, when a
//! stored track summary can be reused, and the order of scanned tracks.
use vstd::prelude::*;
use crate::models::AudioTrack;
use crate::text::{chars_of, replace_char, replace_char_exec, spec_to_lowercase, to_lowercase, string_of, strings_view};

verus! {

broadcast use {vstd::string::group_string_axioms, vstd::seq_lib::group_to_multiset_ensures};

/// The key of a folder scan: the path with `\` turned into `/`,
/// lower-cased.
pub open spec fn normalize_path_spec(path: Seq<char>) -> Seq<char> {
    spec_to_lowercase(replace_char(path, '\\', '/'))
}

/// The key of a folder scan (see [`normalize_path_spec`]).
pub fn normalize_path(path: &str) -> (r: String)
    ensures
        r@ == normalize_path_spec(path@),
{
    let chars = chars_of(path);
    let replaced = replace_char_exec(chars.as_slice(), '\\', '/');
    let text = string_of(replaced.as_slice());
    to_lowercase(text.as_str())
}

/// The signature stored with a folder's summaries: the summary version and
/// the artist separator they were read with.
pub fn scan_signature(artist_separator: &str) -> (r: String)
    ensures
        r@ == "audio-summary-v1|artist-separator="@ + artist_separator@,
{
    let mut s = "audio-summary-v1|artist-separator=".to_string();
    s.append(artist_separator);
    s
}

/// A track summary stored by an earlier scan, with the size and time of
/// change of its file then.
#[derive(Debug)]
pub struct IndexedTrack {
    pub track: AudioTrack,
    pub file_size: u64,
    pub modified_at: u64,
}

/// Whether a stored summary is still that of the file: same size and same
/// time of change.
pub fn reusable(indexed: &IndexedTrack, file_size: u64, modified_at: u64) -> (r: bool)
    ensures
        r == (indexed.file_size == file_size && indexed.modified_at == modified_at),
{
    indexed.file_size == file_size && indexed.modified_at == modified_at
}

/// Text order: by character code, a prefix first (which is also the byte
/// order of the UTF-8 encodings that `String` compares).
pub open spec fn text_lt(a: Seq<char>, b: Seq<char>) -> bool
    decreases a.len(),
{
    if a.len() == 0 {
        b.len() > 0
    } else if b.len() == 0 {
        false
    } else if a[0] != b[0] {
        (a[0] as u32) < (b[0] as u32)
    } else {
        text_lt(a.drop_first(), b.drop_first())
    }
}

/// The order of optional numbers: none first.
pub open spec fn opt_lt(a: Option<u32>, b: Option<u32>) -> bool {
    match (a, b) {
        (None, Some(_)) => true,
        (Some(x), Some(y)) => x < y,
        _ => false,
    }
}

/// The order of scanned tracks: by album, then disc number, then track
/// number, then title.
pub open spec fn track_lt(a: AudioTrack, b: AudioTrack) -> bool {
    ||| text_lt(a.album@, b.album@)
    ||| (a.album@ == b.album@ && opt_lt(a.disc_number, b.disc_number))
    ||| (a.album@ == b.album@ && a.disc_number == b.disc_number && opt_lt(a.track_number, b.track_number))
    ||| (a.album@ == b.album@ && a.disc_number == b.disc_number && a.track_number == b.track_number
        && text_lt(a.title@, b.title@))
}

/// The library order compares albums first, then disc numbers, then track
/// numbers (a missing number before any number), and titles only last:
/// within one album and disc, the smaller track number comes first whatever
/// the titles, and within one album the smaller disc number comes first.
pub proof fn track_order_law(a: AudioTrack, b: AudioTrack)
    ensures
        text_lt(a.album@, b.album@) ==> track_lt(a, b),
        a.album@ == b.album@ && opt_lt(a.disc_number, b.disc_number) ==> track_lt(a, b),
        a.album@ == b.album@ && a.disc_number == b.disc_number && opt_lt(a.track_number, b.track_number)
            ==> track_lt(a, b),
        a.album@ == b.album@ && a.disc_number == b.disc_number && a.track_number == b.track_number
            && a.title@ == b.title@ ==> !track_lt(a, b),
{
    if a.album@ == b.album@ && a.disc_number == b.disc_number && a.track_number == b.track_number
        && a.title@ == b.title@ {
        lemma_text_lt_irrefl(a.album@);
        lemma_text_lt_irrefl(a.title@);
    }
}

/// In tracks in library order, albums come in text order; within an album
/// disc numbers never go down; and within an album and disc track numbers
/// never go down, whatever the titles.
pub proof fn sorted_tracks_law(s: Seq<AudioTrack>)
    requires
        tracks_sorted(s),
    ensures
        forall|i: int, j: int| 0 <= i < j < s.len() ==> !text_lt(#[trigger] s[j].album@, #[trigger] s[i].album@),
        forall|i: int, j: int|
            0 <= i < j < s.len() && s[i].album@ == s[j].album@ ==> !opt_lt(
                #[trigger] s[j].disc_number,
                #[trigger] s[i].disc_number,
            ),
        forall|i: int, j: int|
            0 <= i < j < s.len() && s[i].album@ == s[j].album@ && s[i].disc_number == s[j].disc_number
                ==> !opt_lt(#[trigger] s[j].track_number, #[trigger] s[i].track_number),
{
    assert forall|i: int, j: int| 0 <= i < j < s.len() implies !text_lt(#[trigger] s[j].album@, #[trigger] s[i].album@) by {
        track_order_law(s[j], s[i]);
    }
    assert forall|i: int, j: int|
        0 <= i < j < s.len() && s[i].album@ == s[j].album@ implies !opt_lt(
            #[trigger] s[j].disc_number,
            #[trigger] s[i].disc_number,
        ) by {
        track_order_law(s[j], s[i]);
    }
    assert forall|i: int, j: int|
        0 <= i < j < s.len() && s[i].album@ == s[j].album@ && s[i].disc_number == s[j].disc_number
            implies !opt_lt(#[trigger] s[j].track_number, #[trigger] s[i].track_number) by {
        track_order_law(s[j], s[i]);
    }
}

/// No track comes after one that it should precede.
pub open spec fn tracks_sorted(s: Seq<AudioTrack>) -> bool {
    forall|i: int, j: int| 0 <= i < j < s.len() ==> !track_lt(#[trigger] s[j], #[trigger] s[i])
}

proof fn lemma_text_lt_trans(a: Seq<char>, b: Seq<char>, c: Seq<char>)
    requires
        text_lt(a, b),
        text_lt(b, c),
    ensures
        text_lt(a, c),
    decreases a.len(),
{
    if a.len() > 0 && b.len() > 0 && c.len() > 0 && a[0] == b[0] && b[0] == c[0] {
        lemma_text_lt_trans(a.drop_first(), b.drop_first(), c.drop_first());
    }
}

proof fn lemma_text_lt_irrefl(a: Seq<char>)
    ensures
        !text_lt(a, a),
    decreases a.len(),
{
    if a.len() > 0 {
        lemma_text_lt_irrefl(a.drop_first());
    }
}

proof fn lemma_text_lt_total(a: Seq<char>, b: Seq<char>)
    ensures
        text_lt(a, b) || text_lt(b, a) || a == b,
    decreases a.len(),
{
    if a.len() > 0 && b.len() > 0 && a[0] == b[0] {
        lemma_text_lt_total(a.drop_first(), b.drop_first());
        if a.drop_first() == b.drop_first() {
            assert(a =~= seq![a[0]] + a.drop_first());
            assert(b =~= seq![b[0]] + b.drop_first());
        }
    } else if a.len() == 0 && b.len() == 0 {
        assert(a =~= b);
    } else if a.len() > 0 && b.len() > 0 {
        vstd::utf8::char_u32_cast(a[0], a[0] as u32);
        vstd::utf8::char_u32_cast(b[0], b[0] as u32);
    }
}

proof fn lemma_track_lt_trans(a: AudioTrack, b: AudioTrack, c: AudioTrack)
    requires
        track_lt(a, b),
        track_lt(b, c),
    ensures
        track_lt(a, c),
{
    if text_lt(a.album@, b.album@) && text_lt(b.album@, c.album@) {
        lemma_text_lt_trans(a.album@, b.album@, c.album@);
    }
    if a.album@ == b.album@ && b.album@ == c.album@ && a.disc_number == b.disc_number && b.disc_number
        == c.disc_number && a.track_number == b.track_number && b.track_number == c.track_number
        && text_lt(a.title@, b.title@) && text_lt(b.title@, c.title@) {
        lemma_text_lt_trans(a.title@, b.title@, c.title@);
    }
}

fn text_lt_exec(a: &str, b: &str) -> (r: bool)
    ensures
        r == text_lt(a@, b@),
{
    let x = chars_of(a);
    let y = chars_of(b);
    let mut i: usize = 0;
    assert(x@.skip(0) =~= x@ && y@.skip(0) =~= y@);
    while i < x.len() && i < y.len() && x[i] == y[i]
        invariant
            0 <= i <= x@.len(),
            i <= y@.len(),
            x@ == a@,
            y@ == b@,
            text_lt(a@, b@) == text_lt(x@.skip(i as int), y@.skip(i as int)),
        decreases x.len() - i,
    {
        assert(x@.skip(i as int).drop_first() =~= x@.skip(i + 1));
        assert(y@.skip(i as int).drop_first() =~= y@.skip(i + 1));
        i = i + 1;
    }
    if i == x.len() {
        i < y.len()
    } else if i == y.len() {
        false
    } else {
        (x[i] as u32) < (y[i] as u32)
    }
}

fn opt_lt_exec(a: Option<u32>, b: Option<u32>) -> (r: bool)
    ensures
        r == opt_lt(a, b),
{
    match (a, b) {
        (None, Some(_)) => true,
        (Some(x), Some(y)) => x < y,
        _ => false,
    }
}

fn track_lt_exec(a: &AudioTrack, b: &AudioTrack) -> (r: bool)
    ensures
        r == track_lt(*a, *b),
{
    if text_lt_exec(a.album.as_str(), b.album.as_str()) {
        return true;
    }
    if !crate::text::str_eq(a.album.as_str(), b.album.as_str()) {
        return false;
    }
    if opt_lt_exec(a.disc_number, b.disc_number) {
        return true;
    }
    if a.disc_number != b.disc_number {
        return false;
    }
    if opt_lt_exec(a.track_number, b.track_number) {
        return true;
    }
    if a.track_number != b.track_number {
        return false;
    }
    text_lt_exec(a.title.as_str(), b.title.as_str())
}

/// Tracks with the same place in the library order.
pub open spec fn same_place(a: AudioTrack, b: AudioTrack) -> bool {
    a.album@ == b.album@ && a.disc_number == b.disc_number && a.track_number == b.track_number
        && a.title@ == b.title@
}

proof fn lemma_track_lt_total(a: AudioTrack, b: AudioTrack)
    ensures
        track_lt(a, b) || track_lt(b, a) || same_place(a, b),
{
    lemma_text_lt_total(a.album@, b.album@);
    lemma_text_lt_total(a.title@, b.title@);
}

proof fn lemma_track_lt_irrefl(a: AudioTrack)
    ensures
        !track_lt(a, a),
{
    lemma_text_lt_irrefl(a.album@);
    lemma_text_lt_irrefl(a.title@);
}

proof fn lemma_track_lt_asym(a: AudioTrack, b: AudioTrack)
    requires
        track_lt(a, b),
    ensures
        !track_lt(b, a),
{
    if track_lt(b, a) {
        lemma_track_lt_trans(a, b, a);
        lemma_track_lt_irrefl(a);
    }
}

/// `order` says where each track of `sorted` was in `given`: every position
/// once, and tracks with the same place keep the order they had.
pub open spec fn stable_order(sorted: Seq<AudioTrack>, given: Seq<AudioTrack>, order: Seq<int>) -> bool {
    &&& order.len() == sorted.len()
    &&& forall|i: int| 0 <= i < sorted.len() ==> 0 <= #[trigger] order[i] < given.len() && sorted[i] == given[order[i]]
    &&& forall|i: int, j: int| 0 <= i < j < sorted.len() ==> #[trigger] order[i] != #[trigger] order[j]
    &&& forall|i: int, j: int|
        0 <= i < j < sorted.len() && same_place(#[trigger] sorted[i], #[trigger] sorted[j]) ==> order[i] < order[j]
}

/// The scanned tracks in library order: the same tracks, sorted by
/// [`track_lt`]; tracks with the same place keep their order.
pub fn sort_tracks(tracks: Vec<AudioTrack>) -> (r: Vec<AudioTrack>)
    ensures
        r@.to_multiset() == tracks@.to_multiset(),
        tracks_sorted(r@),
        exists|order: Seq<int>| stable_order(r@, tracks@, order),
{
    let ghost given = tracks@;
    let mut rest = tracks;
    let ghost all = rest@.to_multiset();
    let mut out: Vec<AudioTrack> = Vec::new();
    let ghost mut order: Seq<int> = Seq::empty();
    assert(out@.to_multiset().add(rest@.to_multiset()) =~= all);
    assert(given.take(given.len() as int) =~= given);
    while rest.len() > 0
        invariant
            out@.to_multiset().add(rest@.to_multiset()) == all,
            tracks_sorted(out@),
            rest@.len() <= given.len(),
            rest@ == given.take(rest@.len() as int),
            order.len() == out@.len(),
            forall|i: int| 0 <= i < out@.len() ==> rest@.len() <= #[trigger] order[i] < given.len()
                && out@[i] == given[order[i]],
            forall|i: int, j: int| 0 <= i < j < out@.len() ==> #[trigger] order[i] != #[trigger] order[j],
            forall|i: int, j: int|
                0 <= i < j < out@.len() && same_place(#[trigger] out@[i], #[trigger] out@[j]) ==> order[i] < order[j],
        decreases rest.len(),
    {
        let ghost before_rest = rest@;
        let x = rest.pop().unwrap();
        assert(before_rest == rest@.push(x));
        let ghost k = rest@.len() as int;
        assert(x == given[k]) by {
            assert(before_rest[k] == given.take(k + 1)[k]);
        }
        assert(rest@ =~= given.take(k));
        assert(before_rest.to_multiset() == rest@.to_multiset().insert(x));
        let mut p: usize = 0;
        while p < out.len() && track_lt_exec(&out[p], &x)
            invariant
                0 <= p <= out@.len(),
                forall|k: int| 0 <= k < p ==> track_lt(#[trigger] out@[k], x),
            decreases out.len() - p,
        {
            p = p + 1;
        }
        let ghost old_out = out@;
        let ghost old_order = order;
        out.insert(p, x);
        assert(out@ == old_out.insert(p as int, x));
        proof {
            order = old_order.insert(p as int, k);
            assert forall|i: int| 0 <= i < out@.len() implies rest@.len() <= #[trigger] order[i] < given.len()
                && out@[i] == given[order[i]] by {
                if i < p {
                    assert(order[i] == old_order[i] && out@[i] == old_out[i]);
                } else if i > p {
                    assert(order[i] == old_order[i - 1] && out@[i] == old_out[i - 1]);
                }
            }
            assert forall|i: int, j: int| 0 <= i < j < out@.len() implies #[trigger] order[i] != #[trigger] order[j] by {
                if j < p {
                    assert(order[i] == old_order[i] && order[j] == old_order[j]);
                } else if j == p {
                    assert(order[i] == old_order[i]);
                } else if i == p {
                    assert(order[j] == old_order[j - 1]);
                } else if i < p {
                    assert(order[i] == old_order[i] && order[j] == old_order[j - 1]);
                } else {
                    assert(order[i] == old_order[i - 1] && order[j] == old_order[j - 1]);
                }
            }
            assert forall|i: int, j: int|
                0 <= i < j < out@.len() && same_place(#[trigger] out@[i], #[trigger] out@[j]) implies order[i] < order[j] by {
                if j < p {
                    assert(order[i] == old_order[i] && order[j] == old_order[j]);
                    assert(out@[i] == old_out[i] && out@[j] == old_out[j]);
                } else if j == p {
                    assert(out@[i] == old_out[i]);
                    assert(track_lt(old_out[i], x));
                    lemma_track_lt_irrefl(x);
                } else if i == p {
                    assert(order[j] == old_order[j - 1]);
                } else if i < p {
                    assert(order[i] == old_order[i] && order[j] == old_order[j - 1]);
                    assert(out@[i] == old_out[i] && out@[j] == old_out[j - 1]);
                } else {
                    assert(order[i] == old_order[i - 1] && order[j] == old_order[j - 1]);
                    assert(out@[i] == old_out[i - 1] && out@[j] == old_out[j - 1]);
                }
            }
        }
        assert(out@.to_multiset() == old_out.to_multiset().insert(x));
        assert forall|i: int, j: int| 0 <= i < j < out@.len() implies !track_lt(#[trigger] out@[j], #[trigger] out@[i]) by {
            if j < p {
                assert(out@[i] == old_out[i] && out@[j] == old_out[j]);
            } else if j == p {
                assert(out@[i] == old_out[i]);
                lemma_track_lt_asym(old_out[i], x);
            } else if i == p {
                assert(out@[j] == old_out[j - 1]);
                if track_lt(old_out[j - 1], x) {
                    if j - 1 > p {
                        assert(!track_lt(old_out[j - 1], old_out[p as int]));
                    }
                    lemma_track_lt_total(x, old_out[p as int]);
                    if track_lt(x, old_out[p as int]) {
                        lemma_track_lt_trans(old_out[j - 1], x, old_out[p as int]);
                        if j - 1 == p {
                            lemma_track_lt_irrefl(old_out[p as int]);
                        }
                    } else {
                        assert(same_place(x, old_out[p as int]));
                        if j - 1 == p {
                            lemma_track_lt_asym(old_out[p as int], x);
                        }
                    }
                }
            } else if i < p {
                assert(out@[i] == old_out[i] && out@[j] == old_out[j - 1]);
            } else {
                assert(out@[i] == old_out[i - 1] && out@[j] == old_out[j - 1]);
            }
        }
        assert(out@.to_multiset().add(rest@.to_multiset()) =~= all);
    }
    assert(rest@.to_multiset() =~= vstd::multiset::Multiset::empty());
    assert(out@.to_multiset() =~= out@.to_multiset().add(rest@.to_multiset()));
    assert(stable_order(out@, given, order));
    out
}

/// No text comes after one that it should precede.
pub open spec fn texts_sorted(s: Seq<Seq<char>>) -> bool {
    forall|i: int, j: int| 0 <= i < j < s.len() ==> !text_lt(#[trigger] s[j], #[trigger] s[i])
}

proof fn lemma_text_lt_asym(a: Seq<char>, b: Seq<char>)
    requires
        text_lt(a, b),
    ensures
        !text_lt(b, a),
{
    if text_lt(b, a) {
        lemma_text_lt_trans(a, b, a);
        lemma_text_lt_irrefl(a);
    }
}

/// Texts in text order: the same texts, sorted by [`text_lt`].
pub fn sort_texts(texts: Vec<String>) -> (r: Vec<String>)
    ensures
        strings_view(r@).to_multiset() == strings_view(texts@).to_multiset(),
        texts_sorted(strings_view(r@)),
{
    let mut rest = texts;
    let ghost all = strings_view(rest@).to_multiset();
    let mut out: Vec<String> = Vec::new();
    assert(strings_view(out@).to_multiset().add(strings_view(rest@).to_multiset()) =~= all);
    while rest.len() > 0
        invariant
            strings_view(out@).to_multiset().add(strings_view(rest@).to_multiset()) == all,
            texts_sorted(strings_view(out@)),
        decreases rest.len(),
    {
        let ghost before_rest = rest@;
        let x = rest.pop().unwrap();
        assert(before_rest == rest@.push(x));
        assert(strings_view(before_rest) =~= strings_view(rest@).push(x@));
        assert(strings_view(before_rest).to_multiset() == strings_view(rest@).to_multiset().insert(x@));
        let ghost ov = strings_view(out@);
        let mut p: usize = 0;
        while p < out.len() && text_lt_exec(out[p].as_str(), x.as_str())
            invariant
                0 <= p <= out@.len(),
                ov == strings_view(out@),
                forall|k: int| 0 <= k < p ==> text_lt(#[trigger] ov[k], x@),
            decreases out.len() - p,
        {
            p = p + 1;
        }
        out.insert(p, x);
        let ghost nv = strings_view(out@);
        assert(nv =~= ov.insert(p as int, x@));
        assert(nv.to_multiset() == ov.to_multiset().insert(x@));
        assert forall|i: int, j: int| 0 <= i < j < nv.len() implies !text_lt(#[trigger] nv[j], #[trigger] nv[i]) by {
            if j < p {
                assert(nv[i] == ov[i] && nv[j] == ov[j]);
            } else if j == p {
                assert(nv[i] == ov[i]);
                lemma_text_lt_asym(ov[i], x@);
            } else if i == p {
                assert(nv[j] == ov[j - 1]);
                if text_lt(ov[j - 1], x@) {
                    if j - 1 > p {
                        assert(!text_lt(ov[j - 1], ov[p as int]));
                    }
                    lemma_text_lt_total(x@, ov[p as int]);
                    if text_lt(x@, ov[p as int]) {
                        lemma_text_lt_trans(ov[j - 1], x@, ov[p as int]);
                        if j - 1 == p {
                            lemma_text_lt_irrefl(ov[p as int]);
                        }
                    } else if x@ == ov[p as int] {
                        if j - 1 == p {
                            lemma_text_lt_irrefl(x@);
                        }
                    } else {
                        assert(!text_lt(ov[p as int], x@));
                    }
                }
            } else if i < p {
                assert(nv[i] == ov[i] && nv[j] == ov[j - 1]);
            } else {
                assert(nv[i] == ov[i - 1] && nv[j] == ov[j - 1]);
            }
        }
        assert(strings_view(out@).to_multiset().add(strings_view(rest@).to_multiset()) =~= all);
    }
    assert(strings_view(rest@).to_multiset() =~= vstd::multiset::Multiset::empty());
    assert(strings_view(out@).to_multiset() =~= strings_view(out@).to_multiset().add(
        strings_view(rest@).to_multiset(),
    ));
    out
}

} // verus!

//! Audio files: which files are audio, how the tags read from a file make up
//! a track, what writing a tag update does to the tags, and cover images as
//! data URLs. Reading and writing the files (with `lofty`) is done by the
//! caller, which hands over the tag values read and applies the tag plan.
use vstd::prelude::*;
use crate::models::{AudioTrack, TagUpdate};
use crate::paths::{extension, extension_exec, file_name, file_name_exec, file_stem, file_stem_exec};
use crate::text::{
    eq_ignore_ascii_case, eq_ignore_ascii_case_exec, is_blank, str_blank, trim, str_trimmed,
    strings_view, chars_of, spec_to_lowercase, to_lowercase, spec_to_uppercase, to_uppercase,
    contains_text, first_index_of, find_char_from, starts_with, ends_with, string_of_range, push_char,
};
use crate::codec::{base64_encode, base64_decode, spec_base64_encode, spec_base64_decode};
use crate::batch::metadata::{join_with, join_texts, edge_for, thumbnail_edge};
use lofty::tag::items::popularimeter::{Popularimeter, StarRating};

verus! {

broadcast use vstd::string::group_string_axioms;

// ---------------------------------------------------------------------------
// audio files
// ---------------------------------------------------------------------------

/// The file extensions of the audio formats the library reads.
pub open spec fn audio_extensions() -> Seq<Seq<char>> {
    seq!["mp3"@, "flac"@, "m4a"@, "aac"@, "ogg"@, "opus"@, "wav"@, "aiff"@, "aif"@]
}

/// A path of an audio file: its extension is one of [`audio_extensions`],
/// in any ASCII case.
pub open spec fn is_audio_path_spec(path: Seq<char>) -> bool {
    match extension(path) {
        Some(e) => exists|i: int| 0 <= i < 9 && eq_ignore_ascii_case(#[trigger] audio_extensions()[i], e),
        None => false,
    }
}

/// Whether a path names an audio file (see [`is_audio_path_spec`]).
pub fn is_audio_path(path: &str) -> (r: bool)
    ensures
        r == is_audio_path_spec(path@),
{
    match extension_exec(path) {
        Some(e) => {
            let candidates = vec!["mp3", "flac", "m4a", "aac", "ogg", "opus", "wav", "aiff", "aif"];
            assert(candidates@.map_values(|c: &str| c@) =~= audio_extensions());
            let mut i: usize = 0;
            while i < candidates.len()
                invariant
                    0 <= i <= 9,
                    candidates@.len() == 9,
                    extension(path@) == Some(e@),
                    forall|k: int| 0 <= k < 9 ==> #[trigger] candidates@[k]@ == audio_extensions()[k],
                    forall|k: int| 0 <= k < i ==> !eq_ignore_ascii_case(#[trigger] audio_extensions()[k], e@),
                decreases candidates.len() - i,
            {
                if eq_ignore_ascii_case_exec(candidates[i], e.as_str()) {
                    assert(eq_ignore_ascii_case(audio_extensions()[i as int], e@));
                    return true;
                }
                i = i + 1;
            }
            false
        },
        None => false,
    }
}

// ---------------------------------------------------------------------------
// cover images
// ---------------------------------------------------------------------------

/// Whether the bytes start with the given ones.
pub open spec fn has_prefix(data: Seq<u8>, prefix: Seq<u8>) -> bool {
    prefix.len() <= data.len() && data.take(prefix.len() as int) == prefix
}

/// The media type of an image by its signature bytes: JPEG, PNG, GIF or
/// WebP, else `application/octet-stream`.
pub open spec fn picture_mime_spec(data: Seq<u8>) -> Seq<char> {
    if has_prefix(data, seq![0xFFu8, 0xD8u8, 0xFFu8]) {
        "image/jpeg"@
    } else if has_prefix(data, seq![0x89u8, 0x50u8, 0x4Eu8, 0x47u8, 0x0Du8, 0x0Au8, 0x1Au8, 0x0Au8]) {
        "image/png"@
    } else if has_prefix(data, seq![0x47u8, 0x49u8, 0x46u8, 0x38u8, 0x37u8, 0x61u8]) || has_prefix(
        data,
        seq![0x47u8, 0x49u8, 0x46u8, 0x38u8, 0x39u8, 0x61u8],
    ) {
        "image/gif"@
    } else if data.len() > 12 && data.subrange(0, 4) == seq![0x52u8, 0x49u8, 0x46u8, 0x46u8]
        && data.subrange(8, 12) == seq![0x57u8, 0x45u8, 0x42u8, 0x50u8] {
        "image/webp"@
    } else {
        "application/octet-stream"@
    }
}

fn bytes_have_prefix(data: &[u8], prefix: &[u8]) -> (r: bool)
    ensures
        r == has_prefix(data@, prefix@),
{
    if prefix.len() > data.len() {
        return false;
    }
    let mut i: usize = 0;
    while i < prefix.len()
        invariant
            prefix@.len() <= data@.len(),
            0 <= i <= prefix@.len(),
            forall|k: int| 0 <= k < i ==> data@[k] == prefix@[k],
        decreases prefix.len() - i,
    {
        if data[i] != prefix[i] {
            assert(data@.take(prefix@.len() as int)[i as int] != prefix@[i as int]);
            return false;
        }
        i = i + 1;
    }
    assert(data@.take(prefix@.len() as int) =~= prefix@);
    true
}

/// The media type of an image by its signature bytes (see
/// [`picture_mime_spec`]).
pub fn picture_mime(data: &[u8]) -> (r: &'static str)
    ensures
        r@ == picture_mime_spec(data@),
{
    let jpeg: [u8; 3] = [0xFF, 0xD8, 0xFF];
    let png: [u8; 8] = [0x89, 0x50, 0x4E, 0x47, 0x0D, 0x0A, 0x1A, 0x0A];
    let gif7: [u8; 6] = [0x47, 0x49, 0x46, 0x38, 0x37, 0x61];
    let gif9: [u8; 6] = [0x47, 0x49, 0x46, 0x38, 0x39, 0x61];
    assert(jpeg@ =~= seq![0xFFu8, 0xD8u8, 0xFFu8]);
    assert(png@ =~= seq![0x89u8, 0x50u8, 0x4Eu8, 0x47u8, 0x0Du8, 0x0Au8, 0x1Au8, 0x0Au8]);
    assert(gif7@ =~= seq![0x47u8, 0x49u8, 0x46u8, 0x38u8, 0x37u8, 0x61u8]);
    assert(gif9@ =~= seq![0x47u8, 0x49u8, 0x46u8, 0x38u8, 0x39u8, 0x61u8]);
    if bytes_have_prefix(data, jpeg.as_slice()) {
        "image/jpeg"
    } else if bytes_have_prefix(data, png.as_slice()) {
        "image/png"
    } else if bytes_have_prefix(data, gif7.as_slice()) || bytes_have_prefix(data, gif9.as_slice()) {
        "image/gif"
    } else if data.len() > 12 && data[0] == 0x52 && data[1] == 0x49 && data[2] == 0x46 && data[3] == 0x46
        && data[8] == 0x57 && data[9] == 0x45 && data[10] == 0x42 && data[11] == 0x50 {
        assert(data@.subrange(0, 4) =~= seq![0x52u8, 0x49u8, 0x46u8, 0x46u8]);
        assert(data@.subrange(8, 12) =~= seq![0x57u8, 0x45u8, 0x42u8, 0x50u8]);
        "image/webp"
    } else {
        assert(!(data@.len() > 12 && data@.subrange(0, 4) == seq![0x52u8, 0x49u8, 0x46u8, 0x46u8]
            && data@.subrange(8, 12) == seq![0x57u8, 0x45u8, 0x42u8, 0x50u8])) by {
            if data@.len() > 12 && data@.subrange(0, 4) == seq![0x52u8, 0x49u8, 0x46u8, 0x46u8]
                && data@.subrange(8, 12) == seq![0x57u8, 0x45u8, 0x42u8, 0x50u8] {
                assert(data@.subrange(0, 4)[0] == data@[0]);
                assert(data@.subrange(0, 4)[1] == data@[1]);
                assert(data@.subrange(0, 4)[2] == data@[2]);
                assert(data@.subrange(0, 4)[3] == data@[3]);
                assert(data@.subrange(8, 12)[0] == data@[8]);
                assert(data@.subrange(8, 12)[1] == data@[9]);
                assert(data@.subrange(8, 12)[2] == data@[10]);
                assert(data@.subrange(8, 12)[3] == data@[11]);
            }
        }
        "application/octet-stream"
    }
}

/// What `image::load_from_memory` says of the bytes: `None` when it decodes
/// them as an image, else the text of its error.
pub uninterp spec fn spec_image_error(bytes: Seq<u8>) -> Option<Seq<char>>;

/// Whether `image::load_from_memory` decodes the bytes as an image.
pub open spec fn spec_image_decodes(bytes: Seq<u8>) -> bool {
    spec_image_error(bytes) is None
}

/// Calls `image::load_from_memory` and gives back `None` when it decoded the
/// bytes, else its error as text; the answer is named by
/// [`spec_image_error`].
#[verifier::external_body]
fn image_error(bytes: &[u8]) -> (r: Option<String>)
    ensures
        match r {
            Some(e) => spec_image_error(bytes@) == Some(e@),
            None => spec_image_error(bytes@) is None,
        },
{
    match image::load_from_memory(bytes) {
        Ok(_) => None,
        Err(error) => Some(error.to_string()),
    }
}

/// Whether the bytes decode as an image.
pub(crate) fn image_decodes(bytes: &[u8]) -> (r: bool)
    ensures
        r == spec_image_decodes(bytes@),
{
    image_error(bytes).is_none()
}

/// What decoding the bytes with `image::load_from_memory`, shrinking the
/// picture with `DynamicImage::thumbnail(edge, edge)` and writing it out with
/// `DynamicImage::write_to` as PNG gives: the PNG bytes, or the text of the
/// first error.
pub uninterp spec fn spec_png_thumbnail(bytes: Seq<u8>, edge: u32) -> Result<Seq<u8>, Seq<char>>;

/// Decodes the bytes as an image, shrinks it to fit in `edge` × `edge`
/// pixels keeping its proportions, and encodes it as PNG; the result is named
/// by [`spec_png_thumbnail`].
#[verifier::external_body]
fn png_thumbnail(bytes: &[u8], edge: u32) -> (r: Result<Vec<u8>, String>)
    ensures
        match r {
            Ok(p) => spec_png_thumbnail(bytes@, edge) == Ok::<Seq<u8>, Seq<char>>(p@),
            Err(e) => spec_png_thumbnail(bytes@, edge) == Err::<Seq<u8>, Seq<char>>(e@),
        },
{
    let picture = match image::load_from_memory(bytes) {
        Ok(picture) => picture,
        Err(error) => return Err(error.to_string()),
    };
    let mut out = std::io::Cursor::new(Vec::new());
    let written = picture.thumbnail(edge, edge).write_to(&mut out, image::ImageFormat::Png);
    match written {
        Ok(()) => Ok(out.into_inner()),
        Err(error) => Err(error.to_string()),
    }
}

/// What decoding the bytes with `image::load_from_memory`, shrinking the
/// picture with `DynamicImage::thumbnail(edge, edge)`, turning it into RGB
/// with `to_rgb8` and encoding it with `JpegEncoder::new_with_quality(..,
/// quality)` gives: the JPEG bytes, or `None` when a step failed.
pub uninterp spec fn spec_jpeg_thumbnail(bytes: Seq<u8>, edge: u32, quality: u8) -> Option<Seq<u8>>;

/// Decodes the bytes as an image, shrinks it to fit in `edge` × `edge`
/// pixels, and encodes it as an RGB JPEG of the given quality; the result is
/// named by [`spec_jpeg_thumbnail`].
#[verifier::external_body]
fn jpeg_thumbnail(bytes: &[u8], edge: u32, quality: u8) -> (r: Option<Vec<u8>>)
    ensures
        match r {
            Some(j) => spec_jpeg_thumbnail(bytes@, edge, quality) == Some(j@),
            None => spec_jpeg_thumbnail(bytes@, edge, quality) is None,
        },
{
    let picture = match image::load_from_memory(bytes) {
        Ok(picture) => picture,
        Err(_) => return None,
    };
    let rgb = picture.thumbnail(edge, edge).to_rgb8();
    let mut out = Vec::new();
    let written = image::codecs::jpeg::JpegEncoder::new_with_quality(&mut out, quality).encode_image(&rgb);
    match written {
        Ok(()) => Some(out),
        Err(_) => None,
    }
}

/// `data:<mime>;base64,<base64 of the bytes>`.
pub open spec fn data_url_spec(mime: Seq<char>, bytes: Seq<u8>) -> Seq<char> {
    "data:"@ + mime + ";base64,"@ + spec_base64_encode(bytes)
}

/// The data URL of bytes of the given media type.
pub fn data_url(mime: &str, bytes: &[u8]) -> (r: String)
    ensures
        r@ == data_url_spec(mime@, bytes@),
{
    let mut out = "data:".to_string();
    out.append(mime);
    out.append(";base64,");
    let encoded = base64_encode(bytes);
    out.append(encoded.as_str());
    out
}

/// The largest image file read as a cover.
pub const MAX_IMAGE_FILE_BYTES: usize = 25 * 1024 * 1024;

/// The data URL of an image file's bytes: refused above 25 MB and when the
/// bytes are not an image; the media type is found from the bytes.
pub open spec fn image_data_url_spec(bytes: Seq<u8>) -> Result<Seq<char>, Seq<char>> {
    if bytes.len() > MAX_IMAGE_FILE_BYTES {
        Err("Cover image must be smaller than 25 MB"@)
    } else if !spec_image_decodes(bytes) {
        Err("Selected file is not a valid image"@)
    } else {
        Ok(data_url_spec(picture_mime_spec(bytes), bytes))
    }
}

/// The data URL of an image file's bytes (see [`image_data_url_spec`]).
pub fn image_data_url(bytes: &[u8]) -> (r: Result<String, String>)
    ensures
        match r {
            Ok(u) => image_data_url_spec(bytes@) == Ok::<Seq<char>, Seq<char>>(u@),
            Err(e) => image_data_url_spec(bytes@) == Err::<Seq<char>, Seq<char>>(e@),
        },
{
    if bytes.len() > MAX_IMAGE_FILE_BYTES {
        return Err("Cover image must be smaller than 25 MB".to_string());
    }
    if !image_decodes(bytes) {
        return Err("Selected file is not a valid image".to_string());
    }
    Ok(data_url(picture_mime(bytes), bytes))
}

/// The data URL of a downloaded image: the bytes must decode as an image,
/// else the decoder's error is given back.
pub fn remote_image_data_url(mime: &str, bytes: &[u8]) -> (r: Result<String, String>)
    ensures
        match r {
            Ok(u) => spec_image_decodes(bytes@) && u@ == data_url_spec(mime@, bytes@),
            Err(e) => spec_image_error(bytes@) == Some(e@),
        },
{
    match image_error(bytes) {
        Some(e) => Err(e),
        None => Ok(data_url(mime, bytes)),
    }
}

/// The data URL of a downloaded image for display: with a size, the image
/// shrunk to fit in a square of [`edge_for`] that size and encoded as PNG;
/// without one, the bytes as they came.
pub open spec fn sized_image_data_url_spec(mime: Seq<char>, bytes: Seq<u8>, max_size: Option<u32>) -> Result<Seq<char>, Seq<char>> {
    match max_size {
        Some(m) => match spec_png_thumbnail(bytes, edge_for(m)) {
            Ok(png) => Ok(data_url_spec("image/png"@, png)),
            Err(e) => Err(e),
        },
        None => Ok(data_url_spec(mime, bytes)),
    }
}

/// The data URL of a downloaded image for display (see
/// [`sized_image_data_url_spec`]).
pub fn sized_image_data_url(mime: &str, bytes: &[u8], max_size: Option<u32>) -> (r: Result<String, String>)
    ensures
        match r {
            Ok(u) => sized_image_data_url_spec(mime@, bytes@, max_size) == Ok::<Seq<char>, Seq<char>>(u@),
            Err(e) => sized_image_data_url_spec(mime@, bytes@, max_size) == Err::<Seq<char>, Seq<char>>(e@),
        },
{
    match max_size {
        Some(m) => {
            let edge = thumbnail_edge(m);
            match png_thumbnail(bytes, edge) {
                Ok(png) => Ok(data_url("image/png", png.as_slice())),
                Err(e) => Err(e),
            }
        },
        None => Ok(data_url(mime, bytes)),
    }
}

/// The edge of the square a cover thumbnail fits in.
pub const THUMBNAIL_EDGE: u32 = 128;

/// The JPEG quality of a cover thumbnail.
pub const THUMBNAIL_QUALITY: u8 = 82;

/// The cover thumbnail of an image: the image shrunk to fit in 128 × 128
/// pixels and encoded as a JPEG of quality 82, as a data URL; `None` when the
/// bytes do not decode or the encoding fails.
pub fn thumbnail_data_url(bytes: &[u8]) -> (r: Option<String>)
    ensures
        match spec_jpeg_thumbnail(bytes@, THUMBNAIL_EDGE, THUMBNAIL_QUALITY) {
            Some(t) => r matches Some(u) && u@ == data_url_spec("image/jpeg"@, t),
            None => r is None,
        },
{
    match jpeg_thumbnail(bytes, THUMBNAIL_EDGE, THUMBNAIL_QUALITY) {
        Some(jpeg) => Some(data_url("image/jpeg", jpeg.as_slice())),
        None => None,
    }
}

/// A cover picture to store in a file's tags as its front cover.
#[derive(Debug)]
pub struct CoverPicture {
    pub mime: String,
    pub data: Vec<u8>,
}

/// `s` without all the repetitions of `suffix` at its end.
pub open spec fn trim_end_all(s: Seq<char>, suffix: Seq<char>) -> Seq<char>
    decreases s.len(),
{
    if suffix.len() > 0 && suffix.len() <= s.len() && s.skip(s.len() - suffix.len()) == suffix {
        trim_end_all(s.take(s.len() - suffix.len()), suffix)
    } else {
        s
    }
}

/// The cover a data URL gives: the URL must split at its first comma into
/// a header `data:image/…;base64` and base64 image bytes; the media type is
/// the header without `data:` and without its `;base64` endings.
pub open spec fn cover_from_data_url_spec(url: Seq<char>) -> Result<(Seq<char>, Seq<u8>), Seq<char>> {
    let k = first_index_of(url, ',');
    if k >= url.len() {
        Err("Invalid cover data URL"@)
    } else {
        let header = url.take(k);
        let encoded = url.skip(k + 1);
        if !(has_text_prefix(header, "data:image/"@) && has_text_suffix(header, ";base64"@)) {
            Err("Cover must be a base64 image data URL"@)
        } else {
            match spec_base64_decode(encoded) {
                Err(e) => Err(e),
                Ok(bytes) => if !spec_image_decodes(bytes) {
                    Err("Selected cover is not a valid image"@)
                } else {
                    Ok((trim_end_all(header.skip(5), ";base64"@), bytes))
                },
            }
        }
    }
}

/// Whether the text starts with the prefix.
pub open spec fn has_text_prefix(s: Seq<char>, prefix: Seq<char>) -> bool {
    prefix.len() <= s.len() && s.take(prefix.len() as int) == prefix
}

/// Whether the text ends with the suffix.
pub open spec fn has_text_suffix(s: Seq<char>, suffix: Seq<char>) -> bool {
    suffix.len() <= s.len() && s.skip(s.len() - suffix.len()) == suffix
}

fn trim_end_all_exec(s: &[char], suffix: &[char]) -> (r: usize)
    ensures
        r <= s@.len(),
        s@.take(r as int) == trim_end_all(s@, suffix@),
{
    let mut end: usize = s.len();
    assert(s@.take(s@.len() as int) =~= s@);
    loop
        invariant
            0 <= end <= s@.len(),
            trim_end_all(s@, suffix@) == trim_end_all(s@.take(end as int), suffix@),
        decreases end,
    {
        let t = crate::text::slice_range(s, 0, end);
        assert(t@ =~= s@.take(end as int));
        if suffix.len() > 0 && ends_with(t.as_slice(), suffix) {
            assert(s@.take(end as int).take(end - suffix@.len()) =~= s@.take(end - suffix@.len()));
            end = end - suffix.len();
        } else {
            return end;
        }
    }
}

/// The cover a data URL gives (see [`cover_from_data_url_spec`]).
pub fn picture_from_data_url(data_url: &str) -> (r: Result<CoverPicture, String>)
    ensures
        match r {
            Ok(p) => cover_from_data_url_spec(data_url@) == Ok::<(Seq<char>, Seq<u8>), Seq<char>>((p.mime@, p.data@)),
            Err(e) => cover_from_data_url_spec(data_url@) == Err::<(Seq<char>, Seq<u8>), Seq<char>>(e@),
        },
{
    let chars = chars_of(data_url);
    let k = find_char_from(chars.as_slice(), 0, ',');
    assert(chars@.skip(0) =~= chars@);
    if k >= chars.len() {
        return Err("Invalid cover data URL".to_string());
    }
    let header_vec = crate::text::slice_range(chars.as_slice(), 0, k);
    let header = header_vec.as_slice();
    assert(header@ =~= data_url@.take(k as int));
    let prefix = chars_of("data:image/");
    let suffix = chars_of(";base64");
    if !(starts_with(header, prefix.as_slice()) && ends_with(header, suffix.as_slice())) {
        return Err("Cover must be a base64 image data URL".to_string());
    }
    let encoded = string_of_range(chars.as_slice(), k + 1, chars.len());
    assert(encoded@ =~= data_url@.skip(k + 1));
    let bytes = match base64_decode(encoded.as_str()) {
        Ok(b) => b,
        Err(e) => {
            return Err(e);
        },
    };
    if !image_decodes(bytes.as_slice()) {
        return Err("Selected cover is not a valid image".to_string());
    }
    proof {
        reveal_strlit("data:image/");
    }
    let rest = crate::text::slice_range(header, 5, k);
    assert(rest@ =~= header@.skip(5));
    let end = trim_end_all_exec(rest.as_slice(), suffix.as_slice());
    let mime = string_of_range(rest.as_slice(), 0, end);
    Ok(CoverPicture { mime, data: bytes })
}

// ---------------------------------------------------------------------------
// tags read from a file
// ---------------------------------------------------------------------------

/// The tag values read from an audio file's main tag.
#[derive(Debug)]
pub struct TagSnapshot {
    pub title: Option<String>,
    pub artists: Vec<String>,
    pub album: Option<String>,
    pub genres: Vec<String>,
    pub language: Option<String>,
    pub composer: Option<String>,
    pub lyricist: Option<String>,
    pub copyright: Option<String>,
    pub rating: Option<u8>,
    pub comment: Option<String>,
    pub album_artists: Vec<String>,
    pub lyrics: Option<String>,
    pub unsynced_lyrics: Option<String>,
    pub recording_date: Option<String>,
    pub year: Option<String>,
    pub replay_gain_track_gain: Option<String>,
    pub replay_gain_track_peak: Option<String>,
    pub replay_gain_album_gain: Option<String>,
    pub replay_gain_album_peak: Option<String>,
    pub track: Option<u32>,
    pub disk: Option<u32>,
    pub first_picture: Option<Vec<u8>>,
}

/// The audio properties read from a file.
#[derive(Debug)]
pub struct AudioFacts {
    pub duration_seconds: u64,
    pub bitrate: Option<u32>,
    pub sample_rate: Option<u32>,
    pub channels: Option<u8>,
}

/// The text of an optional value, empty when there is none.
pub open spec fn or_empty(o: Option<String>) -> Seq<char> {
    match o {
        Some(s) => s@,
        None => Seq::empty(),
    }
}

/// The values of a multi-valued item, trimmed, the empty ones left out,
/// joined by the separator; `None` when no value is left.
pub open spec fn joined_values(values: Seq<Seq<char>>, separator: Seq<char>) -> Option<Seq<char>> {
    let kept = crate::batch::metadata::trimmed_nonempty(values);
    if kept.len() == 0 {
        None
    } else {
        Some(join_with(kept, separator))
    }
}

/// The values of a multi-valued item joined (see [`joined_values`]).
pub fn joined_tag_values(values: &Vec<String>, separator: &str) -> (r: Option<String>)
    ensures
        match r {
            Some(s) => joined_values(strings_view(values@), separator@) == Some(s@),
            None => joined_values(strings_view(values@), separator@) is None,
        },
{
    let ghost vv = strings_view(values@);
    let mut kept: Vec<String> = Vec::new();
    let mut i: usize = 0;
    while i < values.len()
        invariant
            0 <= i <= values@.len(),
            vv == strings_view(values@),
            strings_view(kept@) == crate::batch::metadata::trimmed_nonempty(vv.take(i as int)),
        decreases values.len() - i,
    {
        assert(vv.take(i + 1).drop_last() == vv.take(i as int));
        assert(vv.take(i + 1).last() == values@[i as int]@);
        let t = str_trimmed(values[i].as_str());
        if !t.as_str().is_empty() {
            let ghost prev = strings_view(kept@);
            kept.push(t);
            assert(strings_view(kept@) =~= prev.push(trim(values@[i as int]@)));
        }
        i = i + 1;
    }
    assert(vv.take(values@.len() as int) == vv);
    if kept.len() == 0 {
        None
    } else {
        Some(join_texts(&kept, separator))
    }
}

/// The text of the first of two optional values that is there.
pub open spec fn first_of(a: Option<String>, b: Option<String>) -> Seq<char> {
    match a {
        Some(s) => s@,
        None => or_empty(b),
    }
}

/// The track a file's tags make (`tag` is `None` for a file without tags):
/// the title, or the file stem when the title is missing or blank; artists
/// and album artists joined by the artist separator and genres by `; `;
/// lyrics from the lyrics item, else the unsynchronized lyrics; the year
/// from the recording date, else the year item; the format from the
/// extension in upper case; the cover as a data URL of the first picture
/// when the artwork is asked for.
pub open spec fn track_from_tags_spec(
    path: Seq<char>,
    tag: Option<TagSnapshot>,
    facts: AudioFacts,
    separator: Seq<char>,
    artwork: bool,
    t: AudioTrack,
) -> bool {
    let stem = match file_stem(path) {
        Some(s) => s,
        None => Seq::empty(),
    };
    &&& t.id@ == path
    &&& t.path@ == path
    &&& t.file_name@ == (match file_name(path) {
        Some(n) => n,
        None => Seq::empty(),
    })
    &&& t.format@ == spec_to_uppercase(
        match extension(path) {
            Some(e) => e,
            None => Seq::empty(),
        },
    )
    &&& t.duration_seconds == facts.duration_seconds
    &&& t.bitrate == facts.bitrate
    &&& t.sample_rate == facts.sample_rate
    &&& t.channels == facts.channels
    &&& t.replay_gain_reference_loudness@ == Seq::<char>::empty()
    &&& t.has_lyrics == !is_blank(t.lyrics@)
    &&& match tag {
        None => {
            &&& t.title@ == stem
            &&& t.artist@.len() == 0 && t.album@.len() == 0 && t.album_artist@.len() == 0
            &&& t.genre@.len() == 0 && t.language@.len() == 0 && t.composer@.len() == 0
            &&& t.lyricist@.len() == 0 && t.copyright@.len() == 0 && t.comment@.len() == 0
            &&& t.lyrics@.len() == 0 && t.year@.len() == 0
            &&& t.replay_gain_track_gain@.len() == 0 && t.replay_gain_track_peak@.len() == 0
            &&& t.replay_gain_album_gain@.len() == 0 && t.replay_gain_album_peak@.len() == 0
            &&& t.rating is None && t.track_number is None && t.disc_number is None
            &&& !t.has_cover && t.cover_data_url is None
        },
        Some(g) => {
            &&& t.title@ == (match g.title {
                Some(s) => if is_blank(s@) {
                    stem
                } else {
                    s@
                },
                None => stem,
            })
            &&& t.artist@ == (match joined_values(strings_view(g.artists@), separator) {
                Some(s) => s,
                None => Seq::empty(),
            })
            &&& t.album@ == or_empty(g.album)
            &&& t.genre@ == (match joined_values(strings_view(g.genres@), "; "@) {
                Some(s) => s,
                None => Seq::empty(),
            })
            &&& t.language@ == or_empty(g.language)
            &&& t.composer@ == or_empty(g.composer)
            &&& t.lyricist@ == or_empty(g.lyricist)
            &&& t.copyright@ == or_empty(g.copyright)
            &&& t.rating == g.rating
            &&& t.comment@ == or_empty(g.comment)
            &&& t.album_artist@ == (match joined_values(strings_view(g.album_artists@), separator) {
                Some(s) => s,
                None => Seq::empty(),
            })
            &&& t.lyrics@ == first_of(g.lyrics, g.unsynced_lyrics)
            &&& t.year@ == first_of(g.recording_date, g.year)
            &&& t.replay_gain_track_gain@ == or_empty(g.replay_gain_track_gain)
            &&& t.replay_gain_track_peak@ == or_empty(g.replay_gain_track_peak)
            &&& t.replay_gain_album_gain@ == or_empty(g.replay_gain_album_gain)
            &&& t.replay_gain_album_peak@ == or_empty(g.replay_gain_album_peak)
            &&& t.track_number == g.track
            &&& t.disc_number == g.disk
            &&& t.has_cover == (g.first_picture is Some)
            &&& match t.cover_data_url {
                Some(u) => artwork && (g.first_picture matches Some(d) && u@ == data_url_spec(
                    picture_mime_spec(d@),
                    d@,
                )),
                None => !artwork || g.first_picture is None,
            }
        },
    }
}

fn text_or_empty(o: &Option<String>) -> (r: String)
    ensures
        r@ == or_empty(*o),
{
    match o {
        Some(s) => s.clone(),
        None => String::new(),
    }
}

fn first_text(a: &Option<String>, b: &Option<String>) -> (r: String)
    ensures
        r@ == first_of(*a, *b),
{
    match a {
        Some(s) => s.clone(),
        None => text_or_empty(b),
    }
}

fn joined_or_empty(values: &Vec<String>, separator: &str) -> (r: String)
    ensures
        r@ == (match joined_values(strings_view(values@), separator@) {
            Some(s) => s,
            None => Seq::empty(),
        }),
{
    match joined_tag_values(values, separator) {
        Some(s) => s,
        None => String::new(),
    }
}

/// The track a file's tags make (see [`track_from_tags_spec`]).
pub fn track_from_tags(
    path: &str,
    tag: Option<TagSnapshot>,
    facts: AudioFacts,
    separator: &str,
    artwork: bool,
) -> (t: AudioTrack)
    ensures
        track_from_tags_spec(path@, tag, facts, separator@, artwork, t),
{
    let stem = match file_stem_exec(path) {
        Some(s) => s,
        None => String::new(),
    };
    let file_name = match file_name_exec(path) {
        Some(n) => n,
        None => String::new(),
    };
    let ext = match extension_exec(path) {
        Some(e) => e,
        None => String::new(),
    };
    let format = to_uppercase(ext.as_str());
    match tag {
        None => {
            AudioTrack {
                id: path.to_string(),
                path: path.to_string(),
                file_name,
                title: stem,
                artist: String::new(),
                album: String::new(),
                album_artist: String::new(),
                genre: String::new(),
                language: String::new(),
                composer: String::new(),
                lyricist: String::new(),
                copyright: String::new(),
                rating: None,
                comment: String::new(),
                lyrics: String::new(),
                track_number: None,
                disc_number: None,
                year: String::new(),
                duration_seconds: facts.duration_seconds,
                format,
                bitrate: facts.bitrate,
                sample_rate: facts.sample_rate,
                channels: facts.channels,
                cover_data_url: None,
                has_lyrics: false,
                has_cover: false,
                replay_gain_track_gain: String::new(),
                replay_gain_track_peak: String::new(),
                replay_gain_album_gain: String::new(),
                replay_gain_album_peak: String::new(),
                replay_gain_reference_loudness: String::new(),
            }
        },
        Some(g) => {
            let title = match &g.title {
                Some(s) => if str_blank(s.as_str()) {
                    stem
                } else {
                    s.clone()
                },
                None => stem,
            };
            let lyrics = first_text(&g.lyrics, &g.unsynced_lyrics);
            let has_lyrics = !str_blank(lyrics.as_str());
            let cover_data_url = if artwork {
                match &g.first_picture {
                    Some(d) => Some(data_url(picture_mime(d.as_slice()), d.as_slice())),
                    None => None,
                }
            } else {
                None
            };
            AudioTrack {
                id: path.to_string(),
                path: path.to_string(),
                file_name,
                title,
                artist: joined_or_empty(&g.artists, separator),
                album: text_or_empty(&g.album),
                album_artist: joined_or_empty(&g.album_artists, separator),
                genre: joined_or_empty(&g.genres, "; "),
                language: text_or_empty(&g.language),
                composer: text_or_empty(&g.composer),
                lyricist: text_or_empty(&g.lyricist),
                copyright: text_or_empty(&g.copyright),
                rating: g.rating,
                comment: text_or_empty(&g.comment),
                lyrics,
                track_number: g.track,
                disc_number: g.disk,
                year: first_text(&g.recording_date, &g.year),
                duration_seconds: facts.duration_seconds,
                format,
                bitrate: facts.bitrate,
                sample_rate: facts.sample_rate,
                channels: facts.channels,
                cover_data_url,
                has_lyrics,
                has_cover: g.first_picture.is_some(),
                replay_gain_track_gain: text_or_empty(&g.replay_gain_track_gain),
                replay_gain_track_peak: text_or_empty(&g.replay_gain_track_peak),
                replay_gain_album_gain: text_or_empty(&g.replay_gain_album_gain),
                replay_gain_album_peak: text_or_empty(&g.replay_gain_album_peak),
                replay_gain_reference_loudness: String::new(),
            }
        },
    }
}

// ---------------------------------------------------------------------------
// writing tags
// ---------------------------------------------------------------------------

/// A text item as written: trimmed, and removed (`None`) when empty.
pub open spec fn text_entry_spec(value: Seq<char>) -> Option<Seq<char>> {
    if trim(value).len() == 0 {
        None
    } else {
        Some(trim(value))
    }
}

/// A text item as written (see [`text_entry_spec`]).
pub fn text_entry(value: &str) -> (r: Option<String>)
    ensures
        match r {
            Some(s) => text_entry_spec(value@) == Some(s@),
            None => text_entry_spec(value@) is None,
        },
{
    let t = str_trimmed(value);
    if t.as_str().is_empty() {
        None
    } else {
        Some(t)
    }
}

/// The values of a multi-valued item as written: trimmed, the empty ones
/// left out, and a value left out when one equal to it ignoring case (by
/// `str::to_lowercase`) came before.
pub open spec fn text_items_spec(values: Seq<Seq<char>>) -> Seq<Seq<char>>
    decreases values.len(),
{
    if values.len() == 0 {
        Seq::empty()
    } else {
        let p = text_items_spec(values.drop_last());
        let t = trim(values.last());
        if t.len() == 0 || lowered(p).contains(spec_to_lowercase(t)) {
            p
        } else {
            p.push(t)
        }
    }
}

/// The lower-cased texts.
pub open spec fn lowered(values: Seq<Seq<char>>) -> Seq<Seq<char>> {
    values.map_values(|v: Seq<char>| spec_to_lowercase(v))
}

/// The values of a multi-valued item as written (see [`text_items_spec`]).
pub fn text_items(values: &Vec<String>) -> (r: Vec<String>)
    ensures
        strings_view(r@) == text_items_spec(strings_view(values@)),
{
    let ghost vv = strings_view(values@);
    let mut out: Vec<String> = Vec::new();
    let mut seen: Vec<String> = Vec::new();
    let mut i: usize = 0;
    while i < values.len()
        invariant
            0 <= i <= values@.len(),
            vv == strings_view(values@),
            strings_view(out@) == text_items_spec(vv.take(i as int)),
            strings_view(seen@) == lowered(strings_view(out@)),
        decreases values.len() - i,
    {
        assert(vv.take(i + 1).drop_last() == vv.take(i as int));
        assert(vv.take(i + 1).last() == values@[i as int]@);
        let t = str_trimmed(values[i].as_str());
        if !t.as_str().is_empty() {
            let lower = to_lowercase(t.as_str());
            if !contains_text(&seen, lower.as_str()) {
                let ghost prev = strings_view(out@);
                let ghost prev_seen = strings_view(seen@);
                let ghost tv = t@;
                let ghost lv = lower@;
                out.push(t);
                seen.push(lower);
                assert(strings_view(out@) =~= prev.push(tv));
                assert(strings_view(seen@) =~= prev_seen.push(lv));
                assert(lowered(prev.push(tv)) =~= lowered(prev).push(spec_to_lowercase(tv)));
            }
        }
        i = i + 1;
    }
    assert(vv.take(values@.len() as int) == vv);
    out
}

/// The star rating a rating is written as: 1 to 5 stars; any other value
/// writes none.
pub open spec fn star_rating(rating: Option<u8>) -> Option<u8> {
    match rating {
        Some(r) => if 1 <= r <= 5 {
            Some(r)
        } else {
            None
        },
        None => None,
    }
}

/// The popularimeter text of a MusicBee-style rating with no play count:
/// `MusicBee|<stars>|0`.
pub open spec fn popularimeter_text_spec(stars: u8) -> Seq<char> {
    "MusicBee|"@ + seq![((stars as int + 48) as u32) as char] + "|0"@
}

/// `lofty`'s `Popularimeter::musicbee(stars, 0).to_string()`. Its source
/// writes the rater's email (`MusicBee` for this kind), the star count and
/// the play count, separated by `|`, which the contract states.
#[verifier::external_body]
fn popularimeter_text(stars: u8) -> (r: String)
    requires
        1 <= stars <= 5,
    ensures
        r@ == popularimeter_text_spec(stars),
{
    let rating = match stars {
        1 => StarRating::One,
        2 => StarRating::Two,
        3 => StarRating::Three,
        4 => StarRating::Four,
        _ => StarRating::Five,
    };
    Popularimeter::musicbee(rating, 0).to_string()
}

/// The popularimeter item written for a rating, if any (see
/// [`star_rating`]).
pub fn rating_item(rating: Option<u8>) -> (r: Option<String>)
    ensures
        match r {
            Some(s) => star_rating(rating) matches Some(n) && s@ == popularimeter_text_spec(n),
            None => star_rating(rating) is None,
        },
{
    match rating {
        Some(n) => {
            if 1 <= n && n <= 5 {
                Some(popularimeter_text(n))
            } else {
                None
            }
        },
        None => None,
    }
}

/// What writing does to the front cover.
#[derive(Debug)]
pub enum CoverChange {
    Keep,
    Remove,
    Replace(CoverPicture),
}

/// What writing a tag update does to a file's main tag. Each text item is
/// set to its value or removed (`None`); the genres replace the genre
/// items; the rating replaces the popularimeter item (none removes it);
/// a track or disc number is set or removed.
#[derive(Debug)]
pub struct TagPlan {
    pub cover: CoverChange,
    pub title: Option<String>,
    pub artist: Option<String>,
    pub album: Option<String>,
    pub genres: Vec<String>,
    pub language: Option<String>,
    pub composer: Option<String>,
    pub lyricist: Option<String>,
    pub copyright: Option<String>,
    pub rating: Option<String>,
    pub comment: Option<String>,
    pub album_artist: Option<String>,
    pub lyrics: Option<String>,
    pub recording_date: Option<String>,
    pub year: Option<String>,
    pub replay_gain_track_gain: Option<String>,
    pub replay_gain_track_peak: Option<String>,
    pub replay_gain_album_gain: Option<String>,
    pub replay_gain_album_peak: Option<String>,
    pub track: Option<u32>,
    pub disk: Option<u32>,
}

/// The text of an optional written value.
pub open spec fn entry_view(o: Option<String>) -> Option<Seq<char>> {
    match o {
        Some(s) => Some(s@),
        None => None,
    }
}

/// A number as written: set when positive, else removed.
pub open spec fn number_entry(n: Option<u32>) -> Option<u32> {
    match n {
        Some(v) => if v > 0 {
            Some(v)
        } else {
            None
        },
        None => None,
    }
}

/// The plan for writing a tag update: the cover removed when asked, else
/// replaced by the cover of its data URL when it has one (a bad data URL
/// fails the write), else kept; every other value as [`text_entry_spec`],
/// [`text_items_spec`], [`star_rating`] and [`number_entry`] say, the year
/// written both as the recording date and as the year.
pub open spec fn tag_plan_spec(u: TagUpdate, p: TagPlan) -> bool {
    &&& (if u.remove_cover {
        p.cover is Remove
    } else {
        match u.cover_data_url {
            Some(url) => p.cover matches CoverChange::Replace(c) && cover_from_data_url_spec(url@) == Ok::<
                (Seq<char>, Seq<u8>),
                Seq<char>,
            >((c.mime@, c.data@)),
            None => p.cover is Keep,
        }
    })
    &&& entry_view(p.title) == text_entry_spec(u.title@)
    &&& entry_view(p.artist) == text_entry_spec(u.artist@)
    &&& entry_view(p.album) == text_entry_spec(u.album@)
    &&& strings_view(p.genres@) == text_items_spec(strings_view(u.genre@))
    &&& entry_view(p.language) == text_entry_spec(u.language@)
    &&& entry_view(p.composer) == text_entry_spec(u.composer@)
    &&& entry_view(p.lyricist) == text_entry_spec(u.lyricist@)
    &&& entry_view(p.copyright) == text_entry_spec(u.copyright@)
    &&& entry_view(p.rating) == (match star_rating(u.rating) {
        Some(n) => Some(popularimeter_text_spec(n)),
        None => None,
    })
    &&& entry_view(p.comment) == text_entry_spec(u.comment@)
    &&& entry_view(p.album_artist) == text_entry_spec(u.album_artist@)
    &&& entry_view(p.lyrics) == text_entry_spec(u.lyrics@)
    &&& entry_view(p.recording_date) == text_entry_spec(u.year@)
    &&& entry_view(p.year) == text_entry_spec(u.year@)
    &&& entry_view(p.replay_gain_track_gain) == text_entry_spec(u.replay_gain_track_gain@)
    &&& entry_view(p.replay_gain_track_peak) == text_entry_spec(u.replay_gain_track_peak@)
    &&& entry_view(p.replay_gain_album_gain) == text_entry_spec(u.replay_gain_album_gain@)
    &&& entry_view(p.replay_gain_album_peak) == text_entry_spec(u.replay_gain_album_peak@)
    &&& p.track == number_entry(u.track_number)
    &&& p.disk == number_entry(u.disc_number)
}

/// A written text item holds the value without its surrounding white
/// space, and is left out exactly when nothing else is left.
pub open spec fn holds_trimmed(item: Option<String>, value: Seq<char>) -> bool {
    &&& (item is None <==> trim(value).len() == 0)
    &&& (item matches Some(t) ==> t@ == trim(value))
}

/// Each text item of a write plan comes from its own field of the update:
/// the title from the title, the lyrics from the lyrics, and so on (the year
/// giving both the recording date and the year), trimmed, and left out when
/// blank; a track or disc number is written exactly when it is positive.
/// So two updates that agree on a field give plans that agree on its item,
/// whatever their other fields.
pub proof fn tag_plan_fields_law(u: TagUpdate, p: TagPlan, v: TagUpdate, q: TagPlan)
    requires
        tag_plan_spec(u, p),
        tag_plan_spec(v, q),
    ensures
        holds_trimmed(p.title, u.title@),
        holds_trimmed(p.artist, u.artist@),
        holds_trimmed(p.album, u.album@),
        holds_trimmed(p.language, u.language@),
        holds_trimmed(p.composer, u.composer@),
        holds_trimmed(p.lyricist, u.lyricist@),
        holds_trimmed(p.copyright, u.copyright@),
        holds_trimmed(p.comment, u.comment@),
        holds_trimmed(p.album_artist, u.album_artist@),
        holds_trimmed(p.lyrics, u.lyrics@),
        holds_trimmed(p.recording_date, u.year@),
        holds_trimmed(p.year, u.year@),
        holds_trimmed(p.replay_gain_track_gain, u.replay_gain_track_gain@),
        holds_trimmed(p.replay_gain_track_peak, u.replay_gain_track_peak@),
        holds_trimmed(p.replay_gain_album_gain, u.replay_gain_album_gain@),
        holds_trimmed(p.replay_gain_album_peak, u.replay_gain_album_peak@),
        p.track matches Some(n) ==> u.track_number == Some(n) && n > 0,
        p.track is None ==> !(u.track_number matches Some(n) && n > 0),
        p.disk matches Some(n) ==> u.disc_number == Some(n) && n > 0,
        p.disk is None ==> !(u.disc_number matches Some(n) && n > 0),
        u.title@ == v.title@ ==> entry_view(p.title) == entry_view(q.title),
        u.artist@ == v.artist@ ==> entry_view(p.artist) == entry_view(q.artist),
        u.album@ == v.album@ ==> entry_view(p.album) == entry_view(q.album),
        u.language@ == v.language@ ==> entry_view(p.language) == entry_view(q.language),
        u.composer@ == v.composer@ ==> entry_view(p.composer) == entry_view(q.composer),
        u.lyricist@ == v.lyricist@ ==> entry_view(p.lyricist) == entry_view(q.lyricist),
        u.copyright@ == v.copyright@ ==> entry_view(p.copyright) == entry_view(q.copyright),
        u.comment@ == v.comment@ ==> entry_view(p.comment) == entry_view(q.comment),
        u.album_artist@ == v.album_artist@ ==> entry_view(p.album_artist) == entry_view(q.album_artist),
        u.lyrics@ == v.lyrics@ ==> entry_view(p.lyrics) == entry_view(q.lyrics),
        u.year@ == v.year@ ==> entry_view(p.recording_date) == entry_view(q.recording_date),
        u.year@ == v.year@ ==> entry_view(p.year) == entry_view(q.year),
        u.replay_gain_track_gain@ == v.replay_gain_track_gain@ ==> entry_view(p.replay_gain_track_gain) == entry_view(q.replay_gain_track_gain),
        u.replay_gain_track_peak@ == v.replay_gain_track_peak@ ==> entry_view(p.replay_gain_track_peak) == entry_view(q.replay_gain_track_peak),
        u.replay_gain_album_gain@ == v.replay_gain_album_gain@ ==> entry_view(p.replay_gain_album_gain) == entry_view(q.replay_gain_album_gain),
        u.replay_gain_album_peak@ == v.replay_gain_album_peak@ ==> entry_view(p.replay_gain_album_peak) == entry_view(q.replay_gain_album_peak),
{
}

fn number_entry_exec(n: Option<u32>) -> (r: Option<u32>)
    ensures
        r == number_entry(n),
{
    match n {
        Some(v) => if v > 0 {
            Some(v)
        } else {
            None
        },
        None => None,
    }
}

/// The plan for writing a tag update (see [`tag_plan_spec`]); the cover's
/// data URL error is the error.
pub fn tag_plan(update: &TagUpdate) -> (r: Result<TagPlan, String>)
    ensures
        match r {
            Ok(p) => tag_plan_spec(*update, p),
            Err(e) => !update.remove_cover && (update.cover_data_url matches Some(url)
                && cover_from_data_url_spec(url@) == Err::<(Seq<char>, Seq<u8>), Seq<char>>(e@)),
        },
{
    let cover = if update.remove_cover {
        CoverChange::Remove
    } else {
        match &update.cover_data_url {
            Some(url) => match picture_from_data_url(url.as_str()) {
                Ok(picture) => CoverChange::Replace(picture),
                Err(e) => {
                    return Err(e);
                },
            },
            None => CoverChange::Keep,
        }
    };
    let rating = match rating_item(update.rating) {
        Some(s) => Some(s),
        None => None,
    };
    Ok(TagPlan {
        cover,
        title: text_entry(update.title.as_str()),
        artist: text_entry(update.artist.as_str()),
        album: text_entry(update.album.as_str()),
        genres: text_items(&update.genre),
        language: text_entry(update.language.as_str()),
        composer: text_entry(update.composer.as_str()),
        lyricist: text_entry(update.lyricist.as_str()),
        copyright: text_entry(update.copyright.as_str()),
        rating,
        comment: text_entry(update.comment.as_str()),
        album_artist: text_entry(update.album_artist.as_str()),
        lyrics: text_entry(update.lyrics.as_str()),
        recording_date: text_entry(update.year.as_str()),
        year: text_entry(update.year.as_str()),
        replay_gain_track_gain: text_entry(update.replay_gain_track_gain.as_str()),
        replay_gain_track_peak: text_entry(update.replay_gain_track_peak.as_str()),
        replay_gain_album_gain: text_entry(update.replay_gain_album_gain.as_str()),
        replay_gain_album_peak: text_entry(update.replay_gain_album_peak.as_str()),
        track: number_entry_exec(update.track_number),
        disk: number_entry_exec(update.disc_number),
    })
}

/// The values written for a multi-valued item differ from each other even
/// ignoring case, and none is empty or has surrounding whitespace.
pub proof fn written_items_are_distinct(values: Seq<Seq<char>>)
    ensures
        lowered(text_items_spec(values)).no_duplicates(),
        forall|i: int| 0 <= i < text_items_spec(values).len() ==> {
            &&& (#[trigger] text_items_spec(values)[i]).len() > 0
            &&& exists|j: int| 0 <= j < values.len() && trim(values[j]) == text_items_spec(values)[i]
        },
    decreases values.len(),
{
    if values.len() > 0 {
        let rest = values.drop_last();
        written_items_are_distinct(rest);
        let p = text_items_spec(rest);
        let t = trim(values.last());
        if !(t.len() == 0 || lowered(p).contains(spec_to_lowercase(t))) {
            let q = p.push(t);
            assert(lowered(q) =~= lowered(p).push(spec_to_lowercase(t)));
            assert forall|i: int, j: int| 0 <= i < j < lowered(q).len() implies lowered(q)[i] != lowered(q)[j] by {
                if j == p.len() {
                    assert(lowered(q)[i] == lowered(p)[i]);
                }
            }
            assert forall|i: int| 0 <= i < q.len() implies {
                &&& (#[trigger] q[i]).len() > 0
                &&& exists|j: int| 0 <= j < values.len() && trim(values[j]) == q[i]
            } by {
                if i < p.len() {
                    assert(q[i] == p[i]);
                    let j = choose|j: int| 0 <= j < rest.len() && trim(rest[j]) == p[i];
                    assert(values[j] == rest[j]);
                } else {
                    assert(trim(values[values.len() - 1]) == q[i]);
                }
            }
        } else {
            assert forall|i: int| 0 <= i < p.len() implies exists|j: int|
                0 <= j < values.len() && trim(values[j]) == #[trigger] p[i] by {
                let j = choose|j: int| 0 <= j < rest.len() && trim(rest[j]) == p[i];
                assert(values[j] == rest[j]);
            }
        }
    }
}

} // verus!

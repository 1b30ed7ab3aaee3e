//! The records the application shows and edits: an audio track's tags and
//! properties, and a change to its tags.
use vstd::prelude::*;

verus! {

/// An audio file of the library, with the tags read from it.
#[derive(Debug)]
pub struct AudioTrack {
    pub id: String,
    pub path: String,
    pub file_name: String,
    pub title: String,
    pub artist: String,
    pub album: String,
    pub album_artist: String,
    pub genre: String,
    pub language: String,
    pub composer: String,
    pub lyricist: String,
    pub copyright: String,
    pub rating: Option<u8>,
    pub comment: String,
    pub lyrics: String,
    pub track_number: Option<u32>,
    pub disc_number: Option<u32>,
    pub year: String,
    pub duration_seconds: u64,
    pub format: String,
    pub bitrate: Option<u32>,
    pub sample_rate: Option<u32>,
    pub channels: Option<u8>,
    pub cover_data_url: Option<String>,
    pub has_lyrics: bool,
    pub has_cover: bool,
    pub replay_gain_track_gain: String,
    pub replay_gain_track_peak: String,
    pub replay_gain_album_gain: String,
    pub replay_gain_album_peak: String,
    pub replay_gain_reference_loudness: String,
}

/// The tags to write to an audio file.
#[derive(Debug)]
pub struct TagUpdate {
    pub path: String,
    pub title: String,
    pub artist: String,
    pub album: String,
    pub album_artist: String,
    pub genre: Vec<String>,
    pub language: String,
    pub composer: String,
    pub lyricist: String,
    pub copyright: String,
    pub rating: Option<u8>,
    pub comment: String,
    pub lyrics: String,
    pub track_number: Option<u32>,
    pub disc_number: Option<u32>,
    pub year: String,
    pub replay_gain_track_gain: String,
    pub replay_gain_track_peak: String,
    pub replay_gain_album_gain: String,
    pub replay_gain_album_peak: String,
    pub replay_gain_reference_loudness: String,
    pub cover_data_url: Option<String>,
    pub remove_cover: bool,
}

} // verus!

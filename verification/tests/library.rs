use lyrico::database::{retry_paths, ItemOutcome};
use lyrico::database::{
    as_i64, check_item_status, check_terminal_status, now, now_millis, prepare_batch_task,
};
use lyrico::library::{normalize_path, reusable, scan_signature, sort_tracks, IndexedTrack};
use lyrico::models::AudioTrack;

fn track(album: &str, disc: Option<u32>, number: Option<u32>, title: &str) -> AudioTrack {
    AudioTrack {
        id: title.to_string(),
        path: title.to_string(),
        file_name: title.to_string(),
        title: title.to_string(),
        artist: String::new(),
        album: album.to_string(),
        album_artist: String::new(),
        genre: String::new(),
        language: String::new(),
        composer: String::new(),
        lyricist: String::new(),
        copyright: String::new(),
        rating: None,
        comment: String::new(),
        lyrics: String::new(),
        track_number: number,
        disc_number: disc,
        year: String::new(),
        duration_seconds: 0,
        format: "MP3".to_string(),
        bitrate: None,
        sample_rate: None,
        channels: None,
        cover_data_url: None,
        has_lyrics: false,
        has_cover: false,
        replay_gain_track_gain: String::new(),
        replay_gain_track_peak: String::new(),
        replay_gain_album_gain: String::new(),
        replay_gain_album_peak: String::new(),
        replay_gain_reference_loudness: String::new(),
    }
}

#[test]
fn batch_task_repository_rejects_invalid_type_and_config() {
    assert!(prepare_batch_task(
        "unknown",
        &vec!["song.flac".to_string()],
        None,
        "batch-1-1".to_string(),
        "1".to_string()
    )
    .is_err());
    assert!(prepare_batch_task(
        "replayGain",
        &vec!["song.flac".to_string()],
        Some("not-json".to_string()),
        "batch-1-1".to_string(),
        "1".to_string()
    )
    .is_err());
}

#[test]
fn new_batch_tasks_hold_each_song_once() {
    let plan = prepare_batch_task(
        "exportLyrics",
        &vec![
            "C:\\Music\\first.flac".to_string(),
            "C:\\Music\\first.flac".to_string(),
            "C:\\Music\\second.mp3".to_string(),
        ],
        Some(r#"{"destination":"C:\\Lyrics"}"#.to_string()),
        "batch-7-1".to_string(),
        "1700000000".to_string(),
    )
    .unwrap();
    assert_eq!(plan.task.status, "queued");
    assert_eq!(plan.task.total, 2);
    assert_eq!(plan.items.len(), 2);
    assert_eq!(plan.items[0].file_name, "first.flac");
    assert_eq!(plan.items[1].file_name, "second.mp3");
    assert_eq!(plan.items[0].item_id, "batch-7-1-0");
    assert_eq!(plan.items[1].song_path, "C:\\Music\\second.mp3");
    assert_eq!(plan.items[1].item_id, "batch-7-1-1");
}

#[test]
fn new_batch_tasks_trim_songs_and_need_one() {
    let plan = prepare_batch_task(
        "editTags",
        &vec![" /music/a.flac ".to_string(), "  ".to_string(), "/music/a.flac".to_string()],
        None,
        "t".to_string(),
        "0".to_string(),
    )
    .unwrap();
    assert_eq!(plan.items.len(), 1);
    assert_eq!(plan.items[0].song_path, "/music/a.flac");
    assert_eq!(plan.items[0].file_name, "a.flac");
    assert_eq!(
        prepare_batch_task("editTags", &vec![" ".to_string()], None, "t".to_string(), "0".to_string())
            .err()
            .as_deref(),
        Some("At least one song is required")
    );
}

#[test]
fn statuses_and_stored_numbers() {
    assert!(check_item_status("queued", true).is_ok());
    assert!(check_item_status("queued", false).is_err());
    assert!(check_item_status("skipped", false).is_ok());
    assert_eq!(check_terminal_status("running").unwrap_err(), "Unsupported terminal batch task status");
    assert!(check_terminal_status("cancelled").is_ok());
    assert_eq!(as_i64(5), 5);
    assert_eq!(as_i64(u64::MAX), i64::MAX);
    assert!(now() > 1_600_000_000);
    assert!(now_millis() > 1_600_000_000_000);
}

#[test]
fn scanned_tracks_are_sorted_by_album_disc_number_and_title() {
    let tracks = vec![
        track("B", None, Some(1), "x"),
        track("A", Some(2), Some(1), "y"),
        track("A", Some(1), Some(2), "b"),
        track("A", Some(1), Some(2), "a"),
        track("A", None, None, "z"),
    ];
    let sorted = sort_tracks(tracks);
    let titles: Vec<_> = sorted.iter().map(|t| t.title.as_str()).collect();
    assert_eq!(titles, vec!["z", "a", "b", "y", "x"]);
}

#[test]
fn scan_keys_and_reuse() {
    assert_eq!(normalize_path("C:\\Music\\Pop"), "c:/music/pop");
    assert_eq!(scan_signature("/"), "audio-summary-v1|artist-separator=/");
    let indexed = IndexedTrack { track: track("A", None, None, "t"), file_size: 10, modified_at: 5 };
    assert!(reusable(&indexed, 10, 5));
    assert!(!reusable(&indexed, 11, 5));
}

#[test]
fn texts_are_sorted_by_character_code() {
    let sorted = lyrico::library::sort_texts(vec![
        "b".to_string(),
        "B".to_string(),
        "".to_string(),
        "ab".to_string(),
        "a".to_string(),
        "b".to_string(),
    ]);
    assert_eq!(sorted, vec!["", "B", "a", "ab", "b", "b"]);
}

#[test]
fn retries_take_the_failed_songs_that_were_asked_for() {
    let item = |id: &str, status: &str, path: &str| ItemOutcome {
        item_id: id.to_string(),
        status: status.to_string(),
        song_path: path.to_string(),
    };
    let items = vec![
        item("t-0", "failed", "/a.flac"),
        item("t-1", "succeeded", "/b.flac"),
        item("t-2", "failed", "/c.flac"),
    ];
    assert_eq!(retry_paths(&items, &None), Ok(vec!["/a.flac".to_string(), "/c.flac".to_string()]));
    assert_eq!(
        retry_paths(&items, &Some(vec!["t-2".to_string(), "t-1".to_string()])),
        Ok(vec!["/c.flac".to_string()])
    );
    assert_eq!(
        retry_paths(&items, &Some(vec!["t-1".to_string()])),
        Err("No failed batch items are available to retry".to_string())
    );
}

#[test]
fn tracks_in_the_same_place_keep_their_order() {
    let mut first = track("A", Some(1), Some(1), "same");
    first.path = "first.flac".to_string();
    let mut second = track("A", Some(1), Some(1), "same");
    second.path = "second.flac".to_string();
    let mut third = track("A", Some(1), Some(1), "same");
    third.path = "third.flac".to_string();
    let sorted = sort_tracks(vec![first, track("A", None, None, "z"), second, third]);
    let paths: Vec<_> = sorted.iter().skip(1).map(|t| t.path.as_str()).collect();
    assert_eq!(paths, vec!["first.flac", "second.flac", "third.flac"]);
}

#[test]
fn clock_values_are_cut_from_milliseconds() {
    assert_eq!(lyrico::clock::seconds_from_millis(1_700_000_123_999), 1_700_000_123);
    assert_eq!(lyrico::clock::seconds_from_millis(999), 0);
    assert_eq!(lyrico::clock::millis_as_u64(5), 5);
    assert_eq!(lyrico::clock::millis_as_u64((1u128 << 64) + 7), 7);
    let before = now_millis();
    let seconds = now();
    let after = now_millis();
    assert!(before / 1000 <= seconds as u128 && seconds as u128 <= after / 1000);
    let ms = lyrico::plugins::runtime::now_ms() as u128;
    assert!(ms >= before);
}

use lyrico::audio::{
    data_url, image_data_url, is_audio_path, joined_tag_values, picture_from_data_url,
    picture_mime, rating_item, tag_plan, text_entry, text_items, track_from_tags, AudioFacts,
    CoverChange, TagSnapshot, remote_image_data_url, sized_image_data_url, thumbnail_data_url,
};
use lyrico::models::TagUpdate;

fn png_bytes() -> Vec<u8> {
    let mut bytes = Vec::new();
    image::DynamicImage::new_rgba8(1, 1)
        .write_to(&mut std::io::Cursor::new(&mut bytes), image::ImageFormat::Png)
        .unwrap();
    bytes
}

fn encode(bytes: &[u8]) -> String {
    base64::Engine::encode(&base64::engine::general_purpose::STANDARD, bytes)
}

#[test]
fn multi_value_genres_are_trimmed_and_deduplicated() {
    let values = vec![" Rock ".to_string(), "Pop".to_string(), "rock".to_string(), "".to_string()];
    assert_eq!(text_items(&values), vec!["Rock", "Pop"]);
}

#[test]
fn rating_uses_a_portable_popularimeter_value() {
    assert_eq!(rating_item(Some(4)).as_deref(), Some("MusicBee|4|0"));
    assert!(rating_item(None).is_none());
    assert!(rating_item(Some(6)).is_none());
}

#[test]
fn cover_data_url_is_validated_and_mapped_to_front_cover() {
    let bytes = png_bytes();
    let url = format!("data:image/png;base64,{}", encode(&bytes));
    let picture = picture_from_data_url(&url).expect("valid PNG cover");
    assert_eq!(picture.mime, "image/png");
    assert_eq!(picture.data, bytes);
    assert!(picture_from_data_url("data:text/plain;base64,SGVsbG8=").is_err());
    assert_eq!(picture_from_data_url("no comma").unwrap_err(), "Invalid cover data URL");
    assert_eq!(
        picture_from_data_url("data:image/png;base64,SGVsbG8=").unwrap_err(),
        "Selected cover is not a valid image"
    );
}

#[test]
fn audio_paths_and_picture_types() {
    assert!(is_audio_path("/music/a.FLAC"));
    assert!(is_audio_path("song.mp3"));
    assert!(!is_audio_path("/music/.mp3"));
    assert!(!is_audio_path("notes.txt"));
    assert!(!is_audio_path("/music/flac"));
    assert_eq!(picture_mime(&[0xFF, 0xD8, 0xFF, 0x00]), "image/jpeg");
    assert_eq!(picture_mime(&png_bytes()), "image/png");
    assert_eq!(picture_mime(b"GIF89a...."), "image/gif");
    assert_eq!(picture_mime(b"RIFF\0\0\0\0WEBPVP8 "), "image/webp");
    assert_eq!(picture_mime(b"RIFF\0\0\0\0WEBP"), "application/octet-stream");
    assert_eq!(data_url("image/png", &[1, 2, 3]), "data:image/png;base64,AQID");
    assert_eq!(image_data_url(b"not an image").unwrap_err(), "Selected file is not a valid image");
    assert!(image_data_url(&png_bytes()).unwrap().starts_with("data:image/png;base64,"));
}

fn snapshot() -> TagSnapshot {
    TagSnapshot {
        title: Some("  ".to_string()),
        artists: vec![" A ".to_string(), "".to_string(), "B".to_string()],
        album: Some("Album".to_string()),
        genres: vec!["Rock".to_string(), "Pop".to_string()],
        language: None,
        composer: Some("C".to_string()),
        lyricist: None,
        copyright: None,
        rating: Some(3),
        comment: None,
        album_artists: Vec::new(),
        lyrics: None,
        unsynced_lyrics: Some("la la".to_string()),
        recording_date: None,
        year: Some("2003".to_string()),
        replay_gain_track_gain: Some("-8.50 dB".to_string()),
        replay_gain_track_peak: None,
        replay_gain_album_gain: None,
        replay_gain_album_peak: None,
        track: Some(3),
        disk: None,
        first_picture: Some(png_bytes()),
    }
}

fn facts() -> AudioFacts {
    AudioFacts { duration_seconds: 269, bitrate: Some(900), sample_rate: Some(44_100), channels: Some(2) }
}

#[test]
fn tags_make_the_track() {
    let t = track_from_tags("/music/01 晴天.flac", Some(snapshot()), facts(), "/", true);
    assert_eq!(t.title, "01 晴天");
    assert_eq!(t.file_name, "01 晴天.flac");
    assert_eq!(t.format, "FLAC");
    assert_eq!(t.artist, "A/B");
    assert_eq!(t.genre, "Rock; Pop");
    assert_eq!(t.lyrics, "la la");
    assert!(t.has_lyrics);
    assert_eq!(t.year, "2003");
    assert_eq!(t.rating, Some(3));
    assert_eq!(t.track_number, Some(3));
    assert!(t.has_cover);
    assert!(t.cover_data_url.unwrap().starts_with("data:image/png;base64,"));
    let bare = track_from_tags("/music/song.mp3", None, facts(), "/", true);
    assert_eq!(bare.title, "song");
    assert!(!bare.has_cover && bare.cover_data_url.is_none());
    assert_eq!(joined_tag_values(&vec![" ".to_string()], "/"), None);
}

fn update() -> TagUpdate {
    TagUpdate {
        path: "/music/a.flac".to_string(),
        title: " Title ".to_string(),
        artist: "".to_string(),
        album: "Album".to_string(),
        album_artist: String::new(),
        genre: vec!["Rock".to_string(), "rock".to_string()],
        language: String::new(),
        composer: String::new(),
        lyricist: String::new(),
        copyright: String::new(),
        rating: Some(5),
        comment: String::new(),
        lyrics: String::new(),
        track_number: Some(0),
        disc_number: Some(2),
        year: "2003".to_string(),
        replay_gain_track_gain: String::new(),
        replay_gain_track_peak: String::new(),
        replay_gain_album_gain: String::new(),
        replay_gain_album_peak: String::new(),
        replay_gain_reference_loudness: String::new(),
        cover_data_url: None,
        remove_cover: true,
    }
}

#[test]
fn tag_updates_become_a_write_plan() {
    let plan = tag_plan(&update()).unwrap();
    assert!(matches!(plan.cover, CoverChange::Remove));
    assert_eq!(plan.title.as_deref(), Some("Title"));
    assert!(plan.artist.is_none());
    assert_eq!(plan.genres, vec!["Rock"]);
    assert_eq!(plan.rating.as_deref(), Some("MusicBee|5|0"));
    assert_eq!(plan.track, None);
    assert_eq!(plan.disk, Some(2));
    assert_eq!(plan.recording_date.as_deref(), Some("2003"));
    assert_eq!(plan.year.as_deref(), Some("2003"));
    let mut bad = update();
    bad.remove_cover = false;
    bad.cover_data_url = Some("nonsense".to_string());
    assert_eq!(tag_plan(&bad).err().as_deref(), Some("Invalid cover data URL"));
    assert_eq!(text_entry("  x "), Some("x".to_string()));
    assert_eq!(text_entry("   "), None);
}

#[test]
fn remote_images_must_decode() {
    let png = png_bytes();
    assert_eq!(
        remote_image_data_url("image/webp", &png).unwrap(),
        format!("data:image/webp;base64,{}", encode(&png))
    );
    let error = remote_image_data_url("image/png", b"not an image").unwrap_err();
    assert!(!error.is_empty());
    assert_eq!(error, image::load_from_memory(b"not an image").unwrap_err().to_string());
}

#[test]
fn sized_remote_images_become_png_thumbnails() {
    let png = png_bytes();
    assert_eq!(
        sized_image_data_url("image/gif", &png, None).unwrap(),
        format!("data:image/gif;base64,{}", encode(&png))
    );
    let sized = sized_image_data_url("image/gif", &png, Some(10)).unwrap();
    assert!(sized.starts_with("data:image/png;base64,"));
    let bytes = base64::Engine::decode(
        &base64::engine::general_purpose::STANDARD,
        sized.trim_start_matches("data:image/png;base64,"),
    )
    .unwrap();
    assert_eq!(image::load_from_memory(&bytes).unwrap().width(), 64);
    assert!(sized_image_data_url("image/gif", b"not an image", Some(10)).is_err());
    assert!(sized_image_data_url("image/gif", b"not an image", None).is_ok());
}

#[test]
fn cover_thumbnails_are_small_jpegs() {
    let mut big = Vec::new();
    image::DynamicImage::new_rgb8(300, 150)
        .write_to(&mut std::io::Cursor::new(&mut big), image::ImageFormat::Png)
        .unwrap();
    let url = thumbnail_data_url(&big).unwrap();
    assert!(url.starts_with("data:image/jpeg;base64,"));
    let bytes = base64::Engine::decode(
        &base64::engine::general_purpose::STANDARD,
        url.trim_start_matches("data:image/jpeg;base64,"),
    )
    .unwrap();
    let thumbnail = image::load_from_memory(&bytes).unwrap();
    assert_eq!((thumbnail.width(), thumbnail.height()), (128, 64));
    assert!(thumbnail_data_url(b"not an image").is_none());
}

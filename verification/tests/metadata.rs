use lyrico::batch::metadata::{
    build_search_queries, build_update, check_targets, clean_noise, deduplicate,
    default_conversion_mode, default_lyric_format, default_separator, default_true,
    file_name_segments, local_segments, normalize_config, normalize_for_match,
    normalize_results, normalize_separator, normalized_fields, numeric_field,
    order_search_plugins, parse_config, should_write, split_multi_value, split_to_segments,
    MatchConfig, ProcessError, levenshtein_distance, check_image_scheme, remote_image_mime,
    check_remote_image, check_remote_size,
};
use lyrico::json::{JsonNumber, JsonValue};
use lyrico::models::AudioTrack;
use lyrico::plugins::manifest::{PluginManifest, SourcePlugin};

fn track() -> AudioTrack {
    AudioTrack {
        id: "song".to_string(),
        path: "song.flac".to_string(),
        file_name: "01 周杰伦 - 晴天.flac".to_string(),
        title: "晴天".to_string(),
        artist: "周杰伦".to_string(),
        album: String::new(),
        album_artist: String::new(),
        genre: String::new(),
        language: String::new(),
        composer: String::new(),
        lyricist: String::new(),
        copyright: String::new(),
        rating: None,
        comment: String::new(),
        lyrics: String::new(),
        track_number: None,
        disc_number: None,
        year: String::new(),
        duration_seconds: 269,
        format: "FLAC".to_string(),
        bitrate: None,
        sample_rate: None,
        channels: None,
        cover_data_url: None,
        has_lyrics: false,
        has_cover: false,
        replay_gain_track_gain: String::new(),
        replay_gain_track_peak: String::new(),
        replay_gain_album_gain: String::new(),
        replay_gain_album_peak: String::new(),
        replay_gain_reference_loudness: String::new(),
    }
}

fn config(modes: &[(&str, &str)]) -> MatchConfig {
    MatchConfig {
        target_modes: modes.iter().map(|(k, v)| (k.to_string(), v.to_string())).collect(),
        enabled_source_order_ids: Vec::new(),
        prefer_file_name: false,
        separator: "/".to_string(),
        lyric_format: default_lyric_format(),
        show_translation: true,
        show_romanization: true,
        only_translation_if_available: false,
        remove_empty_lyric_lines: true,
        lyrics_conversion_mode: default_conversion_mode(),
    }
}

fn pairs(values: &[(&str, &str)]) -> Vec<(String, String)> {
    values.iter().map(|(k, v)| (k.to_string(), v.to_string())).collect()
}

fn get<'a>(fields: &'a [(String, String)], key: &str) -> Option<&'a str> {
    fields.iter().find(|(k, _)| k == key).map(|(_, v)| v.as_str())
}

fn text(value: &str) -> JsonValue {
    JsonValue::Str(value.to_string())
}

fn object(entries: Vec<(&str, JsonValue)>) -> JsonValue {
    JsonValue::Object(entries.into_iter().map(|(k, v)| (k.to_string(), v)).collect())
}

#[test]
fn supplement_preserves_existing_fields_and_overwrite_replaces_enabled_fields() {
    let current = track();
    let fields = pairs(&[
        ("title", "晴天 (Remastered)"),
        ("album", "叶惠美"),
        ("track_number", "3/12"),
    ]);
    let config = config(&[
        ("title", "supplement"),
        ("album", "supplement"),
        ("track_number", "overwrite"),
    ]);
    let (update, changed) = build_update(&current, &fields, None, &config, "/");
    assert_eq!(update.title, "晴天");
    assert_eq!(update.album, "叶惠美");
    assert_eq!(update.track_number, Some(3));
    assert_eq!(changed, vec!["album", "track_number"]);
}

#[test]
fn normalized_fields_reads_spec_aliases_and_metadata_object() {
    let fields = normalized_fields(&object(vec![
        ("title", text("晴天")),
        ("artist", text("周杰伦")),
        ("year", text("2003")),
        ("trackerNumber", text("3")),
        ("cover_url", text("https://example.com/cover.jpg")),
        ("metadata", object(vec![("album", text("叶惠美")), ("language", text("zh"))])),
    ]));
    assert_eq!(get(&fields, "title"), Some("晴天"));
    assert_eq!(get(&fields, "date"), Some("2003"));
    assert_eq!(get(&fields, "track_number"), Some("3"));
    assert_eq!(get(&fields, "cover_url"), Some("https://example.com/cover.jpg"));
    assert_eq!(get(&fields, "album"), Some("叶惠美"));
    assert_eq!(get(&fields, "language"), Some("zh"));
}

#[test]
fn blank_fields_are_not_offered_and_bad_numbers_are_ignored() {
    let broken = object(vec![
        ("title", text("\u{fffd}\u{fffd}")),
        ("album", text("")),
        ("date", text("")),
        ("picUrl", text("")),
        (
            "fields",
            object(vec![
                ("album", text("")),
                ("track_number", text("-31073")),
                ("cover_url", text("")),
            ]),
        ),
    ]);
    let fields = normalized_fields(&broken);
    assert!(get(&fields, "album").is_none());
    assert!(get(&fields, "date").is_none());
    assert!(get(&fields, "cover_url").is_none());
    let mut changed = Vec::new();
    assert!(numeric_field(
        "track_number",
        None,
        &fields,
        &config(&[("track_number", "overwrite")]),
        &mut changed
    )
    .is_none());
    assert!(changed.is_empty());
}

#[test]
fn genres_ratings_artists_and_covers_in_an_update() {
    let mut current = track();
    current.genre = "Pop".to_string();
    let fields = pairs(&[
        ("genre", " Rock ; Pop,Jazz/ "),
        ("rating", "4"),
        ("artist", "A, B;C"),
    ]);
    let config = config(&[("genre", "overwrite"), ("rating", "supplement"), ("artist", "overwrite")]);
    let (update, changed) = build_update(
        &current,
        &fields,
        Some("data:image/png;base64,AAAA".to_string()),
        &config,
        " / ",
    );
    assert_eq!(update.genre, vec!["Rock", "Pop", "Jazz"]);
    assert_eq!(update.rating, Some(4));
    assert_eq!(update.artist, "A / B / C");
    assert_eq!(update.cover_data_url.as_deref(), Some("data:image/png;base64,AAAA"));
    assert_eq!(changed, vec!["artist", "genre", "rating", "cover_url"]);
}

#[test]
fn configuration_defaults_and_normalization() {
    assert_eq!(default_separator(), "/");
    assert_eq!(default_lyric_format(), "verbatimLrc");
    assert_eq!(default_conversion_mode(), "none");
    assert!(default_true());
    let mut raw = config(&[]);
    raw.lyric_format = "srt".to_string();
    raw.lyrics_conversion_mode = "pinyin".to_string();
    let normalized = normalize_config(raw);
    assert_eq!(normalized.target_modes.len(), 8);
    assert_eq!(normalized.target_modes[0], ("title".to_string(), "supplement".to_string()));
    assert_eq!(normalized.lyric_format, "verbatimLrc");
    assert_eq!(normalized.lyrics_conversion_mode, "none");
    let odd = normalize_config(config(&[("title", "always")]));
    assert_eq!(odd.target_modes, vec![("title".to_string(), "disabled".to_string())]);
    assert!(matches!(check_targets(&odd), Err(ProcessError::Skipped(_))));
    assert!(matches!(parse_config(None), Err(ProcessError::Skipped(m)) if m == "No config"));
    assert!(matches!(
        parse_config(Some(Err("eof".to_string()))),
        Err(ProcessError::Failed(m)) if m == "Invalid metadata match config: eof"
    ));
    let c = config(&[("title", "overwrite"), ("album", "supplement"), ("genre", "disabled")]);
    assert!(should_write(&c, "title", false));
    assert!(should_write(&c, "album", true));
    assert!(!should_write(&c, "album", false));
    assert!(!should_write(&c, "genre", true));
    assert!(!should_write(&c, "missing", true));
}

#[test]
fn values_are_split_joined_and_deduplicated() {
    assert_eq!(split_multi_value(" a; b ,, c/"), vec!["a", "b", "c"]);
    assert_eq!(normalize_separator("a;b", ", "), "a, b");
    assert_eq!(normalize_separator("a;b", ""), "a;b");
    let mut values = vec!["x".to_string(), "y".to_string(), "x".to_string()];
    deduplicate(&mut values);
    assert_eq!(values, vec!["x", "y"]);
}

#[test]
fn search_queries_come_from_tags_then_file_name() {
    let track = track();
    assert_eq!(build_search_queries(&track, false)[0], "晴天 周杰伦");
    assert_eq!(clean_noise("晴天 (Live)  【MV】"), "晴天 MV");
    assert_eq!(normalize_for_match("Hello, World!"), "hello world");
    assert_eq!(split_to_segments("周杰伦 feat. 方文山 / 周杰伦"), vec!["周杰伦", "方文山"]);
    assert_eq!(file_name_segments("01 周杰伦 - 晴天 (2).flac"), vec!["周杰伦", "晴天"]);
    let mut unknown = self::track();
    unknown.title = "未知标题".to_string();
    unknown.artist = String::new();
    assert_eq!(local_segments(&unknown, false), vec!["周杰伦", "晴天"]);
}

fn source(id: &str, enabled: bool, searches: bool) -> SourcePlugin {
    SourcePlugin {
        manifest: PluginManifest {
            id: id.to_string(),
            name: id.to_string(),
            version_code: 1,
            version_name: "1".to_string(),
            author: String::new(),
            description: String::new(),
            api_version: 3,
            min_host_api_version: 1,
            entry: "source.js".to_string(),
            include_dirs: Vec::new(),
            icon: None,
            capabilities: if searches { vec!["searchSongs".to_string()] } else { Vec::new() },
            config_fields: Vec::new(),
        },
        plugin_dir: String::new(),
        icon_path: None,
        icon_data_url: None,
        enabled,
        sort_order: 0,
        installed_at: String::new(),
        updated_at: String::new(),
        config: JsonValue::Null,
    }
}

#[test]
fn sources_are_searched_in_the_task_order() {
    let plugins = vec![
        source("com.a.x", true, true),
        source("com.b.x", true, true),
        source("com.c.x", false, true),
        source("com.d.x", true, false),
        source("com.e.x", true, true),
    ];
    assert_eq!(order_search_plugins(&plugins, &Vec::new()), vec![0, 1, 4]);
    let order = vec!["com.e.x".to_string(), "com.a.x".to_string(), "com.c.x".to_string()];
    assert_eq!(order_search_plugins(&plugins, &order), vec![4, 0]);
}

#[test]
fn search_responses_hold_their_results_in_known_places() {
    let n = JsonValue::Number(JsonNumber { as_i64: Some(1), as_u64: Some(1), rounded: 1, text: "1".to_string() });
    let direct = JsonValue::Array(vec![text("a"), text("b")]);
    assert_eq!(normalize_results(&direct).len(), 2);
    let nested = object(vec![("songs", JsonValue::Array(vec![n])), ("items", text("x"))]);
    assert_eq!(normalize_results(&nested).len(), 1);
    assert!(normalize_results(&text("none")).is_empty());
}

#[test]
fn edit_distance_counts_single_character_edits() {
    let chars = |s: &str| s.chars().collect::<Vec<char>>();
    assert_eq!(levenshtein_distance(&chars("kitten"), &chars("sitting")), 3);
    assert_eq!(levenshtein_distance(&chars(""), &chars("abc")), 3);
    assert_eq!(levenshtein_distance(&chars("晴天"), &chars("晴天")), 0);
    assert_eq!(levenshtein_distance(&chars("flaw"), &chars("lawn")), 2);
}

#[test]
fn remote_images_are_checked_before_download() {
    assert!(check_image_scheme("https").is_ok());
    assert!(check_image_scheme("http").is_ok());
    assert_eq!(
        check_image_scheme("file"),
        Err("Only HTTP and HTTPS image URLs are supported".to_string())
    );
    assert_eq!(remote_image_mime(Some("image/png; charset=binary")), "image/png");
    assert_eq!(remote_image_mime(None), "application/octet-stream");
    assert_eq!(
        check_remote_image("text/html", None),
        Err("Remote resource is not an image: text/html".to_string())
    );
    assert_eq!(
        check_remote_image("image/jpeg", Some(20 * 1024 * 1024 + 1)),
        Err("Remote image is larger than 20 MB".to_string())
    );
    assert!(check_remote_image("image/jpeg", Some(20 * 1024 * 1024)).is_ok());
    assert!(check_remote_size(20 * 1024 * 1024).is_ok());
    assert!(check_remote_size(20 * 1024 * 1024 + 1).is_err());
}

#[test]
fn search_queries_are_distinct_nonempty_and_few() {
    let mut t = track();
    t.title = "晴天 - 周杰伦 - 叶惠美 - Live".to_string();
    t.artist = "周杰伦".to_string();
    for prefer_file_name in [false, true] {
        let queries = build_search_queries(&t, prefer_file_name);
        assert!(!queries.is_empty() && queries.len() <= 5);
        assert!(queries.iter().all(|query| !query.is_empty()));
        for (i, a) in queries.iter().enumerate() {
            assert!(queries.iter().skip(i + 1).all(|b| b != a));
        }
    }
}

#[test]
fn resized_remote_images_keep_a_sensible_edge() {
    assert_eq!(lyrico::batch::metadata::thumbnail_edge(10), 64);
    assert_eq!(lyrico::batch::metadata::thumbnail_edge(300), 300);
    assert_eq!(lyrico::batch::metadata::thumbnail_edge(10_000), 4096);
}

#[test]
fn changed_fields_are_listed_once_and_cover_only_when_fetched() {
    let current = track();
    let fields = pairs(&[("title", "New"), ("album", "Album"), ("cover_url", "http://x/y.png")]);
    let config = config(&[("title", "overwrite"), ("album", "overwrite"), ("cover_url", "overwrite")]);
    let (without, listed) = build_update(&current, &fields, None, &config, "/");
    assert!(!listed.iter().any(|key| key == "cover_url"));
    let mut seen = listed.clone();
    seen.sort();
    seen.dedup();
    assert_eq!(seen.len(), listed.len());
    assert_eq!(without.path, current.path);
    assert!(!without.remove_cover);
    let (with, listed) = build_update(&current, &fields, Some("data:image/png;base64,AA".to_string()), &config, "/");
    assert_eq!(listed.iter().filter(|key| *key == "cover_url").count(), 1);
    for (key, before, after) in [("title", &current.title, &with.title), ("album", &current.album, &with.album)] {
        if listed.iter().any(|k| k == key) {
            assert_ne!(before, after);
        } else {
            assert_eq!(before, after);
        }
    }
}

use lyrico::json::{JsonNumber, JsonValue};
use lyrico::plugins::installer::{
    check_archive_file_count, check_icon_type, check_manifest_count, check_plugin_order,
    check_zip_entry, copy_plugin_root, default_settings, downgrade_refused, duplicate_ids,
    is_zip_archive, safe_join, validate_manifest, validate_plugin_id, validate_plugin_size,
    validate_zip_name, add_extracted_bytes, check_manifest_size, check_plugin_file,
    MAX_ARCHIVE_BYTES, MAX_ENTRY_BYTES,
};
use lyrico::plugins::manifest::{
    config_default_text, default_entry, default_host_api_version, PluginConfigField,
    PluginManifest, SourcePlugin,
};
use lyrico::plugins::runtime::{
    base64_from_url, base64_to_url, byte_array, check_invocation, hex_exec, http_request_body,
    http_timeout_ms, pure_host_call, xor, HostApi, HostStep, HostValue, http_plan, script_order,
    HttpReply,
};

fn manifest(id: &str, capabilities: &[&str], fields: Vec<PluginConfigField>) -> PluginManifest {
    PluginManifest {
        id: id.to_string(),
        name: "Legacy".to_string(),
        version_code: 1,
        version_name: "1.0.0".to_string(),
        author: String::new(),
        description: String::new(),
        api_version: 99,
        min_host_api_version: 99,
        entry: "source.js".to_string(),
        include_dirs: Vec::new(),
        icon: None,
        capabilities: capabilities.iter().map(|c| c.to_string()).collect(),
        config_fields: fields,
    }
}

fn field(key: &str, title: &str, field_type: &str, default_value: &str) -> PluginConfigField {
    PluginConfigField {
        key: key.to_string(),
        title: title.to_string(),
        summary: None,
        group: String::new(),
        field_type: field_type.to_string(),
        required: false,
        default_value: default_value.to_string(),
        options: Vec::new(),
        dependency: None,
    }
}

fn text(value: &str) -> JsonValue {
    JsonValue::Str(value.to_string())
}

fn number(value: u64) -> JsonValue {
    JsonValue::Number(JsonNumber {
        as_i64: Some(value as i64),
        as_u64: Some(value),
        rounded: value as i64,
        text: value.to_string(),
    })
}

fn object(entries: Vec<(&str, JsonValue)>) -> JsonValue {
    JsonValue::Object(entries.into_iter().map(|(k, v)| (k.to_string(), v)).collect())
}

fn plugin(enabled: bool, capabilities: &[&str]) -> SourcePlugin {
    SourcePlugin {
        manifest: manifest("com.example.test", capabilities, Vec::new()),
        plugin_dir: "/tmp/plugin".to_string(),
        icon_path: None,
        icon_data_url: None,
        enabled,
        sort_order: 0,
        installed_at: String::new(),
        updated_at: String::new(),
        config: object(Vec::new()),
    }
}

#[test]
fn rejects_paths_outside_plugin_root() {
    let root = "C:/plugins/test";
    assert!(safe_join(root, "../source.js").is_err());
    assert!(safe_join(root, "/source.js").is_err());
    assert!(safe_join(root, "lib\\source.js").is_err());
    assert_eq!(
        safe_join(root, "lib/source.js").unwrap(),
        std::path::Path::new(root).join("lib/source.js").to_string_lossy()
    );
}

#[test]
fn validates_reverse_domain_plugin_ids() {
    assert!(validate_plugin_id("com.lonx.netease").is_ok());
    assert!(validate_plugin_id("netease").is_err());
    assert!(validate_plugin_id("com.lonx.bad-id").is_err());
    assert!(validate_plugin_id("1com.lonx.plugin").is_err());
}

#[test]
fn ignores_api_version_mismatches_during_install() {
    let manifest = manifest("com.example.legacy", &["searchSongs"], Vec::new());
    assert!(validate_manifest(&manifest).is_ok());
}

#[test]
fn refuses_disabled_plugin() {
    let plugin = plugin(false, &["searchSongs"]);
    assert_eq!(
        check_invocation(&plugin, "searchSongs").unwrap_err(),
        "Plugin is disabled"
    );
}

#[test]
fn null_binary_body_does_not_override_text_body() {
    let payload = object(vec![
        ("body", text("{\"query\":\"晴天\"}")),
        ("bodyBytes", JsonValue::Null),
        ("bodyBase64", text("")),
    ]);
    assert_eq!(
        http_request_body(&payload).unwrap(),
        "{\"query\":\"晴天\"}".as_bytes()
    );
}

#[test]
fn invocation_needs_a_known_declared_function() {
    let plugin = plugin(true, &["searchSongs"]);
    assert!(check_invocation(&plugin, "searchSongs").is_ok());
    assert_eq!(
        check_invocation(&plugin, "deleteEverything").unwrap_err(),
        "Unsupported plugin function: deleteEverything"
    );
    assert_eq!(
        check_invocation(&plugin, "getLyrics").unwrap_err(),
        "Plugin does not declare the getLyrics capability"
    );
}

#[test]
fn manifest_problems_are_reported_in_order() {
    assert_eq!(
        validate_manifest(&manifest("bad", &["searchSongs"], Vec::new())).unwrap_err(),
        "Plugin id must use reverse-domain format"
    );
    let mut unnamed = manifest("com.example.a", &["searchSongs"], Vec::new());
    unnamed.name = "   ".to_string();
    assert_eq!(validate_manifest(&unnamed).unwrap_err(), "Plugin name is required");
    let mut version = manifest("com.example.a", &["searchSongs"], Vec::new());
    version.version_code = 0;
    assert_eq!(
        validate_manifest(&version).unwrap_err(),
        "Plugin versionCode must be >= 1"
    );
    assert_eq!(
        validate_manifest(&manifest("com.example.a", &["getLyrics"], Vec::new())).unwrap_err(),
        "A source plugin must support searchSongs"
    );
    assert_eq!(
        validate_manifest(&manifest("com.example.a", &["searchSongs", "upload"], Vec::new()))
            .unwrap_err(),
        "Unsupported plugin capability: upload"
    );
    assert!(validate_manifest(&manifest("com.example.a", &[], Vec::new())).is_ok());
    assert_eq!(
        validate_manifest(&manifest(
            "com.example.a",
            &["searchSongs"],
            vec![field("k", " ", "text", "")]
        ))
        .unwrap_err(),
        "Plugin config field key and title are required"
    );
    assert_eq!(
        validate_manifest(&manifest(
            "com.example.a",
            &["searchSongs"],
            vec![field("k", "K", "slider", "")]
        ))
        .unwrap_err(),
        "Unsupported config field type: slider"
    );
}

#[test]
fn zip_names_and_entries_are_checked() {
    assert!(validate_zip_name("plugin/source.js").is_ok());
    assert_eq!(validate_zip_name("").unwrap_err(), "Unsafe zip entry: ");
    assert!(validate_zip_name("/abs").is_err());
    assert!(validate_zip_name("a\\b").is_err());
    assert!(validate_zip_name("a/../b").is_err());
    assert!(validate_zip_name("a/..b/c").is_ok());
    assert_eq!(
        check_zip_entry("link", Some(0o120777), Some(1)).unwrap_err(),
        "Symbolic links are not allowed: link"
    );
    assert_eq!(check_zip_entry("x", None, None).unwrap_err(), "Unsafe zip entry: x");
    assert_eq!(
        check_zip_entry("deep", Some(0o100644), Some(17)).unwrap_err(),
        "Zip entry is too deep: deep"
    );
    assert!(check_zip_entry("ok", Some(0o100644), Some(16)).is_ok());
    assert!(check_archive_file_count(1000).is_ok());
    assert!(check_archive_file_count(1001).is_err());
    assert_eq!(check_manifest_count(0).unwrap_err(), "Plugin manifest not found");
    assert_eq!(
        check_manifest_count(21).unwrap_err(),
        "Archive contains too many plugins"
    );
    assert!(check_manifest_count(20).is_ok());
    assert_eq!(add_extracted_bytes(10, 5).unwrap(), 15);
    assert!(add_extracted_bytes(MAX_ARCHIVE_BYTES, 1).is_err());
    assert!(is_zip_archive("/tmp/Plugin.ZIP"));
    assert!(!is_zip_archive("/tmp/plugin.tar"));
}

#[test]
fn duplicates_order_settings_and_sizes() {
    let ids: Vec<String> = ["a.b", "c.d", "a.b", "a.b", "e.f", "c.d"]
        .iter()
        .map(|s| s.to_string())
        .collect();
    assert_eq!(duplicate_ids(&ids), vec!["a.b".to_string(), "c.d".to_string()]);
    let order: Vec<String> = vec!["com.c.source".into(), "com.a.source".into()];
    assert!(check_plugin_order(&order).is_ok());
    let twice: Vec<String> = vec!["com.a.source".into(), "com.a.source".into()];
    assert_eq!(
        check_plugin_order(&twice).unwrap_err(),
        "Duplicate plugin id in order: com.a.source"
    );
    let bad: Vec<String> = vec!["com.a.source".into(), "bad id".into()];
    assert_eq!(
        check_plugin_order(&bad).unwrap_err(),
        "Plugin id must use reverse-domain format"
    );
    let m = manifest(
        "com.example.a",
        &["searchSongs"],
        vec![
            field("token", "Token", "password", "abc"),
            field("note", "Note", "markdown", "read me"),
            field("limit", "Limit", "number", "20"),
        ],
    );
    assert_eq!(
        default_settings(&m),
        vec![
            ("token".to_string(), "abc".to_string()),
            ("limit".to_string(), "20".to_string())
        ]
    );
    assert!(validate_plugin_size(&vec![1024, 2048]).is_ok());
    assert_eq!(
        validate_plugin_size(&vec![5 * 1024 * 1024, 1]).unwrap_err(),
        "Plugin is too large"
    );
    assert!(downgrade_refused(1, 2, false));
    assert!(!downgrade_refused(1, 2, true));
    assert!(!downgrade_refused(3, 2, false));
    assert!(check_icon_type("icon.PNG").is_ok());
    assert_eq!(check_icon_type("icon.svg").unwrap_err(), "Unsupported icon type: icon.svg");
}

#[test]
fn nested_candidate_roots_are_left_out_of_a_copy() {
    let roots: Vec<String> = vec![
        "/tmp/import/a".into(),
        "/tmp/import/a/inner".into(),
        "/tmp/import/ab".into(),
        "/tmp/import/a/./other/".into(),
    ];
    assert_eq!(
        copy_plugin_root("/tmp/import/a", &roots),
        vec![
            "/tmp/import/a/inner".to_string(),
            "/tmp/import/a/./other/".to_string()
        ]
    );
}

#[test]
fn manifest_defaults_and_config_default_texts() {
    assert_eq!(default_host_api_version(), 1);
    assert_eq!(default_entry(), "source.js");
    assert_eq!(config_default_text(&JsonValue::Bool(true)).unwrap(), "true");
    assert_eq!(config_default_text(&number(20)).unwrap(), "20");
    assert_eq!(config_default_text(&JsonValue::Null).unwrap(), "");
    assert_eq!(config_default_text(&text("x")).unwrap(), "x");
    assert!(config_default_text(&object(vec![("nested", JsonValue::Bool(true))])).is_err());
}

#[test]
fn base64_url_forms_round_trip() {
    assert_eq!(base64_to_url("a+b/c=="), "a-b_c");
    assert_eq!(base64_from_url("a-b_c"), "a+b/c===");
    assert_eq!(base64_from_url(&base64_to_url("SGVsbG8=")), "SGVsbG8=");
    assert_eq!(base64_from_url(&base64_to_url("ab+/")), "ab+/");
}

#[test]
fn xor_and_hex() {
    assert_eq!(xor(&[1, 2, 3], &[1]).unwrap(), vec![0, 3, 2]);
    assert_eq!(xor(&[1, 2, 3], &[]).unwrap_err(), "XOR key must not be empty");
    assert_eq!(hex_exec(&[0x0f, 0xa0], false), "0fa0");
    assert_eq!(hex_exec(&[0x0f, 0xa0], true), "0FA0");
    let bytes = JsonValue::Array(vec![number(1), text("x"), number(258)]);
    assert_eq!(byte_array(Some(&bytes)), vec![1, 2]);
    assert_eq!(http_timeout_ms(None), 12_000);
    assert_eq!(http_timeout_ms(Some(10)), 1_000);
    assert_eq!(http_timeout_ms(Some(90_000)), 60_000);
}

#[test]
fn host_calls_answer_as_the_host_api_says() {
    let md5 = pure_host_call("crypto.md5", &object(vec![("text", text("test"))]));
    match md5 {
        Some(Ok(HostValue::Text(t))) => assert_eq!(t, "098f6bcd4621d373cade4e832627b4f6"),
        other => panic!("unexpected {other:?}"),
    }
    let encoded = pure_host_call("base64.encodeText", &object(vec![("text", text("Hello"))]));
    match encoded {
        Some(Ok(HostValue::Text(t))) => assert_eq!(t, "SGVsbG8="),
        other => panic!("unexpected {other:?}"),
    }
    let dropped = pure_host_call(
        "base64.dropBytes",
        &object(vec![("base64", text("SGVsbG8=")), ("count", number(2))]),
    );
    match dropped {
        Some(Ok(HostValue::Text(t))) => assert_eq!(t, "bGxv"),
        other => panic!("unexpected {other:?}"),
    }
    let bad = pure_host_call("base64.decodeText", &object(vec![("base64", text("***"))]));
    assert!(matches!(bad, Some(Err(_))));
    let mut api = HostApi { plugin_id: "com.example.test".to_string(), cache: Vec::new() };
    match api.call("nothing.here", &object(vec![]), 0) {
        HostStep::Reply(Err(e)) => assert_eq!(e, "Unsupported host API: nothing.here"),
        other => panic!("unexpected {other:?}"),
    }
    assert!(matches!(api.call("http.getText", &object(vec![]), 0), HostStep::Http));
    assert!(matches!(api.call("xml.findElements", &object(vec![]), 0), HostStep::Xml));
}

#[test]
fn cache_returns_what_was_set_until_it_expires() {
    let mut api = HostApi { plugin_id: "com.example.test".to_string(), cache: Vec::new() };
    let set = object(vec![
        ("key", text("k")),
        ("value", text("v")),
        ("ttlMs", number(100)),
    ]);
    assert!(matches!(api.call("cache.set", &set, 1_000), HostStep::SaveCache(Ok(_))));
    match api.call("cache.get", &object(vec![("key", text("k"))]), 1_050) {
        HostStep::Reply(Ok(HostValue::Text(t))) => assert_eq!(t, "v"),
        other => panic!("unexpected {other:?}"),
    }
    match api.call("cache.get", &object(vec![("key", text("k"))]), 1_100) {
        HostStep::SaveCache(Ok(HostValue::Text(t))) => assert_eq!(t, ""),
        other => panic!("unexpected {other:?}"),
    }
    assert!(api.cache.is_empty());
    match api.call("cache.set", &object(vec![("key", text(""))]), 0) {
        HostStep::Reply(Err(e)) => assert_eq!(e, "Cache key must not be empty"),
        other => panic!("unexpected {other:?}"),
    }
    assert!(matches!(
        api.call("log.warn", &object(vec![("tag", text("T")), ("message", text("M"))]), 0),
        HostStep::Log(_, _)
    ));
}

#[test]
fn manifest_files_above_the_limit_are_refused() {
    assert!(check_manifest_size(128 * 1024).is_ok());
    assert_eq!(
        check_manifest_size(128 * 1024 + 1),
        Err("Plugin manifest is too large".to_string())
    );
}

#[test]
fn named_plugin_files_must_exist_have_their_extension_and_fit() {
    assert_eq!(
        check_plugin_file("source.js", Some("js"), MAX_ENTRY_BYTES, "entry", "/p/source.js", None),
        Err("Plugin entry not found: source.js".to_string())
    );
    assert_eq!(
        check_plugin_file("main.ts", Some("js"), MAX_ENTRY_BYTES, "entry", "/p/main.ts", Some(10)),
        Err("Plugin entry must be a .js file".to_string())
    );
    assert!(check_plugin_file("MAIN.JS", Some("js"), MAX_ENTRY_BYTES, "entry", "/p/MAIN.JS", Some(10)).is_ok());
    assert_eq!(
        check_plugin_file("icon.png", None, 100, "icon", "/p/icon.png", Some(101)),
        Err("Plugin icon is too large".to_string())
    );
    assert!(check_plugin_file("icon.png", None, 100, "icon", "/p/icon.png", Some(100)).is_ok());
}

#[test]
fn scripts_run_in_text_order_before_the_entry() {
    let found = vec![
        "lib\\b.js".to_string(),
        "lib/a.js".to_string(),
        "lib/B.js".to_string(),
    ];
    assert_eq!(
        script_order(found, "source.js"),
        vec![
            "lib/B.js".to_string(),
            "lib/a.js".to_string(),
            "lib/b.js".to_string(),
            "source.js".to_string(),
        ]
    );
    assert_eq!(script_order(Vec::new(), "main.js"), vec!["main.js".to_string()]);
}

#[test]
fn http_calls_are_planned_from_the_payload() {
    let payload = object(vec![
        ("url", text("https://example.com/a")),
        ("body", text("hi")),
        ("readTimeoutMs", number(500)),
        ("followRedirects", JsonValue::Bool(false)),
        ("headers", object(vec![("User-Agent", text("x")), ("Accept", number(1))])),
    ]);
    let plan = http_plan("http.postText", &payload);
    assert!(plan.post);
    assert_eq!(plan.url, "https://example.com/a");
    assert_eq!(plan.body, Ok(b"hi".to_vec()));
    assert_eq!(plan.content_type, "application/json; charset=utf-8");
    assert_eq!(plan.timeout_ms, 1_000);
    assert!(!plan.follow_redirects);
    assert_eq!(
        plan.headers,
        vec![
            ("User-Agent".to_string(), "x".to_string()),
            ("Accept".to_string(), String::new()),
        ]
    );
    assert!(!plan.default_user_agent);
    assert!(matches!(plan.reply, HttpReply::Text));

    let get = http_plan("http.getBytes", &object(vec![("url", text("u"))]));
    assert!(!get.post);
    assert_eq!(get.body, Ok(Vec::new()));
    assert_eq!(get.timeout_ms, 12_000);
    assert!(get.follow_redirects);
    assert!(get.default_user_agent);
    assert!(matches!(get.reply, HttpReply::Response(true)));
    assert!(matches!(http_plan("http.get", &payload).reply, HttpReply::Response(false)));
    assert!(matches!(http_plan("http.postBytes", &payload).reply, HttpReply::Base64));
}

fn host_text(name: &str, payload: JsonValue) -> Result<String, String> {
    match pure_host_call(name, &payload) {
        Some(Ok(HostValue::Text(t))) => Ok(t),
        Some(Err(e)) => Err(e),
        other => panic!("unexpected {other:?}"),
    }
}

#[test]
fn host_crypto_compression_and_url_safe_base64() {
    assert_eq!(
        host_text(
            "crypto.aesEcbPkcs5EncryptBase64",
            object(vec![("text", text("hello")), ("key", text("0123456789abcdef"))])
        ),
        Ok("Z0x+8454yr2c7JwSWCOmOQ==".to_string())
    );
    assert_eq!(
        host_text(
            "crypto.aesEcbPkcs5EncryptHex",
            object(vec![("text", text("hello")), ("key", text("0123456789abcdef"))])
        ),
        Ok("674C7EF38E78CABD9CEC9C125823A639".to_string())
    );
    assert_eq!(
        host_text(
            "crypto.aesEcbPkcs5DecryptBase64ToText",
            object(vec![("base64", text("Z0x+8454yr2c7JwSWCOmOQ==")), ("key", text("0123456789abcdef"))])
        ),
        Ok("hello".to_string())
    );
    assert!(host_text(
        "crypto.aesEcbPkcs5EncryptBase64",
        object(vec![("text", text("hello")), ("key", text("short"))])
    )
    .is_err());
    assert_eq!(
        host_text(
            "compression.inflateBase64ToText",
            object(vec![("base64", text("eJzLSM3JyVfIqSzKTC4GAB7ABMs="))])
        ),
        Ok("hello lyrics".to_string())
    );
    assert_eq!(
        host_text("base64.encodeUrlText", object(vec![("text", text("a?>"))])),
        Ok("YT8-".to_string())
    );
    assert_eq!(
        host_text("base64.decodeUrlText", object(vec![("base64Url", text("YT8-"))])),
        Ok("a?>".to_string())
    );
    assert!(host_text("base64.decodeText", object(vec![("base64", text("/w=="))])).is_err());
}

#[test]
fn plugin_settings_must_be_an_object_of_a_valid_plugin() {
    assert!(lyrico::plugins::installer::check_plugin_settings("com.example.test", &object(vec![])).is_ok());
    assert_eq!(
        lyrico::plugins::installer::check_plugin_settings("bad", &object(vec![])),
        Err("Plugin id must use reverse-domain format".to_string())
    );
    assert_eq!(
        lyrico::plugins::installer::check_plugin_settings("com.example.test", &text("x")),
        Err("Plugin settings must be a JSON object".to_string())
    );
}

#[test]
fn removed_and_cleared_cache_items_read_empty() {
    let mut api = HostApi { plugin_id: "com.example.test".to_string(), cache: Vec::new() };
    for key in ["a", "b"] {
        let set = object(vec![("key", text(key)), ("value", text("v"))]);
        assert!(matches!(api.call("cache.set", &set, 0), HostStep::SaveCache(Ok(_))));
    }
    assert!(matches!(
        api.call("cache.remove", &object(vec![("key", text("a"))]), 0),
        HostStep::SaveCache(Ok(_))
    ));
    match api.call("cache.get", &object(vec![("key", text("a"))]), 0) {
        HostStep::Reply(Ok(HostValue::Text(t))) => assert_eq!(t, ""),
        other => panic!("unexpected {other:?}"),
    }
    match api.call("cache.get", &object(vec![("key", text("b"))]), 0) {
        HostStep::Reply(Ok(HostValue::Text(t))) => assert_eq!(t, "v"),
        other => panic!("unexpected {other:?}"),
    }
    assert!(matches!(api.call("cache.clear", &object(vec![]), 0), HostStep::SaveCache(Ok(_))));
    match api.call("cache.get", &object(vec![("key", text("b"))]), 0) {
        HostStep::Reply(Ok(HostValue::Text(t))) => assert_eq!(t, ""),
        other => panic!("unexpected {other:?}"),
    }
    assert!(api.cache.is_empty());
}

fn plain(value: &serde_json::Value) -> JsonValue {
    match value {
        serde_json::Value::Null => JsonValue::Null,
        serde_json::Value::Bool(flag) => JsonValue::Bool(*flag),
        serde_json::Value::Number(n) => JsonValue::Number(JsonNumber {
            as_i64: n.as_i64(),
            as_u64: n.as_u64(),
            rounded: n.as_f64().map_or(0, |v| v.round() as i64),
            text: n.to_string(),
        }),
        serde_json::Value::String(s) => JsonValue::Str(s.clone()),
        serde_json::Value::Array(items) => JsonValue::Array(items.iter().map(plain).collect()),
        serde_json::Value::Object(map) => {
            JsonValue::Object(map.iter().map(|(k, v)| (k.clone(), plain(v))).collect())
        }
    }
}

fn field_defaults(manifest_json: &str) -> Vec<Result<String, String>> {
    let manifest: serde_json::Value = serde_json::from_str(manifest_json).unwrap();
    manifest["configFields"]
        .as_array()
        .unwrap()
        .iter()
        .map(|field| config_default_text(&plain(&field["defaultValue"])))
        .collect()
}

#[test]
fn scalar_config_defaults_are_normalized_to_runtime_strings() {
    let defaults = field_defaults(
        r#"{
            "id": "com.example.defaults",
            "name": "Defaults",
            "versionCode": 1,
            "versionName": "1.0.0",
            "apiVersion": 3,
            "configFields": [
                { "key": "enabled", "title": "Enabled", "type": "switch", "defaultValue": true },
                { "key": "limit", "title": "Limit", "type": "number", "defaultValue": 20 }
            ]
        }"#,
    );
    assert_eq!(defaults[0], Ok("true".to_string()));
    assert_eq!(defaults[1], Ok("20".to_string()));
}

#[test]
fn structured_config_defaults_are_rejected() {
    let defaults = field_defaults(
        r#"{
            "id": "com.example.defaults",
            "name": "Defaults",
            "versionCode": 1,
            "versionName": "1.0.0",
            "apiVersion": 3,
            "configFields": [
                { "key": "bad", "title": "Bad", "type": "text", "defaultValue": { "nested": true } }
            ]
        }"#,
    );
    assert!(defaults[0].is_err());
}

//! The rules of plugin installation: plugin ids, paths inside a plugin,
//! archive entries, manifests, the plugin order and the stored settings.
//! The file system and database work around them is done by the caller.
use vstd::prelude::*;
use crate::plugins::manifest::{PluginConfigField, PluginManifest};
use crate::json::JsonValue;
use crate::clock::system_millis;
use crate::paths::{
    join, join_exec, plain_relative, is_plain_relative, extension, extension_exec, path_eq,
    path_eq_exec, path_starts_with, path_starts_with_exec,
};
use crate::text::{
    is_blank, str_blank, chars_of, split_on, split_chars, contains_char, eq_ignore_ascii_case,
    eq_ignore_ascii_case_exec, is_ascii_alpha, is_ascii_alnum, str_eq, strings_view,
    contains_text, occurs_before,
};

verus! {

broadcast use vstd::string::group_string_axioms;

/// Largest archive, counted after extraction.
pub const MAX_ARCHIVE_BYTES: u64 = 30 * 1024 * 1024;

/// Largest installed plugin.
pub const MAX_PLUGIN_BYTES: u64 = 5 * 1024 * 1024;

/// Largest plugin manifest file.
pub const MAX_MANIFEST_BYTES: u64 = 128 * 1024;

/// Largest entry script.
pub const MAX_ENTRY_BYTES: u64 = 1024 * 1024;

/// Most plugins in one archive.
pub const MAX_PLUGIN_COUNT: usize = 20;

/// Most files in one archive.
pub const MAX_FILE_COUNT: usize = 1000;

/// Deepest path inside an archive.
pub const MAX_DEPTH: usize = 16;

// ---------------------------------------------------------------------------
// plugin ids
// ---------------------------------------------------------------------------

/// One dot-separated part of a plugin id: an ASCII letter, then ASCII
/// letters, digits and underscores.
pub open spec fn valid_id_part(p: Seq<char>) -> bool {
    &&& p.len() > 0
    &&& is_ascii_alpha(p[0])
    &&& forall|k: int| 1 <= k < p.len() ==> is_ascii_alnum(#[trigger] p[k]) || p[k] == '_'
}

/// A reverse-domain plugin id: at least two parts, each valid.
pub open spec fn valid_plugin_id(id: Seq<char>) -> bool {
    let parts = split_on(id, '.');
    &&& parts.len() >= 2
    &&& forall|i: int| 0 <= i < parts.len() ==> valid_id_part(#[trigger] parts[i])
}

/// The message for an invalid plugin id.
pub open spec fn plugin_id_error() -> Seq<char> {
    "Plugin id must use reverse-domain format"@
}

fn valid_id_part_exec(p: &Vec<char>) -> (r: bool)
    ensures
        r == valid_id_part(p@),
{
    if p.len() == 0 {
        return false;
    }
    let c = p[0];
    if !(('a' <= c && c <= 'z') || ('A' <= c && c <= 'Z')) {
        return false;
    }
    let mut k: usize = 1;
    while k < p.len()
        invariant
            1 <= k <= p@.len(),
            forall|j: int| 1 <= j < k ==> is_ascii_alnum(#[trigger] p@[j]) || p@[j] == '_',
        decreases p.len() - k,
    {
        let c = p[k];
        let ok = ('a' <= c && c <= 'z') || ('A' <= c && c <= 'Z') || ('0' <= c && c <= '9') || c
            == '_';
        if !ok {
            return false;
        }
        k = k + 1;
    }
    true
}

/// Checks that a plugin id uses the reverse-domain format (see
/// [`valid_plugin_id`]).
pub fn validate_plugin_id(plugin_id: &str) -> (r: Result<(), String>)
    ensures
        r is Ok <==> valid_plugin_id(plugin_id@),
        r matches Err(e) ==> e@ == plugin_id_error(),
{
    let chars = chars_of(plugin_id);
    let parts = split_chars(chars.as_slice(), '.');
    let ghost sp = split_on(plugin_id@, '.');
    if parts.len() < 2 {
        return Err("Plugin id must use reverse-domain format".to_string());
    }
    let mut i: usize = 0;
    while i < parts.len()
        invariant
            0 <= i <= parts@.len(),
            sp == split_on(plugin_id@, '.'),
            parts@.len() == sp.len(),
            forall|j: int| 0 <= j < parts@.len() ==> #[trigger] parts@[j]@ == sp[j],
            forall|j: int| 0 <= j < i ==> valid_id_part(#[trigger] sp[j]),
        decreases parts.len() - i,
    {
        assert(parts@[i as int]@ == sp[i as int]);
        if !valid_id_part_exec(&parts[i]) {
            return Err("Plugin id must use reverse-domain format".to_string());
        }
        i = i + 1;
    }
    Ok(())
}

// ---------------------------------------------------------------------------
// paths inside a plugin and inside an archive
// ---------------------------------------------------------------------------

/// A relative path that may be used inside a plugin root: not empty, no
/// backslash, no NUL, and only name components.
pub open spec fn safe_relative(relative: Seq<char>) -> bool {
    &&& relative.len() > 0
    &&& !relative.contains('\\')
    &&& !relative.contains('\0')
    &&& plain_relative(relative)
}

/// `root` joined with `relative`, when `relative` is a safe relative path;
/// otherwise the error `Unsafe plugin path: <relative>`.
pub fn safe_join(root: &str, relative: &str) -> (r: Result<String, String>)
    ensures
        match r {
            Ok(p) => safe_relative(relative@) && p@ == join(root@, relative@),
            Err(e) => !safe_relative(relative@) && e@ == "Unsafe plugin path: "@ + relative@,
        },
{
    let chars = chars_of(relative);
    if chars.len() == 0 || contains_char(chars.as_slice(), '\\') || contains_char(
        chars.as_slice(),
        '\0',
    ) || !is_plain_relative(relative) {
        let mut e = "Unsafe plugin path: ".to_string();
        e.append(relative);
        return Err(e);
    }
    Ok(join_exec(root, relative))
}

/// A zip entry name that is refused: empty, with a NUL or a backslash,
/// absolute, or with a `..` piece.
pub open spec fn unsafe_zip_name(name: Seq<char>) -> bool {
    ||| name.len() == 0
    ||| name.contains('\0')
    ||| name.contains('\\')
    ||| name[0] == '/'
    ||| exists|i: int| 0 <= i < split_on(name, '/').len() && #[trigger] split_on(name, '/')[i] == seq!['.', '.']
}

/// Refuses an unsafe zip entry name (see [`unsafe_zip_name`]) with
/// `Unsafe zip entry: <name>`.
pub fn validate_zip_name(name: &str) -> (r: Result<(), String>)
    ensures
        r is Ok <==> !unsafe_zip_name(name@),
        r matches Err(e) ==> e@ == "Unsafe zip entry: "@ + name@,
{
    let mut e = "Unsafe zip entry: ".to_string();
    e.append(name);
    let chars = chars_of(name);
    if chars.len() == 0 || contains_char(chars.as_slice(), '\0') || contains_char(
        chars.as_slice(),
        '\\',
    ) || chars[0] == '/' {
        return Err(e);
    }
    let parts = split_chars(chars.as_slice(), '/');
    let mut i: usize = 0;
    while i < parts.len()
        invariant
            0 <= i <= parts@.len(),
            e@ == "Unsafe zip entry: "@ + name@,
            parts@.len() == split_on(name@, '/').len(),
            forall|j: int| 0 <= j < parts@.len() ==> #[trigger] parts@[j]@ == split_on(name@, '/')[j],
            forall|j: int| 0 <= j < i ==> split_on(name@, '/')[j] != seq!['.', '.'],
        decreases parts.len() - i,
    {
        let p = &parts[i];
        assert(p@ == split_on(name@, '/')[i as int]);
        if p.len() == 2 && p[0] == '.' && p[1] == '.' {
            assert(p@ =~= seq!['.', '.']);
            assert(split_on(name@, '/')[i as int] == seq!['.', '.']);
            return Err(e);
        }
        assert(p@ != seq!['.', '.']) by {
            if p@ == seq!['.', '.'] {
                assert(p@.len() == 2 && p@[0] == '.' && p@[1] == '.');
            }
        }
        i = i + 1;
    }
    assert(!unsafe_zip_name(name@)) by {
        assert(forall|j: int| 0 <= j < split_on(name@, '/').len() ==> #[trigger] split_on(name@, '/')[j] != seq!['.', '.']);
    }
    Ok(())
}

/// The Unix file type bits of a symbolic link.
pub open spec fn is_symlink_mode(mode: u32) -> bool {
    mode & 0o170000u32 == 0o120000u32
}

/// The checks made on each archive entry before it is extracted: a safe
/// name, no symbolic link, a name the archive can place inside the target
/// (`depth` is `None` when it cannot) and at most [`MAX_DEPTH`] components.
pub open spec fn zip_entry_problem(name: Seq<char>, unix_mode: Option<u32>, depth: Option<usize>) -> Option<
    Seq<char>,
> {
    if unsafe_zip_name(name) {
        Some("Unsafe zip entry: "@ + name)
    } else if unix_mode matches Some(m) && is_symlink_mode(m) {
        Some("Symbolic links are not allowed: "@ + name)
    } else if depth is None {
        Some("Unsafe zip entry: "@ + name)
    } else if depth.unwrap() > MAX_DEPTH {
        Some("Zip entry is too deep: "@ + name)
    } else {
        None
    }
}

/// Checks one archive entry (see [`zip_entry_problem`]).
pub fn check_zip_entry(name: &str, unix_mode: Option<u32>, depth: Option<usize>) -> (r: Result<(), String>)
    ensures
        match r {
            Ok(()) => zip_entry_problem(name@, unix_mode, depth) is None,
            Err(e) => zip_entry_problem(name@, unix_mode, depth) == Some(e@),
        },
{
    validate_zip_name(name)?;
    if let Some(mode) = unix_mode {
        if mode & 0o170000u32 == 0o120000u32 {
            let mut e = "Symbolic links are not allowed: ".to_string();
            e.append(name);
            return Err(e);
        }
    }
    match depth {
        None => {
            let mut e = "Unsafe zip entry: ".to_string();
            e.append(name);
            Err(e)
        },
        Some(d) => {
            if d > MAX_DEPTH {
                let mut e = "Zip entry is too deep: ".to_string();
                e.append(name);
                Err(e)
            } else {
                Ok(())
            }
        },
    }
}

/// Checks the number of files of an archive.
pub fn check_archive_file_count(count: usize) -> (r: Result<(), String>)
    ensures
        r is Ok <==> count <= MAX_FILE_COUNT,
        r matches Err(e) ==> e@ == "Archive contains too many files"@,
{
    if count > MAX_FILE_COUNT {
        return Err("Archive contains too many files".to_string());
    }
    Ok(())
}

/// Adds the bytes of one extracted file to the archive's total, refusing a
/// total above [`MAX_ARCHIVE_BYTES`].
pub fn add_extracted_bytes(total: u64, copied: u64) -> (r: Result<u64, String>)
    requires
        total <= MAX_ARCHIVE_BYTES,
        copied <= MAX_ARCHIVE_BYTES - total + 1,
    ensures
        match r {
            Ok(t) => t == total + copied && t <= MAX_ARCHIVE_BYTES,
            Err(e) => total + copied > MAX_ARCHIVE_BYTES && e@ == "Archive is too large after extraction"@,
        },
{
    let t = total + copied;
    if t > MAX_ARCHIVE_BYTES {
        return Err("Archive is too large after extraction".to_string());
    }
    Ok(t)
}

/// Checks the number of manifests found in an archive.
pub fn check_manifest_count(count: usize) -> (r: Result<(), String>)
    ensures
        match r {
            Ok(()) => 1 <= count <= MAX_PLUGIN_COUNT,
            Err(e) => (count == 0 && e@ == "Plugin manifest not found"@) || (count > MAX_PLUGIN_COUNT
                && e@ == "Archive contains too many plugins"@),
        },
{
    if count == 0 {
        return Err("Plugin manifest not found".to_string());
    }
    if count > MAX_PLUGIN_COUNT {
        return Err("Archive contains too many plugins".to_string());
    }
    Ok(())
}

/// Whether a path names a `.zip` archive (its extension, any ASCII case).
pub fn is_zip_archive(path: &str) -> (r: bool)
    ensures
        r == (extension(path@) matches Some(e) && eq_ignore_ascii_case(e, "zip"@)),
{
    match extension_exec(path) {
        Some(e) => eq_ignore_ascii_case_exec(e.as_str(), "zip"),
        None => false,
    }
}

/// Checks new settings of a plugin: a valid plugin id and a JSON object.
pub fn check_plugin_settings(plugin_id: &str, config: &JsonValue) -> (r: Result<(), String>)
    ensures
        match r {
            Ok(()) => valid_plugin_id(plugin_id@) && config is Object,
            Err(e) => if !valid_plugin_id(plugin_id@) {
                e@ == plugin_id_error()
            } else {
                !(config is Object) && e@ == "Plugin settings must be a JSON object"@
            },
        },
{
    validate_plugin_id(plugin_id)?;
    match config {
        JsonValue::Object(_) => Ok(()),
        _ => Err("Plugin settings must be a JSON object".to_string()),
    }
}

/// Checks the size of a manifest file against [`MAX_MANIFEST_BYTES`].
pub fn check_manifest_size(size: u64) -> (r: Result<(), String>)
    ensures
        r is Ok <==> size <= MAX_MANIFEST_BYTES,
        r matches Err(e) ==> e@ == "Plugin manifest is too large"@,
{
    if size > MAX_MANIFEST_BYTES {
        return Err("Plugin manifest is too large".to_string());
    }
    Ok(())
}

/// Why a file that a manifest names (its entry script or its icon) is
/// refused, if it is. `path` is where [`safe_join`] put it and `size` the
/// size of the file found there (`None`: no file). It must be there, have
/// the expected extension (any ASCII case) when one is expected, and be at
/// most `max_bytes` long.
pub open spec fn plugin_file_problem(
    relative: Seq<char>,
    expected: Option<Seq<char>>,
    max_bytes: u64,
    label: Seq<char>,
    path: Seq<char>,
    size: Option<u64>,
) -> Option<Seq<char>> {
    if size is None {
        Some("Plugin "@ + label + " not found: "@ + relative)
    } else if expected matches Some(x) && !(extension(path) matches Some(e) && eq_ignore_ascii_case(e, x)) {
        Some("Plugin "@ + label + " must be a ."@ + expected.unwrap() + " file"@)
    } else if size.unwrap() > max_bytes {
        Some("Plugin "@ + label + " is too large"@)
    } else {
        None
    }
}

/// Checks a file that a manifest names (see [`plugin_file_problem`]).
pub fn check_plugin_file(
    relative: &str,
    expected: Option<&str>,
    max_bytes: u64,
    label: &str,
    path: &str,
    size: Option<u64>,
) -> (r: Result<(), String>)
    ensures
        match r {
            Ok(()) => plugin_file_problem(
                relative@,
                match expected {
                    Some(x) => Some(x@),
                    None => None,
                },
                max_bytes,
                label@,
                path@,
                size,
            ) is None,
            Err(e) => plugin_file_problem(
                relative@,
                match expected {
                    Some(x) => Some(x@),
                    None => None,
                },
                max_bytes,
                label@,
                path@,
                size,
            ) == Some(e@),
        },
{
    let n = match size {
        None => {
            let mut e = "Plugin ".to_string();
            e.append(label);
            e.append(" not found: ");
            e.append(relative);
            return Err(e);
        },
        Some(n) => n,
    };
    if let Some(x) = expected {
        let matches = match extension_exec(path) {
            Some(e) => eq_ignore_ascii_case_exec(e.as_str(), x),
            None => false,
        };
        if !matches {
            let mut e = "Plugin ".to_string();
            e.append(label);
            e.append(" must be a .");
            e.append(x);
            e.append(" file");
            return Err(e);
        }
    }
    if n > max_bytes {
        let mut e = "Plugin ".to_string();
        e.append(label);
        e.append(" is too large");
        return Err(e);
    }
    Ok(())
}

// ---------------------------------------------------------------------------
// manifests
// ---------------------------------------------------------------------------

/// The capabilities a source plugin may declare.
pub open spec fn known_capability(c: Seq<char>) -> bool {
    c == "searchSongs"@ || c == "getLyrics"@ || c == "searchCovers"@
}

/// The settings field types the settings page can show.
pub open spec fn known_field_type(t: Seq<char>) -> bool {
    ||| t == "text"@
    ||| t == "password"@
    ||| t == "number"@
    ||| t == "switch"@
    ||| t == "dropdown"@
    ||| t == "textarea"@
    ||| t == "markdown"@
}

/// What is wrong with one settings field, if anything.
pub open spec fn field_problem(f: PluginConfigField) -> Option<Seq<char>> {
    if is_blank(f.key@) || is_blank(f.title@) {
        Some("Plugin config field key and title are required"@)
    } else if !known_field_type(f.field_type@) {
        Some("Unsupported config field type: "@ + f.field_type@)
    } else {
        None
    }
}

/// The problem of the first faulty settings field.
pub open spec fn fields_problem(fields: Seq<PluginConfigField>) -> Option<Seq<char>>
    decreases fields.len(),
{
    if fields.len() == 0 {
        None
    } else {
        match fields_problem(fields.drop_last()) {
            Some(e) => Some(e),
            None => field_problem(fields.last()),
        }
    }
}

/// The first capability that is not a known one.
pub open spec fn capabilities_problem(caps: Seq<String>) -> Option<Seq<char>>
    decreases caps.len(),
{
    if caps.len() == 0 {
        None
    } else {
        match capabilities_problem(caps.drop_last()) {
            Some(e) => Some(e),
            None => if known_capability(caps.last()@) {
                None
            } else {
                Some("Unsupported plugin capability: "@ + caps.last()@)
            },
        }
    }
}

/// What is wrong with a manifest, if anything: checked in this order, the
/// id, the name, the version code, that a plugin declaring capabilities
/// declares `searchSongs`, that each capability is known, and each settings
/// field. The API versions are not checked.
pub open spec fn manifest_problem(m: PluginManifest) -> Option<Seq<char>> {
    if !valid_plugin_id(m.id@) {
        Some(plugin_id_error())
    } else if is_blank(m.name@) {
        Some("Plugin name is required"@)
    } else if m.version_code < 1 {
        Some("Plugin versionCode must be >= 1"@)
    } else if m.capabilities@.len() > 0 && !(exists|i: int|
        0 <= i < m.capabilities@.len() && #[trigger] m.capabilities@[i]@ == "searchSongs"@) {
        Some("A source plugin must support searchSongs"@)
    } else if capabilities_problem(m.capabilities@) is Some {
        capabilities_problem(m.capabilities@)
    } else {
        fields_problem(m.config_fields@)
    }
}

fn is_known_capability(c: &str) -> (r: bool)
    ensures
        r == known_capability(c@),
{
    str_eq(c, "searchSongs") || str_eq(c, "getLyrics") || str_eq(c, "searchCovers")
}

fn is_known_field_type(t: &str) -> (r: bool)
    ensures
        r == known_field_type(t@),
{
    str_eq(t, "text") || str_eq(t, "password") || str_eq(t, "number") || str_eq(t, "switch")
        || str_eq(t, "dropdown") || str_eq(t, "textarea") || str_eq(t, "markdown")
}

fn check_field(f: &PluginConfigField) -> (r: Result<(), String>)
    ensures
        match r {
            Ok(()) => field_problem(*f) is None,
            Err(e) => field_problem(*f) == Some(e@),
        },
{
    if str_blank(f.key.as_str()) || str_blank(f.title.as_str()) {
        return Err("Plugin config field key and title are required".to_string());
    }
    if !is_known_field_type(f.field_type.as_str()) {
        let mut e = "Unsupported config field type: ".to_string();
        e.append(f.field_type.as_str());
        return Err(e);
    }
    Ok(())
}

/// Checks a manifest (see [`manifest_problem`]).
pub fn validate_manifest(manifest: &PluginManifest) -> (r: Result<(), String>)
    ensures
        match r {
            Ok(()) => manifest_problem(*manifest) is None,
            Err(e) => manifest_problem(*manifest) == Some(e@),
        },
{
    validate_plugin_id(manifest.id.as_str())?;
    if str_blank(manifest.name.as_str()) {
        return Err("Plugin name is required".to_string());
    }
    if manifest.version_code < 1 {
        return Err("Plugin versionCode must be >= 1".to_string());
    }
    let caps = &manifest.capabilities;
    assert(valid_plugin_id(manifest.id@) && !is_blank(manifest.name@) && manifest.version_code >= 1);
    if caps.len() > 0 {
        let mut found = false;
        let mut i: usize = 0;
        while i < caps.len()
            invariant
                0 <= i <= caps@.len(),
                found ==> exists|j: int| 0 <= j < caps@.len() && #[trigger] caps@[j]@ == "searchSongs"@,
                !found ==> forall|j: int| 0 <= j < i ==> #[trigger] caps@[j]@ != "searchSongs"@,
            decreases caps.len() - i,
        {
            if str_eq(caps[i].as_str(), "searchSongs") {
                found = true;
            }
            i = i + 1;
        }
        if !found {
            return Err("A source plugin must support searchSongs".to_string());
        }
    }
    let mut i: usize = 0;
    while i < caps.len()
        invariant
            0 <= i <= caps@.len(),
            *caps == manifest.capabilities,
            valid_plugin_id(manifest.id@) && !is_blank(manifest.name@) && manifest.version_code >= 1,
            !(caps@.len() > 0 && !(exists|j: int|
                0 <= j < caps@.len() && #[trigger] caps@[j]@ == "searchSongs"@)),
            capabilities_problem(caps@.take(i as int)) is None,
        decreases caps.len() - i,
    {
        assert(caps@.take(i + 1).drop_last() == caps@.take(i as int));
        if !is_known_capability(caps[i].as_str()) {
            let mut e = "Unsupported plugin capability: ".to_string();
            e.append(caps[i].as_str());
            assert(capabilities_problem(caps@.take(i + 1)) == Some(e@));
            assert(capabilities_problem(caps@) == Some(e@)) by {
                lemma_first_problem_stays(caps@, i as int + 1);
            }
            return Err(e);
        }
        i = i + 1;
    }
    assert(caps@.take(caps@.len() as int) == caps@);
    let fields = &manifest.config_fields;
    let mut k: usize = 0;
    while k < fields.len()
        invariant
            0 <= k <= fields@.len(),
            *fields == manifest.config_fields,
            valid_plugin_id(manifest.id@) && !is_blank(manifest.name@) && manifest.version_code >= 1,
            !(manifest.capabilities@.len() > 0 && !(exists|j: int|
                0 <= j < manifest.capabilities@.len() && #[trigger] manifest.capabilities@[j]@ == "searchSongs"@)),
            capabilities_problem(manifest.capabilities@) is None,
            fields_problem(fields@.take(k as int)) is None,
        decreases fields.len() - k,
    {
        assert(fields@.take(k + 1).drop_last() == fields@.take(k as int));
        let c = check_field(&fields[k]);
        if let Err(e) = c {
            assert(fields_problem(fields@.take(k + 1)) == Some(e@));
            assert(fields_problem(fields@) == Some(e@)) by {
                lemma_first_field_problem_stays(fields@, k as int + 1);
            }
            return Err(e);
        }
        k = k + 1;
    }
    assert(fields@.take(fields@.len() as int) == fields@);
    Ok(())
}

proof fn lemma_first_problem_stays(caps: Seq<String>, n: int)
    requires
        0 <= n <= caps.len(),
        capabilities_problem(caps.take(n)) is Some,
    ensures
        capabilities_problem(caps) == capabilities_problem(caps.take(n)),
    decreases caps.len() - n,
{
    if n < caps.len() {
        assert(caps.take(n + 1).drop_last() == caps.take(n));
        lemma_first_problem_stays(caps, n + 1);
    } else {
        assert(caps.take(n) == caps);
    }
}

proof fn lemma_first_field_problem_stays(fields: Seq<PluginConfigField>, n: int)
    requires
        0 <= n <= fields.len(),
        fields_problem(fields.take(n)) is Some,
    ensures
        fields_problem(fields) == fields_problem(fields.take(n)),
    decreases fields.len() - n,
{
    if n < fields.len() {
        assert(fields.take(n + 1).drop_last() == fields.take(n));
        lemma_first_field_problem_stays(fields, n + 1);
    } else {
        assert(fields.take(n) == fields);
    }
}

/// The icon file types a plugin may use.
pub open spec fn icon_type_supported(icon: Seq<char>) -> bool {
    let e = match extension(icon) {
        Some(e) => e,
        None => Seq::empty(),
    };
    ||| eq_ignore_ascii_case(e, "png"@)
    ||| eq_ignore_ascii_case(e, "jpg"@)
    ||| eq_ignore_ascii_case(e, "jpeg"@)
    ||| eq_ignore_ascii_case(e, "webp"@)
}

/// Checks the type of a plugin icon by its extension (`png`, `jpg`, `jpeg`
/// or `webp`, any ASCII case).
pub fn check_icon_type(icon: &str) -> (r: Result<(), String>)
    ensures
        r is Ok <==> icon_type_supported(icon@),
        r matches Err(e) ==> e@ == "Unsupported icon type: "@ + icon@,
{
    let e = match extension_exec(icon) {
        Some(e) => e,
        None => String::new(),
    };
    let s = e.as_str();
    if eq_ignore_ascii_case_exec(s, "png") || eq_ignore_ascii_case_exec(s, "jpg")
        || eq_ignore_ascii_case_exec(s, "jpeg") || eq_ignore_ascii_case_exec(s, "webp") {
        Ok(())
    } else {
        let mut m = "Unsupported icon type: ".to_string();
        m.append(icon);
        Err(m)
    }
}

// ---------------------------------------------------------------------------
// duplicates, order and settings
// ---------------------------------------------------------------------------

/// An id that two different candidates of one archive share.
pub open spec fn is_duplicated(ids: Seq<Seq<char>>, id: Seq<char>) -> bool {
    exists|i: int, j: int| #![trigger ids[i], ids[j]] 0 <= i < j < ids.len() && ids[i] == id && ids[j] == id
}

/// The ids that occur more than once, each once.
pub fn duplicate_ids(ids: &Vec<String>) -> (r: Vec<String>)
    ensures
        forall|id: Seq<char>| #![trigger is_duplicated(strings_view(ids@), id)]
            strings_view(r@).contains(id) <==> is_duplicated(strings_view(ids@), id),
        strings_view(r@).no_duplicates(),
{
    let ghost iv = strings_view(ids@);
    let mut out: Vec<String> = Vec::new();
    let mut j: usize = 0;
    while j < ids.len()
        invariant
            0 <= j <= ids@.len(),
            iv == strings_view(ids@),
            strings_view(out@).no_duplicates(),
            forall|id: Seq<char>| #![trigger is_duplicated(iv.take(j as int), id)]
                strings_view(out@).contains(id) <==> is_duplicated(iv.take(j as int), id),
        decreases ids.len() - j,
    {
        let ghost prev = strings_view(out@);
        let x = ids[j].as_str();
        assert(x@ == iv[j as int]);
        let seen_before = occurs_before(ids, j);
        let listed = contains_text(&out, x);
        let ghost t = iv.take(j as int);
        let ghost t1 = iv.take(j + 1);
        assert(t1 == t.push(x@));
        assert forall|id: Seq<char>| #![trigger is_duplicated(t1, id)]
            is_duplicated(t1, id) <==> (is_duplicated(t, id) || (id == x@ && seen_before)) by {
            if is_duplicated(t1, id) {
                let (a, b) = choose|a: int, b: int| #![trigger t1[a], t1[b]] 0 <= a < b < t1.len() && t1[a] == id && t1[b] == id;
                if b < j {
                    assert(t[a] == id && t[b] == id);
                } else {
                    assert(t[a] == x@);
                }
            }
            if is_duplicated(t, id) {
                let (a, b) = choose|a: int, b: int| #![trigger t[a], t[b]] 0 <= a < b < t.len() && t[a] == id && t[b] == id;
                assert(t1[a] == id && t1[b] == id);
            }
            if id == x@ && seen_before {
                let k = choose|k: int| 0 <= k < t.len() && t[k] == x@;
                assert(t1[k] == id && t1[j as int] == id);
            }
        }
        assert(seen_before ==> is_duplicated(t1, x@));
        if seen_before && !listed {
            out.push(ids[j].clone());
            assert(strings_view(out@) =~= prev.push(x@));
        } else {
            assert(strings_view(out@) == prev);
        }
        assert forall|id: Seq<char>| #![trigger is_duplicated(iv.take(j + 1), id)]
            strings_view(out@).contains(id) <==> is_duplicated(iv.take(j + 1), id) by {
            assert(is_duplicated(t1, id) <==> (is_duplicated(t, id) || (id == x@ && seen_before)));
            assert(prev.contains(id) <==> is_duplicated(iv.take(j as int), id));
            if listed {
                assert(prev.contains(x@));
                assert(is_duplicated(iv.take(j as int), x@));
            }
            if seen_before && !listed {
                let pushed = prev.push(x@);
                assert(strings_view(out@) == pushed);
                if prev.contains(id) {
                    let k = choose|k: int| 0 <= k < prev.len() && prev[k] == id;
                    assert(pushed[k] == id);
                }
                if id == x@ {
                    assert(pushed[prev.len() as int] == id);
                }
                if pushed.contains(id) {
                    let k = choose|k: int| 0 <= k < pushed.len() && pushed[k] == id;
                    if k < prev.len() {
                        assert(prev[k] == id);
                    }
                }
            }
        }
        j = j + 1;
    }
    assert(iv.take(ids@.len() as int) =~= iv);
    out
}

/// The settings a newly installed plugin starts with: each field that is
/// not a `markdown` note, as its key and its default value, in field order.
pub open spec fn default_settings_spec(fields: Seq<PluginConfigField>) -> Seq<(Seq<char>, Seq<char>)>
    decreases fields.len(),
{
    if fields.len() == 0 {
        Seq::empty()
    } else {
        let p = default_settings_spec(fields.drop_last());
        let f = fields.last();
        if f.field_type@ == "markdown"@ {
            p
        } else {
            p.push((f.key@, f.default_value@))
        }
    }
}

/// The settings a newly installed plugin starts with (see
/// [`default_settings_spec`]).
pub fn default_settings(manifest: &PluginManifest) -> (r: Vec<(String, String)>)
    ensures
        r@.map_values(|p: (String, String)| (p.0@, p.1@)) == default_settings_spec(
            manifest.config_fields@,
        ),
{
    let fields = &manifest.config_fields;
    let mut out: Vec<(String, String)> = Vec::new();
    let mut k: usize = 0;
    while k < fields.len()
        invariant
            0 <= k <= fields@.len(),
            out@.map_values(|p: (String, String)| (p.0@, p.1@)) == default_settings_spec(
                fields@.take(k as int),
            ),
        decreases fields.len() - k,
    {
        assert(fields@.take(k + 1).drop_last() == fields@.take(k as int));
        let f = &fields[k];
        if !str_eq(f.field_type.as_str(), "markdown") {
            let ghost prev = out@;
            out.push((f.key.clone(), f.default_value.clone()));
            assert(out@.map_values(|p: (String, String)| (p.0@, p.1@)) =~= prev.map_values(
                |p: (String, String)| (p.0@, p.1@),
            ).push((f.key@, f.default_value@)));
        }
        k = k + 1;
    }
    assert(fields@.take(fields@.len() as int) == fields@);
    out
}

/// The first problem of a new plugin order, id by id: an invalid id, or an
/// id given twice (`Duplicate plugin id in order: <id>`).
pub open spec fn order_problem(ids: Seq<Seq<char>>) -> Option<Seq<char>>
    decreases ids.len(),
{
    if ids.len() == 0 {
        None
    } else {
        match order_problem(ids.drop_last()) {
            Some(e) => Some(e),
            None => if !valid_plugin_id(ids.last()) {
                Some(plugin_id_error())
            } else if ids.drop_last().contains(ids.last()) {
                Some("Duplicate plugin id in order: "@ + ids.last())
            } else {
                None
            },
        }
    }
}

proof fn lemma_order_problem_stays(ids: Seq<Seq<char>>, n: int)
    requires
        0 <= n <= ids.len(),
        order_problem(ids.take(n)) is Some,
    ensures
        order_problem(ids) == order_problem(ids.take(n)),
    decreases ids.len() - n,
{
    if n < ids.len() {
        assert(ids.take(n + 1).drop_last() == ids.take(n));
        lemma_order_problem_stays(ids, n + 1);
    } else {
        assert(ids.take(n) == ids);
    }
}

/// Checks a new plugin order before it is stored (see [`order_problem`]).
pub fn check_plugin_order(plugin_ids: &Vec<String>) -> (r: Result<(), String>)
    ensures
        match r {
            Ok(()) => order_problem(strings_view(plugin_ids@)) is None,
            Err(e) => order_problem(strings_view(plugin_ids@)) == Some(e@),
        },
{
    let ghost iv = strings_view(plugin_ids@);
    let mut j: usize = 0;
    while j < plugin_ids.len()
        invariant
            0 <= j <= plugin_ids@.len(),
            iv == strings_view(plugin_ids@),
            order_problem(iv.take(j as int)) is None,
        decreases plugin_ids.len() - j,
    {
        let x = plugin_ids[j].as_str();
        let ghost t1 = iv.take(j + 1);
        assert(t1.drop_last() == iv.take(j as int));
        assert(t1.last() == x@);
        let v = validate_plugin_id(x);
        if let Err(e) = v {
            assert(order_problem(t1) == Some(e@));
            proof {
                lemma_order_problem_stays(iv, j + 1);
            }
            return Err(e);
        }
        if occurs_before(plugin_ids, j) {
            let mut e = "Duplicate plugin id in order: ".to_string();
            e.append(x);
            assert(order_problem(t1) == Some(e@));
            proof {
                lemma_order_problem_stays(iv, j + 1);
            }
            return Err(e);
        }
        j = j + 1;
    }
    assert(iv.take(plugin_ids@.len() as int) == iv);
    Ok(())
}

/// The candidate roots that lie strictly inside `source`, in order.
pub open spec fn nested_roots(source: Seq<char>, roots: Seq<Seq<char>>) -> Seq<Seq<char>>
    decreases roots.len(),
{
    if roots.len() == 0 {
        Seq::empty()
    } else {
        let p = nested_roots(source, roots.drop_last());
        let r = roots.last();
        if !path_eq(r, source) && path_starts_with(r, source) {
            p.push(r)
        } else {
            p
        }
    }
}

/// The directories to leave out when the plugin root `source` is copied:
/// the other candidate roots of the archive that lie inside it (the copy
/// itself is done by the caller).
pub fn copy_plugin_root(source: &str, candidate_roots: &Vec<String>) -> (r: Vec<String>)
    ensures
        strings_view(r@) == nested_roots(source@, strings_view(candidate_roots@)),
{
    let ghost rv = strings_view(candidate_roots@);
    let mut out: Vec<String> = Vec::new();
    let mut k: usize = 0;
    while k < candidate_roots.len()
        invariant
            0 <= k <= candidate_roots@.len(),
            rv == strings_view(candidate_roots@),
            strings_view(out@) == nested_roots(source@, rv.take(k as int)),
        decreases candidate_roots.len() - k,
    {
        assert(rv.take(k + 1).drop_last() == rv.take(k as int));
        assert(rv.take(k + 1).last() == candidate_roots@[k as int]@);
        let r = candidate_roots[k].as_str();
        if !path_eq_exec(r, source) && path_starts_with_exec(r, source) {
            let ghost before = strings_view(out@);
            out.push(candidate_roots[k].clone());
            assert(strings_view(out@) =~= before.push(r@));
        }
        k = k + 1;
    }
    assert(rv.take(candidate_roots@.len() as int) == rv);
    out
}

/// Whether an installed plugin keeps its version against an archive: an
/// older version is refused unless downgrades are allowed.
pub fn downgrade_refused(candidate_version: u32, installed_version: u32, allow_downgrade: bool) -> (r: bool)
    ensures
        r == (candidate_version < installed_version && !allow_downgrade),
{
    candidate_version < installed_version && !allow_downgrade
}

// ---------------------------------------------------------------------------
// sizes
// ---------------------------------------------------------------------------

/// The sum of the sizes.
pub open spec fn total_size(sizes: Seq<u64>) -> int
    decreases sizes.len(),
{
    if sizes.len() == 0 {
        0
    } else {
        total_size(sizes.drop_last()) + sizes.last()
    }
}

proof fn lemma_total_size_monotone(sizes: Seq<u64>, n: int)
    requires
        0 <= n <= sizes.len(),
    ensures
        total_size(sizes.take(n)) <= total_size(sizes),
    decreases sizes.len() - n,
{
    if n < sizes.len() {
        assert(sizes.take(n + 1).drop_last() == sizes.take(n));
        lemma_total_size_monotone(sizes, n + 1);
    } else {
        assert(sizes.take(n) == sizes);
    }
}

/// Checks the total size of an installed plugin's files against
/// [`MAX_PLUGIN_BYTES`] (the sizes are those of its files).
pub fn validate_plugin_size(sizes: &Vec<u64>) -> (r: Result<(), String>)
    ensures
        r is Ok <==> total_size(sizes@) <= MAX_PLUGIN_BYTES,
        r matches Err(e) ==> e@ == "Plugin is too large"@,
{
    let mut total: u64 = 0;
    let mut k: usize = 0;
    while k < sizes.len()
        invariant
            0 <= k <= sizes@.len(),
            total == total_size(sizes@.take(k as int)),
            total <= MAX_PLUGIN_BYTES,
        decreases sizes.len() - k,
    {
        assert(sizes@.take(k + 1).drop_last() == sizes@.take(k as int));
        if sizes[k] > MAX_PLUGIN_BYTES - total {
            proof {
                lemma_total_size_monotone(sizes@, k + 1);
            }
            return Err("Plugin is too large".to_string());
        }
        total = total + sizes[k];
        k = k + 1;
    }
    assert(sizes@.take(sizes@.len() as int) == sizes@);
    Ok(())
}

/// A suffix that makes staging and import directory names unique: the
/// current time in milliseconds.
pub fn unique_suffix() -> (r: u128)
    ensures
        r <= crate::clock::max_duration_millis(),
{
    system_millis()
}

/// An accepted plugin order names valid plugin ids, each once.
pub proof fn accepted_order_is_distinct(ids: Seq<Seq<char>>)
    requires
        order_problem(ids) is None,
    ensures
        ids.no_duplicates(),
        forall|i: int| 0 <= i < ids.len() ==> valid_plugin_id(#[trigger] ids[i]),
    decreases ids.len(),
{
    if ids.len() > 0 {
        let p = ids.drop_last();
        accepted_order_is_distinct(p);
        assert forall|i: int, j: int| 0 <= i < j < ids.len() implies ids[i] != ids[j] by {
            if j == ids.len() - 1 {
                assert(p[i] == ids[i]);
                assert(!p.contains(ids.last()));
            } else {
                assert(p[i] == ids[i] && p[j] == ids[j]);
            }
        }
        assert forall|i: int| 0 <= i < ids.len() implies valid_plugin_id(#[trigger] ids[i]) by {
            if i < ids.len() - 1 {
                assert(p[i] == ids[i]);
            }
        }
    }
}

} // verus!

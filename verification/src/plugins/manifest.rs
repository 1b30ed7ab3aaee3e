//! The source-plugin manifest and the records built from it.
use vstd::prelude::*;
use crate::json::{JsonValue, bool_text, push_bool_text};

verus! {

broadcast use vstd::string::group_string_axioms;

/// The plugin API version the host implements.
pub const PLUGIN_API_VERSION: u32 = 4;

/// The host API version the host implements.
pub const HOST_API_VERSION: u32 = 3;

/// A plugin's manifest.
#[derive(Debug)]
pub struct PluginManifest {
    pub id: String,
    pub name: String,
    pub version_code: u32,
    pub version_name: String,
    pub author: String,
    pub description: String,
    pub api_version: u32,
    pub min_host_api_version: u32,
    pub entry: String,
    pub include_dirs: Vec<String>,
    pub icon: Option<String>,
    pub capabilities: Vec<String>,
    pub config_fields: Vec<PluginConfigField>,
}

/// A settings field a plugin declares.
#[derive(Debug)]
pub struct PluginConfigField {
    pub key: String,
    pub title: String,
    pub summary: Option<String>,
    pub group: String,
    pub field_type: String,
    pub required: bool,
    pub default_value: String,
    pub options: Vec<PluginConfigOption>,
    pub dependency: Option<JsonValue>,
}

/// One choice of a dropdown settings field.
#[derive(Debug)]
pub struct PluginConfigOption {
    pub value: String,
    pub label: String,
    pub summary: String,
}

/// An installed plugin as the application lists it.
#[derive(Debug)]
pub struct SourcePlugin {
    pub manifest: PluginManifest,
    pub plugin_dir: String,
    pub icon_path: Option<String>,
    pub icon_data_url: Option<String>,
    pub enabled: bool,
    pub sort_order: i32,
    pub installed_at: String,
    pub updated_at: String,
    pub config: JsonValue,
}

/// A plugin of an archive that could not be installed, and why.
#[derive(Debug)]
pub struct PluginInstallFailure {
    pub root_path: String,
    pub reason: String,
    pub plugin_id: Option<String>,
}

/// What an archive installation did.
#[derive(Debug)]
pub struct PluginInstallResult {
    pub installed: Vec<SourcePlugin>,
    pub failed: Vec<PluginInstallFailure>,
}

/// The `minHostApiVersion` of a manifest that gives none: 1.
pub fn default_host_api_version() -> (r: u32)
    ensures
        r == 1,
{
    1
}

/// The `entry` of a manifest that gives none: `source.js`.
pub fn default_entry() -> (r: String)
    ensures
        r@ == "source.js"@,
{
    "source.js".to_string()
}

/// The message for a `defaultValue` that is neither text, boolean, number
/// nor null.
pub open spec fn config_default_error() -> Seq<char> {
    "plugin config defaultValue must be a string, boolean, number, or null"@
}

/// The text a `defaultValue` is stored as: a string as it is, a boolean or
/// number as its JSON text, null as the empty text; arrays and objects are
/// refused.
pub open spec fn config_default_spec(value: JsonValue) -> Result<Seq<char>, Seq<char>> {
    match value {
        JsonValue::Str(s) => Ok(s@),
        JsonValue::Bool(b) => Ok(bool_text(b)),
        JsonValue::Number(n) => Ok(n.text@),
        JsonValue::Null => Ok(Seq::empty()),
        _ => Err(config_default_error()),
    }
}

/// The text a settings field's `defaultValue` is stored as (see
/// [`config_default_spec`]).
pub fn config_default_text(value: &JsonValue) -> (r: Result<String, String>)
    ensures
        match r {
            Ok(s) => config_default_spec(*value) == Ok::<Seq<char>, Seq<char>>(s@),
            Err(e) => config_default_spec(*value) == Err::<Seq<char>, Seq<char>>(e@),
        },
{
    match value {
        JsonValue::Str(s) => Ok(s.clone()),
        JsonValue::Bool(b) => {
            let mut out = String::new();
            push_bool_text(&mut out, *b);
            Ok(out)
        },
        JsonValue::Number(n) => Ok(n.text.clone()),
        JsonValue::Null => Ok(String::new()),
        _ => Err("plugin config defaultValue must be a string, boolean, number, or null".to_string()),
    }
}

} // verus!

//! File formats: which format a path names, and parsing a layer's text
//! through the format crates.
use vstd::prelude::*;

use crate::error::Error;
use crate::strutil::{last_pos, lemma_last_pos, lower_spec, rfind_char, str_eq, to_lower};
use crate::value::{ConfigValue, SpecValue};

verus! {

/// The file formats a file data source accepts.
#[derive(Clone, Copy, PartialEq, Eq, Structural, Debug)]
pub enum FileFormat {
    Json,
    Toml,
    Yaml,
}

/// The extension of a path: what follows the last `.`, provided that dot
/// sits strictly inside the file name (so a leading-dot name has none).
pub open spec fn spec_extension(path: Seq<char>) -> Option<Seq<char>> {
    let slash = last_pos(path, '/');
    let dot = last_pos(path, '.');
    if dot > slash + 1 {
        Some(path.subrange(dot + 1, path.len() as int))
    } else {
        None
    }
}

/// The format an extension names, up to ASCII case.
pub open spec fn spec_format_of_ext(ext: Seq<char>) -> Option<FileFormat> {
    let l = lower_spec(ext);
    if l == "json"@ {
        Some(FileFormat::Json)
    } else if l == "toml"@ {
        Some(FileFormat::Toml)
    } else if l == "yaml"@ || l == "yml"@ {
        Some(FileFormat::Yaml)
    } else {
        None
    }
}

/// The format a path names through its extension.
pub open spec fn spec_file_format(path: Seq<char>) -> Option<FileFormat> {
    match spec_extension(path) {
        Some(ext) => spec_format_of_ext(ext),
        None => None,
    }
}

/// Decide which format a path names; an unusable or unknown extension is a
/// configuration error.
pub fn classify_path(path: &String) -> (r: Result<FileFormat, Error>)
    ensures
        match r {
            Ok(f) => spec_extension(path@) is Some && spec_format_of_ext(spec_extension(path@)->0)
                == Some(f),
            Err(e) => match spec_extension(path@) {
                None => e matches Error::UnknownFileType { path: p } && p@ == path@,
                Some(x) => spec_format_of_ext(x) is None && (e matches Error::UnknownFileExtension {
                    ext,
                } && ext@ == lower_spec(x)),
            },
        },
{
    proof {
        lemma_last_pos(path@, '/');
        lemma_last_pos(path@, '.');
    }
    let n = path.as_str().unicode_len();
    let slash: Option<usize> = rfind_char(path.as_str(), '/');
    let dot: Option<usize> = rfind_char(path.as_str(), '.');
    let start: usize = match dot {
        None => {
            return Err(Error::UnknownFileType { path: path.clone() });
        },
        Some(d) => {
            let usable = match slash {
                None => d > 0,
                Some(s) => d > s + 1,
            };
            if !usable {
                return Err(Error::UnknownFileType { path: path.clone() });
            }
            d + 1
        },
    };
    let ext = path.as_str().substring_char(start, n);
    let low = to_lower(ext);
    proof {
        reveal_strlit("json");
        reveal_strlit("toml");
        reveal_strlit("yaml");
        reveal_strlit("yml");
    }
    if str_eq(low.as_str(), "json") {
        Ok(FileFormat::Json)
    } else if str_eq(low.as_str(), "toml") {
        Ok(FileFormat::Toml)
    } else if str_eq(low.as_str(), "yaml") || str_eq(low.as_str(), "yml") {
        Ok(FileFormat::Yaml)
    } else {
        Err(Error::UnknownFileExtension { ext: low })
    }
}

#[verifier::external_type_specification]
#[verifier::external_body]
pub struct ExJsonValue(serde_json::Value);

/// Whether a text is well-formed JSON, as serde_json decides it.
pub uninterp spec fn json_accepts(text: Seq<char>) -> bool;

/// Whether a text is a TOML document that the toml crate parses and
/// serde_json carries over into a JSON value.
pub uninterp spec fn toml_accepts(text: Seq<char>) -> bool;

/// Whether a text is a YAML document that serde_yaml parses and
/// serde_json carries over into a JSON value.
pub uninterp spec fn yaml_accepts(text: Seq<char>) -> bool;

/// The tree a well-formed JSON text parses to, as `json_to_tree` carries
/// it over; a function of the text alone.
pub uninterp spec fn json_tree_of(text: Seq<char>) -> SpecValue;

/// The tree a well-formed TOML text parses to; a function of the text
/// alone.
pub uninterp spec fn toml_tree_of(text: Seq<char>) -> SpecValue;

/// The tree a well-formed YAML text parses to; a function of the text
/// alone.
pub uninterp spec fn yaml_tree_of(text: Seq<char>) -> SpecValue;

/// The conversion half of the three layer wrappers below, shared by
/// them. Relies on the variants of serde_json::Value: each is carried
/// into the library's tree, one arm at a time; a number beyond `i64` is
/// carried as serde's decimal rendering of it.
#[verifier::external_body]
fn json_to_tree(v: &serde_json::Value) -> ConfigValue {
    match v {
        serde_json::Value::Null => ConfigValue::Null,
        serde_json::Value::Bool(b) => ConfigValue::Bool(*b),
        serde_json::Value::Number(n) => match n.as_i64() {
            Some(i) => ConfigValue::Int(i),
            None => ConfigValue::Num(n.to_string()),
        },
        serde_json::Value::String(s) => ConfigValue::Text(s.clone()),
        serde_json::Value::Array(items) => ConfigValue::Sequence(
            items.iter().map(json_to_tree).collect(),
        ),
        serde_json::Value::Object(m) => ConfigValue::Tree(
            m.iter().map(|(k, x)| (k.clone(), json_to_tree(x))).collect(),
        ),
    }
}

/// Relies on serde_json::from_str and `json_to_tree`: whether JSON text
/// parses, and the tree it parses to, are functions of the text alone.
#[verifier::external_body]
fn json_layer(s: &str) -> (r: Option<ConfigValue>)
    ensures
        (r is Some) == json_accepts(s@),
        r matches Some(v) ==> v@ == json_tree_of(s@),
{
    serde_json::from_str::<serde_json::Value>(s).ok().map(|v| json_to_tree(&v))
}

/// Relies on toml::from_str, serde_json::to_value (the conversion every
/// TOML document without a non-finite float supports) and
/// `json_to_tree`: acceptance and the tree are functions of the text
/// alone.
#[verifier::external_body]
fn toml_layer(s: &str) -> (r: Option<ConfigValue>)
    ensures
        (r is Some) == toml_accepts(s@),
        r matches Some(v) ==> v@ == toml_tree_of(s@),
{
    toml::from_str::<toml::Value>(s)
        .ok()
        .and_then(|v| serde_json::to_value(v).ok())
        .map(|v| json_to_tree(&v))
}

/// Relies on serde_yaml::from_str, serde_json::to_value and
/// `json_to_tree`: acceptance and the tree are functions of the text
/// alone.
#[verifier::external_body]
fn yaml_layer(s: &str) -> (r: Option<ConfigValue>)
    ensures
        (r is Some) == yaml_accepts(s@),
        r matches Some(v) ==> v@ == yaml_tree_of(s@),
{
    serde_yaml::from_str::<serde_yaml::Value>(s)
        .ok()
        .and_then(|v| serde_json::to_value(v).ok())
        .map(|v| json_to_tree(&v))
}

/// Whether a text is well-formed in the given format.
pub open spec fn spec_accepts(fmt: FileFormat, text: Seq<char>) -> bool {
    match fmt {
        FileFormat::Json => json_accepts(text),
        FileFormat::Toml => toml_accepts(text),
        FileFormat::Yaml => yaml_accepts(text),
    }
}

/// The tree a well-formed text parses to in the given format.
pub open spec fn spec_tree_of(fmt: FileFormat, text: Seq<char>) -> SpecValue {
    match fmt {
        FileFormat::Json => json_tree_of(text),
        FileFormat::Toml => toml_tree_of(text),
        FileFormat::Yaml => yaml_tree_of(text),
    }
}

/// Parse one layer's text in the given format: exactly the well-formed
/// texts parse, to exactly that text's tree.
pub fn parse_text(fmt: FileFormat, text: &str) -> (r: Option<ConfigValue>)
    ensures
        (r is Some) == spec_accepts(fmt, text@),
        r matches Some(v) ==> v@ == spec_tree_of(fmt, text@),
{
    match fmt {
        FileFormat::Json => json_layer(text),
        FileFormat::Toml => toml_layer(text),
        FileFormat::Yaml => yaml_layer(text),
    }
}

} // verus!

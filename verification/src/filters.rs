//! The template filters' logic: turning a template value into bytes and
//! encoding it, and re-parsing embedded documents. The surrounding
//! program registers these on the engine, converting the engine's values
//! to and from the model here.
use vstd::prelude::*;

use crate::error::Error;
use crate::jsontext::hex_digit;
use crate::parse::{
    json_accepts, json_tree_of, parse_text, toml_accepts, toml_tree_of, yaml_accepts,
    yaml_tree_of, FileFormat,
};
use crate::value::ConfigValue;

verus! {

/// What a filter argument can be, as far as the byte filters read it: a
/// text, raw bytes, a sequence of numbers, or something else.
pub enum FilterValue {
    Text(String),
    Bytes(Vec<u8>),
    Sequence(Vec<FilterItem>),
    Other,
}

/// One element of a sequence argument.
pub enum FilterItem {
    Int(i64),
    Other,
}

/// The bytes a filter argument stands for: a text's UTF-8 bytes, raw
/// bytes as they are, or a sequence provided every element is a number
/// in a byte's range.
pub open spec fn spec_value_as_bytes(v: FilterValue) -> Option<Seq<u8>> {
    match v {
        FilterValue::Text(s) => Some(vstd::utf8::encode_utf8(s@)),
        FilterValue::Bytes(b) => Some(b@),
        FilterValue::Sequence(items) => if forall|i: int|
            0 <= i < items@.len() ==> (#[trigger] items@[i] matches FilterItem::Int(n) && 0 <= n
                <= 255) {
            Some(Seq::new(items@.len(), |i: int| items@[i]->Int_0 as u8))
        } else {
            None
        },
        FilterValue::Other => None,
    }
}

/// Read a filter argument as bytes, refusing anything that does not
/// stand for bytes.
pub fn value_as_bytes(value: &FilterValue) -> (r: Result<Vec<u8>, Error>)
    ensures
        match spec_value_as_bytes(*value) {
            Some(b) => r matches Ok(v) && v@ == b,
            None => r matches Err(e) && e is TemplateError,
        },
{
    match value {
        FilterValue::Text(s) => {
            let b = s.as_str().as_bytes_vec();
            Ok(b)
        },
        FilterValue::Bytes(b) => {
            let mut out: Vec<u8> = Vec::new();
            let mut i: usize = 0;
            while i < b.len()
                invariant
                    i <= b@.len(),
                    out@ == b@.subrange(0, i as int),
                decreases b@.len() - i,
            {
                out.push(b[i]);
                proof {
                    assert(out@ =~= b@.subrange(0, i as int + 1));
                }
                i = i + 1;
            }
            proof {
                assert(b@.subrange(0, b@.len() as int) =~= b@);
            }
            Ok(out)
        },
        FilterValue::Sequence(items) => {
            let mut out: Vec<u8> = Vec::new();
            let mut i: usize = 0;
            while i < items.len()
                invariant
                    *value == FilterValue::Sequence(*items),
                    i <= items@.len(),
                    out@.len() == i,
                    forall|j: int|
                        0 <= j < i ==> (#[trigger] items@[j] matches FilterItem::Int(n) && 0 <= n
                            <= 255 && out@[j] == n as u8),
                decreases items@.len() - i,
            {
                match &items[i] {
                    FilterItem::Int(n) => {
                        if *n < 0 || *n > 255 {
                            proof {
                                bad_item_refutes(items@, i as int);
                            }
                            return Err(
                                Error::TemplateError(
                                    String::from_str("invalid sequence (not a byte)"),
                                ),
                            );
                        }
                        out.push(*n as u8);
                    },
                    FilterItem::Other => {
                        proof {
                            bad_item_refutes(items@, i as int);
                        }
                        return Err(
                            Error::TemplateError(String::from_str("invalid sequence (not numeric)")),
                        );
                    },
                }
                i = i + 1;
            }
            proof {
                assert(out@ =~= Seq::new(items@.len(), |j: int| items@[j]->Int_0 as u8));
            }
            Ok(out)
        },
        FilterValue::Other => Err(
            Error::TemplateError(String::from_str("invalid input for a byte filter")),
        ),
    }
}

/// One unusable element refutes a sequence argument as a whole.
proof fn bad_item_refutes(items: Seq<FilterItem>, i: int)
    requires
        0 <= i < items.len(),
        !(items[i] matches FilterItem::Int(n) && 0 <= n <= 255),
    ensures
        !(forall|j: int|
            0 <= j < items.len() ==> (#[trigger] items[j] matches FilterItem::Int(n) && 0 <= n
                <= 255)),
{
    if forall|j: int|
        0 <= j < items.len() ==> (#[trigger] items[j] matches FilterItem::Int(n) && 0 <= n <= 255) {
        assert(items[i] matches FilterItem::Int(n) && 0 <= n <= 255);
    }
}

/// The lowercase hexadecimal text of a byte string: two digits per byte.
pub open spec fn spec_hex(bytes: Seq<u8>) -> Seq<char> {
    Seq::new(
        bytes.len() * 2,
        |i: int|
            if i % 2 == 0 {
                hex_digit((bytes[i / 2] / 16) as int)
            } else {
                hex_digit((bytes[i / 2] % 16) as int)
            },
    )
}

/// Relies on hex::encode: two lowercase hexadecimal digits per byte, in
/// order — exactly `spec_hex`.
#[verifier::external_body]
fn hex_encode_bytes(bytes: &Vec<u8>) -> (r: String)
    ensures
        r@ == spec_hex(bytes@),
{
    hex::encode(bytes)
}

/// The standard base64 text of a byte string, as the base64 crate's
/// padded alphabet writes it; a function of the bytes alone.
pub uninterp spec fn base64_of(bytes: Seq<u8>) -> Seq<char>;

/// Relies on base64's STANDARD engine: a padded encoding, four output
/// characters for every started group of three input bytes, a function
/// of the bytes alone.
#[verifier::external_body]
fn base64_encode_bytes(bytes: &Vec<u8>) -> (r: String)
    ensures
        r@ == base64_of(bytes@),
        r@.len() == 4 * ((bytes@.len() + 2) / 3),
{
    base64::Engine::encode(&base64::engine::general_purpose::STANDARD, bytes)
}

/// The `hexencode` filter: the argument's bytes in lowercase hex.
pub fn hexencode(value: &FilterValue) -> (r: Result<String, Error>)
    ensures
        match spec_value_as_bytes(*value) {
            Some(b) => r matches Ok(s) && s@ == spec_hex(b),
            None => r matches Err(e) && e is TemplateError,
        },
{
    match value_as_bytes(value) {
        Ok(b) => Ok(hex_encode_bytes(&b)),
        Err(e) => Err(e),
    }
}

/// The `base64encode` filter: the argument's bytes in standard base64.
pub fn base64encode(value: &FilterValue) -> (r: Result<String, Error>)
    ensures
        match spec_value_as_bytes(*value) {
            Some(b) => r matches Ok(s) && s@ == base64_of(b),
            None => r matches Err(e) && e is TemplateError,
        },
{
    match value_as_bytes(value) {
        Ok(b) => Ok(base64_encode_bytes(&b)),
        Err(e) => Err(e),
    }
}

/// The `from_json` filter: parse an embedded JSON text into its value.
pub fn from_json(value: &str) -> (r: Result<ConfigValue, Error>)
    ensures
        (r is Ok) == json_accepts(value@),
        r matches Ok(v) ==> v@ == json_tree_of(value@),
        r matches Err(e) ==> e is TemplateError,
{
    match parse_text(FileFormat::Json, value) {
        Some(v) => Ok(v),
        None => Err(Error::TemplateError(String::from_str("could not deserialize"))),
    }
}

/// The `from_yaml` filter: parse an embedded YAML text into its value.
pub fn from_yaml(value: &str) -> (r: Result<ConfigValue, Error>)
    ensures
        (r is Ok) == yaml_accepts(value@),
        r matches Ok(v) ==> v@ == yaml_tree_of(value@),
        r matches Err(e) ==> e is TemplateError,
{
    match parse_text(FileFormat::Yaml, value) {
        Some(v) => Ok(v),
        None => Err(Error::TemplateError(String::from_str("could not deserialize"))),
    }
}

/// The `from_toml` filter: parse an embedded TOML text into its value.
pub fn from_toml(value: &str) -> (r: Result<ConfigValue, Error>)
    ensures
        (r is Ok) == toml_accepts(value@),
        r matches Ok(v) ==> v@ == toml_tree_of(value@),
        r matches Err(e) ==> e is TemplateError,
{
    match parse_text(FileFormat::Toml, value) {
        Some(v) => Ok(v),
        None => Err(Error::TemplateError(String::from_str("could not deserialize"))),
    }
}

} // verus!

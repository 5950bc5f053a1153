use vstd::prelude::*;

use serde::Deserialize;
use serde_json::Value as JsonVal;
use serde_yaml::Value as YamlVal;

use crate::value::{Val, Node};
use crate::Error;

verus! {

broadcast use vstd::seq::group_seq_axioms;

#[verifier::external_type_specification]
#[verifier::external_body]
pub struct ExJsonValue(serde_json::Value);

#[verifier::external_type_specification]
#[verifier::external_body]
pub struct ExYamlValue(serde_yaml::Value);

/// The document stream a byte source holds in the multi-document source
/// format, or nothing when the bytes are not well formed there.
pub uninterp spec fn yaml_src(bytes: Seq<u8>) -> Option<Seq<Val>>;

/// The single document a byte source holds in the value-tree source format,
/// or nothing when the bytes are not one well-formed document.
pub uninterp spec fn json_doc(bytes: Seq<u8>) -> Option<Val>;

/// The sequence of back-to-back value-tree tokens a byte stream holds, or
/// nothing when some token is not well formed.
pub uninterp spec fn json_tokens(bytes: Seq<u8>) -> Option<Seq<Val>>;

/// The single document a byte source holds in the config-table source
/// format, or nothing when the bytes are not one well-formed document.
pub uninterp spec fn toml_doc(bytes: Seq<u8>) -> Option<Val>;

/// Whether a canonical numeral has a reading under the value-tree number
/// grammar.
pub uninterp spec fn num_ok(s: Seq<char>) -> bool;

/// Whether a canonical value can be carried back into a value tree: every
/// numeral in it must have a value-tree reading.  The encoders below succeed
/// on exactly these values (the config-table one also needs a shape that
/// format can carry).
pub open spec fn encodable(v: Val) -> bool
    decreases v,
{
    match v {
        Val::Num(s) => num_ok(s),
        Val::Arr(items) => forall|i: int| 0 <= i < items.len() ==> encodable(#[trigger] items[i]),
        Val::Dict(es) => forall|i: int| 0 <= i < es.len() ==> encodable((#[trigger] es[i]).1),
        _ => true,
    }
}

/// The value-tree encoding of an encodable canonical value.
pub uninterp spec fn json_bytes(v: Val) -> Seq<u8>;

/// The block-style document encoding of an encodable canonical value.
pub uninterp spec fn yaml_bytes(v: Val) -> Seq<u8>;

/// The config-table encoding of a canonical value, or nothing where that
/// format cannot carry it (a top-level scalar, a null).
pub uninterp spec fn toml_bytes(v: Val) -> Option<Seq<u8>>;

/// The text read from a byte sequence, ill-formed sections replaced.
pub uninterp spec fn lossy_text(bytes: Seq<u8>) -> Seq<char>;

/// Carries one mapping entry of a parsed document over; part of
/// `yaml_parse_docs` below.  Only string keys are accepted.
#[verifier::external_body]
fn yaml_entry(k: YamlVal, x: YamlVal) -> (r: Result<(String, Node), Error>) {
    match k {
        YamlVal::String(ks) => Ok((ks, yaml_to_value(x)?)),
        _ => Err(Error::Parse("mapping keys must be strings".to_owned())),
    }
}

/// Carries one parsed document of the multi-document format over into the
/// canonical value; part of `yaml_parse_docs` below.  String keys only; tags
/// are dropped in favour of the tagged value.
#[verifier::external_body]
fn yaml_to_value(y: YamlVal) -> (r: Result<Node, Error>) {
    match y {
        YamlVal::Null => Ok(Node::Null),
        YamlVal::Bool(b) => Ok(Node::Bool(b)),
        YamlVal::Number(n) => Ok(Node::Number(n.to_string())),
        YamlVal::String(s) => Ok(Node::Text(s)),
        YamlVal::Sequence(xs) => Ok(Node::Sequence(xs.into_iter().map(yaml_to_value).collect::<Result<_, _>>()?)),
        YamlVal::Mapping(m) => Ok(Node::Mapping(m.into_iter().map(|(k, x)| yaml_entry(k, x)).collect::<Result<_, _>>()?)),
        YamlVal::Tagged(t) => yaml_to_value(t.value),
    }
}

/// Carries a parsed value tree over into the canonical value; part of the
/// parsing wrappers below.
#[verifier::external_body]
fn json_to_value(j: JsonVal) -> (r: Node) {
    match j {
        JsonVal::Null => Node::Null,
        JsonVal::Bool(b) => Node::Bool(b),
        JsonVal::Number(n) => Node::Number(n.to_string()),
        JsonVal::String(s) => Node::Text(s),
        JsonVal::Array(a) => Node::Sequence(
            a.into_iter().map(json_to_value).collect(),
        ),
        JsonVal::Object(o) => Node::Mapping(
            o.into_iter().map(|(k, x)| (k, json_to_value(x))).collect(),
        ),
    }
}

/// Relies on the value-tree number grammar (`FromStr` of the number type):
/// a canonical numeral reads back exactly when `num_ok` holds of its text;
/// part of `value_to_json` below.
#[verifier::external_body]
fn json_num(s: &String) -> (r: Result<JsonVal, Error>)
    ensures
        r is Ok <==> num_ok(s@),
        r matches Err(e) ==> e is Encode,
{
    match s.parse::<serde_json::Number>() {
        Ok(n) => Ok(JsonVal::Number(n)),
        Err(e) => Err(Error::Encode(e.to_string())),
    }
}

/// Carries one mapping entry into a value-tree object entry; part of
/// `value_to_json` below.
#[verifier::external_body]
fn json_entry(k: &String, x: &Node) -> (r: Result<(String, JsonVal), Error>) {
    match value_to_json(x) {
        Ok(j) => Ok((k.clone(), j)),
        Err(e) => Err(e),
    }
}

/// Carries a canonical value into a value tree for the encoders below; fails
/// on a numeral the value-tree grammar cannot read back.
#[verifier::external_body]
fn value_to_json(v: &Node) -> (r: Result<JsonVal, Error>) {
    match v {
        Node::Null => Ok(JsonVal::Null),
        Node::Bool(b) => Ok(JsonVal::Bool(*b)),
        Node::Number(s) => json_num(s),
        Node::Text(s) => Ok(JsonVal::String(s.clone())),
        Node::Sequence(xs) => Ok(JsonVal::Array(xs.iter().map(value_to_json).collect::<Result<_, _>>()?)),
        Node::Mapping(es) => Ok(JsonVal::Object(es.iter().map(|(k, x)| json_entry(k, x)).collect::<Result<_, _>>()?)),
    }
}

/// Relies on serde_yaml's multi-document `Deserializer`: one document per
/// section of the source (an empty source reads as one null document), an
/// error for a malformed source or a duplicate key; keys are thus unique.
#[verifier::external_body]
pub(crate) fn yaml_parse_docs(bytes: &[u8]) -> (r: Result<Vec<Node>, Error>)
    ensures
        r is Ok <==> yaml_src(bytes@) is Some,
        r matches Ok(docs) ==> Some(crate::value::views_of(docs@)) == yaml_src(bytes@),
        r matches Ok(docs) ==> forall|i: int|
            0 <= i < docs@.len() ==> crate::value::wf((#[trigger] docs@[i]).deep()),
        r matches Err(e) ==> e is Parse,
{
    let mut docs: Vec<Node> = Vec::new();
    for de in serde_yaml::Deserializer::from_slice(bytes) {
        match serde_yaml::Value::deserialize(de) {
            Ok(y) => match yaml_to_value(y) {
                Ok(v) => docs.push(v),
                Err(e) => return Err(e),
            },
            Err(e) => return Err(Error::Parse(e.to_string())),
        }
    }
    Ok(docs)
}

/// Relies on serde_json::from_slice: exactly one well-formed value tree, an
/// error otherwise — in particular for an empty source; object keys are
/// unique, a repeated key keeping its last value.
#[verifier::external_body]
pub(crate) fn json_parse_one(bytes: &[u8]) -> (r: Result<Node, Error>)
    ensures
        r is Ok <==> json_doc(bytes@) is Some,
        r matches Ok(v) ==> Some(v@) == json_doc(bytes@) && crate::value::wf(v@),
        bytes@.len() == 0 ==> r is Err,
        r matches Err(e) ==> e is Parse,
{
    match serde_json::from_slice::<JsonVal>(bytes) {
        Ok(j) => Ok(json_to_value(j)),
        Err(e) => Err(Error::Parse(e.to_string())),
    }
}

/// Relies on serde_json's `StreamDeserializer`: the value trees written
/// back to back in the stream, none at all for an empty stream, an error as
/// soon as one token is not well formed.
#[verifier::external_body]
pub(crate) fn json_parse_stream(bytes: &[u8]) -> (r: Result<Vec<Node>, Error>)
    ensures
        r is Ok <==> json_tokens(bytes@) is Some,
        r matches Ok(docs) ==> Some(crate::value::views_of(docs@)) == json_tokens(bytes@),
        r matches Ok(docs) ==> forall|i: int|
            0 <= i < docs@.len() ==> crate::value::wf((#[trigger] docs@[i]).deep()),
        bytes@.len() == 0 ==> r is Ok,
        r matches Ok(docs) ==> (bytes@.len() == 0 ==> docs@.len() == 0),
        r matches Err(e) ==> e is Encode,
{
    let mut docs: Vec<Node> = Vec::new();
    for item in serde_json::Deserializer::from_slice(bytes).into_iter::<JsonVal>() {
        match item {
            Ok(j) => docs.push(json_to_value(j)),
            Err(e) => return Err(Error::Encode(e.to_string())),
        }
    }
    Ok(docs)
}

/// Relies on toml's `Table` parser, its result read through a value tree:
/// one table per source, an error for malformed text — including a source
/// that is not text at all.
#[verifier::external_body]
pub(crate) fn toml_parse(bytes: &[u8]) -> (r: Result<Node, Error>)
    ensures
        r is Ok <==> toml_doc(bytes@) is Some,
        r matches Ok(v) ==> Some(v@) == toml_doc(bytes@) && crate::value::wf(v@),
        r matches Ok(v) ==> v@ is Dict,
        r matches Err(e) ==> e is Parse,
{
    let text = match core::str::from_utf8(bytes) {
        Ok(t) => t,
        Err(e) => return Err(Error::Parse(e.to_string())),
    };
    let table: toml::Table = match text.parse() {
        Ok(t) => t,
        Err(e) => return Err(Error::Parse(e.to_string())),
    };
    match table.try_into::<JsonVal>() {
        Ok(j) => Ok(json_to_value(j)),
        Err(e) => Err(Error::Parse(e.to_string())),
    }
}

/// Relies on serde_json::to_vec over the canonical value carried back into
/// a value tree: the value's one compact encoding.  Serializing a value tree
/// to a byte buffer cannot fail, so the call succeeds exactly when every
/// numeral reads back (`encodable`).
#[verifier::external_body]
pub(crate) fn json_encode(v: &Node) -> (r: Result<Vec<u8>, Error>)
    ensures
        r is Ok <==> encodable(v@),
        r matches Ok(b) ==> b@ == json_bytes(v@),
        r matches Err(e) ==> e is Encode,
{
    let j = match value_to_json(v) {
        Ok(j) => j,
        Err(e) => return Err(e),
    };
    match serde_json::to_vec(&j) {
        Ok(b) => Ok(b),
        Err(e) => Err(Error::Encode(e.to_string())),
    }
}

/// Relies on serde_yaml::to_string over the canonical value carried back
/// into a value tree: the value's one block-style encoding.  Its serializer
/// errs only on byte-strings and nested enums, which a value tree never
/// holds, so the call succeeds exactly when every numeral reads back
/// (`encodable`).
#[verifier::external_body]
pub(crate) fn yaml_encode(v: &Node) -> (r: Result<Vec<u8>, Error>)
    ensures
        r is Ok <==> encodable(v@),
        r matches Ok(b) ==> b@ == yaml_bytes(v@),
        r matches Err(e) ==> e is Encode,
{
    let j = match value_to_json(v) {
        Ok(j) => j,
        Err(e) => return Err(e),
    };
    match serde_yaml::to_string(&j) {
        Ok(s) => Ok(s.into_bytes()),
        Err(e) => Err(Error::Encode(e.to_string())),
    }
}

/// Relies on toml::to_string over the canonical value carried back into a
/// value tree: the value's one config-table encoding, an error where that
/// format cannot carry the value's shape or a numeral does not read back.
#[verifier::external_body]
pub(crate) fn toml_encode(v: &Node) -> (r: Result<Vec<u8>, Error>)
    ensures
        r is Ok <==> (encodable(v@) && toml_bytes(v@) is Some),
        r matches Ok(b) ==> Some(b@) == toml_bytes(v@),
        r matches Err(e) ==> e is Encode,
{
    let j = match value_to_json(v) {
        Ok(j) => j,
        Err(e) => return Err(e),
    };
    match toml::to_string(&j) {
        Ok(s) => Ok(s.into_bytes()),
        Err(e) => Err(Error::Encode(e.to_string())),
    }
}

/// Relies on String::from_utf8_lossy: well-formed text is carried over
/// unchanged, so bytes below 128 read as exactly those characters.
#[verifier::external_body]
pub(crate) fn utf8_lossy(bytes: &[u8]) -> (r: String)
    ensures
        r@ == lossy_text(bytes@),
        (forall|i: int| 0 <= i < bytes@.len() ==> (#[trigger] bytes@[i]) < 128) ==> r@
            == bytes@.map_values(|b: u8| b as char),
{
    String::from_utf8_lossy(bytes).into_owned()
}

} // verus!

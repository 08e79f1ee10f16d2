//! The trusted boundary to the YAML parser: text in, document tree out.
//!
//! Everything behind this boundary is the outside parser's work; the
//! schema rules themselves are verified in [`crate::loader`] over the
//! transparent [`YamlNode`] tree.

use vstd::prelude::*;
use crate::celestial::{ObjModel, Object};
use crate::doc::YamlNode;
use crate::loader::{load_doc, res_model, spec_load, ErrModel, LoadError};

verus! {

#[verifier::external_type_specification]
#[verifier::external_body]
pub struct ExValue(serde_yaml::Value);

/// What parsing a text as YAML yields, as a document tree: the outcome
/// depends on the characters alone; an unparseable text is `None`.
pub uninterp spec fn yaml_tree_of(s: Seq<char>) -> Option<YamlNode>;

/// Relies on serde_yaml::Value: each variant is moved into the matching
/// library node, a tag wrapper is unwrapped, and a number is carried as
/// the decimal text that serde_yaml displays for it.
#[verifier::external_body]
fn value_to_node(v: serde_yaml::Value) -> YamlNode {
    match v {
        serde_yaml::Value::Null => YamlNode::Null,
        serde_yaml::Value::Bool(b) => YamlNode::Bool(b),
        serde_yaml::Value::Number(n) => YamlNode::Num(n.to_string()),
        serde_yaml::Value::String(s) => YamlNode::Str(s),
        serde_yaml::Value::Sequence(xs) => YamlNode::Sequence(
            xs.into_iter().map(value_to_node).collect(),
        ),
        serde_yaml::Value::Mapping(m) => YamlNode::Mapping(
            m.into_iter().map(|(k, w)| (value_to_node(k), value_to_node(w))).collect(),
        ),
        serde_yaml::Value::Tagged(t) => value_to_node(t.value),
    }
}

/// Relies on serde_yaml::from_str: the text is parsed as one YAML value,
/// deterministically from the characters alone; a parse error is `None`.
#[verifier::external_body]
fn parse_yaml_text(s: &str) -> (r: Option<YamlNode>)
    ensures
        r == yaml_tree_of(s@),
{
    serde_yaml::from_str::<serde_yaml::Value>(s).ok().map(value_to_node)
}

/// Load a celestial tree from a document text: parse the text as YAML,
/// then apply the verified schema rules of [`crate::loader::load_doc`].
pub fn load_str(text: &str) -> (r: Result<Object, LoadError>)
    ensures
        match yaml_tree_of(text@) {
            Option::Some(doc) => res_model(r) == spec_load(doc),
            Option::None => res_model(r) == Err::<ObjModel, ErrModel>(
                ErrModel::MalformedInput("Failed to parse YAML"@),
            ),
        },
{
    match parse_yaml_text(text) {
        Option::Some(doc) => load_doc(&doc),
        Option::None => Err(LoadError::MalformedInput("Failed to parse YAML".to_owned())),
    }
}

} // verus!

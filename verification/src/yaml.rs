//! The trusted boundary to the document parser and serializer.
//!
//! Parsing and rendering a document are functions of their argument alone, so
//! each gets a name here; the wrappers' contracts speak over those names and
//! the verified loader builds on them.  The parsed generic value is converted
//! to the library's own tree, variant by variant: integers split by sign,
//! floating-point numbers carried as their decimal text, enum tags dropped
//! and non-string mapping keys read as empty text.

use vstd::prelude::*;

use serde_yaml::Value as Yaml;

use crate::value::{canonical, float_free, Node, NodeV};

verus! {

#[verifier::external_type_specification]
#[verifier::external_body]
pub struct ExYamlValue(Yaml);

/// The library tree that a parsed document value represents.
pub uninterp spec fn value_tree(v: Yaml) -> NodeV;

/// The tree a document text parses to, or `None` where its syntax is
/// invalid.
pub uninterp spec fn parsed_doc(s: Seq<char>) -> Option<NodeV>;

/// The text the serializer renders a canonical tree to.
pub uninterp spec fn rendered_doc(n: NodeV) -> Seq<char>;

/// The text the serializer renders a document value to.
pub uninterp spec fn rendered_value(v: Yaml) -> Seq<char>;

/// Whether the serializer succeeds on a document value.
pub uninterp spec fn renderable(v: Yaml) -> bool;

/// Relies on serde_yaml::from_str: parsing is a function of the text alone
/// and succeeds exactly where the text is a well-formed document.
#[verifier::external_body]
pub(crate) fn parse_yaml_value(s: &str) -> (r: Result<Yaml, String>)
    ensures
        (r is Ok) == (parsed_doc(s@) is Some),
        r matches Ok(v) ==> Some(value_tree(v)) == parsed_doc(s@),
{
    serde_yaml::from_str::<Yaml>(s).map_err(|e| e.to_string())
}

/// Relies on the shape of serde_yaml::Value: each variant is moved across,
/// one arm each, into the library's tree.
#[verifier::external_body]
pub(crate) fn node_of_value(v: Yaml) -> (n: Node)
    ensures
        n@ == value_tree(v),
{
    match v {
        Yaml::Null => Node::Null,
        Yaml::Bool(b) => Node::Bool(b),
        Yaml::Number(x) => match x.as_u64() {
            Some(u) => Node::UInt(u),
            _ => x.as_i64().map_or(Node::Float(x.to_string()), Node::Int),
        },
        Yaml::String(s) => Node::Str(s),
        Yaml::Sequence(xs) => Node::Sequence(xs.into_iter().map(node_of_value).collect()),
        Yaml::Mapping(m) => Node::Mapping(
            m.into_iter().map(|(k, w)| (k.as_str().unwrap_or_default().to_owned(), node_of_value(w))).collect(),
        ),
        Yaml::Tagged(t) => node_of_value(t.value),
    }
}

/// Relies on the shape of serde_yaml::Value: each variant of a canonical
/// tree is built back, one arm each.  A canonical tree's keys stay pairwise
/// distinct in the mapping and its negative integers read back as `Int`, so
/// the built value represents the tree it came from where no float text
/// intervenes; the construction is deterministic and trees are read
/// one-to-one from nodes, so the built value's rendering is a function of
/// the tree, named `rendered_doc`; and the value holds only null, booleans,
/// numbers, strings, sequences and string-keyed mappings, which the
/// serializer always accepts (its only failure paths are raw bytes, nested
/// enums and sink errors, and it falls back to double-quoted style for any
/// string), named by `renderable` holding.
#[verifier::external_body]
pub(crate) fn value_of_node(n: &Node) -> (v: Yaml)
    requires
        canonical(n@),
    ensures
        renderable(v),
        rendered_value(v) == rendered_doc(n@),
        float_free(n@) ==> value_tree(v) == n@,
{
    match n {
        Node::Null => Yaml::Null,
        Node::Bool(b) => Yaml::Bool(*b),
        Node::UInt(u) => Yaml::Number((*u).into()),
        Node::Int(i) => Yaml::Number((*i).into()),
        Node::Float(t) => serde_yaml::from_str(t).unwrap_or(Yaml::Null),
        Node::Str(s) => Yaml::String(s.clone()),
        Node::Sequence(xs) => Yaml::Sequence(xs.iter().map(value_of_node).collect()),
        Node::Mapping(m) => Yaml::Mapping(
            m.iter().map(|(k, w)| (Yaml::String(k.clone()), value_of_node(w))).collect(),
        ),
    }
}

/// Relies on serde_yaml::to_string: whether rendering succeeds, and the
/// text it produces, are functions of the value alone.
#[verifier::external_body]
pub(crate) fn yaml_to_text(v: &Yaml) -> (r: Result<String, String>)
    ensures
        (r is Ok) == renderable(*v),
        r matches Ok(s) ==> s@ == rendered_value(*v),
{
    serde_yaml::to_string(v).map_err(|e| e.to_string())
}

} // verus!

//! The document loader's core: parse a document text, expand every string
//! leaf against the environment snapshot, and re-render the expanded tree so
//! that a later typed-deserialization failure can be reported with line
//! context.

use vstd::prelude::*;

use crate::context::{context_report, doc_lines, render_context_report, split_lines};
use crate::envmap::EnvMap;
use crate::expand::{expand, expand_node};
use crate::expand::lemma_expand_preserves_canonical;
use crate::text::strs_view;
use crate::value::{canonical, float_free, is_canonical, Node};
use crate::yaml::{node_of_value, parse_yaml_value, parsed_doc, rendered_doc, value_of_node,
    yaml_to_text};

verus! {

/// What can go wrong while resolving a document: invalid syntax (carrying
/// the parser's message), or a well-formed document whose parsed tree is not
/// canonical — a mapping key repeats, which also covers non-string keys that
/// all read as the same empty text.
#[derive(Debug, PartialEq, Eq)]
pub enum ConfigError {
    Parse(String),
    Keys,
}

/// A resolved document: the expanded tree and its rendering back to text.
pub struct ResolvedDoc {
    pub tree: Node,
    pub text: String,
}

/// Parses `text`, expands every string leaf against `env` (positional
/// override first, then marker substitution, then coercion of changed text)
/// and renders the expanded tree back to text.  Succeeds exactly on texts
/// that parse to a canonical tree.
pub fn resolve_document(text: &str, env: &EnvMap) -> (r: Result<ResolvedDoc, ConfigError>)
    ensures
        (r is Ok) == (parsed_doc(text@) matches Some(t) && canonical(t)),
        r matches Ok(d) ==> {
            &&& parsed_doc(text@) matches Some(t) && d.tree@ == expand_node(
                t,
                Seq::empty(),
                env@,
            )
            &&& (float_free(d.tree@) ==> d.text@ == rendered_doc(d.tree@))
        },
        r matches Err(e) ==> match e {
            ConfigError::Parse(_) => parsed_doc(text@) is None,
            ConfigError::Keys => parsed_doc(text@) matches Some(t) && !canonical(t),
        },
{
    let value = match parse_yaml_value(text) {
        Ok(v) => v,
        Err(m) => {
            return Err(ConfigError::Parse(m));
        },
    };
    let tree = node_of_value(value);
    if !is_canonical(&tree) {
        return Err(ConfigError::Keys);
    }
    let expanded = expand(&tree, env);
    proof {
        lemma_expand_preserves_canonical(tree@, Seq::empty(), env@);
    }
    let out_value = value_of_node(&expanded);
    let rendered = match yaml_to_text(&out_value) {
        Ok(s) => s,
        Err(_) => {
            // never taken: the value built from a canonical tree renders
            return Err(ConfigError::Keys);
        },
    };
    Ok(ResolvedDoc { tree: expanded, text: rendered })
}

/// The context report for a typed-deserialization failure at `err_line`
/// (1-based) of the rendered document `doc`; `None` when the line lies
/// outside the document.
pub fn deserialize_error_report(err: &str, doc: &str, err_line: usize) -> (r: Option<String>)
    ensures
        r matches Some(msg) ==> 1 <= err_line <= doc_lines(doc@).len() && msg@
            == context_report(err@, doc_lines(doc@), err_line as int),
        r is None ==> !(1 <= err_line <= doc_lines(doc@).len()) || doc_lines(doc@).len()
            > usize::MAX - 5,
{
    let lines = split_lines(doc);
    proof {
        assert(strs_view(lines@) == doc_lines(doc@));
        assert(lines@.len() == strs_view(lines@).len());
    }
    if err_line < 1 || err_line > lines.len() || lines.len() > usize::MAX - 5 {
        return None;
    }
    Some(render_context_report(err, &lines, err_line))
}

} // verus!

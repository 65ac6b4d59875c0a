//! The recursive walk over a document tree: every string leaf is rewritten,
//! either by a positional override (an environment variable named after the
//! leaf's path) or by marker substitution, and the changed text is coerced;
//! sequences recurse with the path unchanged and mappings extend the path by
//! each upper-cased key.

use vstd::prelude::*;

use crate::coerce::{coerce, coerced};
use crate::envmap::{env_value, EnvMap};
use crate::subst::{marker_free, subst_text, substitute};
use crate::value::{canonical, lemma_canonical_mapping, lemma_canonical_sequence,
    lemma_nodes_view, lemma_pairs_view, node_view, nodes_view, pairs_view, Node, NodeV};

verus! {

broadcast use vstd::std_specs::vec::axiom_vec_index_decreases;

/// The Unicode upper-case form of a string's characters.
pub uninterp spec fn unicode_upper(s: Seq<char>) -> Seq<char>;

/// Relies on str::to_uppercase: the Unicode upper-case form of the text,
/// a function of its characters alone.
#[verifier::external_body]
fn to_upper(s: &str) -> (r: String)
    ensures
        r@ == unicode_upper(s@),
{
    s.to_uppercase()
}

/// The environment-variable name of a path: its segments upper-cased and
/// joined by underscores.
pub open spec fn path_name(path: Seq<Seq<char>>) -> Seq<char>
    decreases path.len(),
{
    if path.len() == 0 {
        Seq::empty()
    } else if path.len() == 1 {
        unicode_upper(path[0])
    } else {
        path_name(path.drop_last()) + seq!['_'] + unicode_upper(path.last())
    }
}

/// What a string leaf becomes: a set variable named after the leaf's path
/// replaces the text outright; otherwise the text goes through marker
/// substitution.  Either way, changed text is coerced.
pub open spec fn expand_leaf(
    s: Seq<char>,
    name: Seq<char>,
    env: Seq<(Seq<char>, Seq<char>)>,
) -> NodeV {
    match env_value(env, name) {
        Some(v) => coerced(s, v),
        None => coerced(s, subst_text(s, env)),
    }
}

/// The expanded form of a node standing at `path`.
pub open spec fn expand_node(
    n: NodeV,
    path: Seq<Seq<char>>,
    env: Seq<(Seq<char>, Seq<char>)>,
) -> NodeV
    decreases n,
{
    match n {
        NodeV::Str(s) => expand_leaf(s, path_name(path), env),
        NodeV::Sequence(items) => NodeV::Sequence(expand_items(items, path, env)),
        NodeV::Mapping(pairs) => NodeV::Mapping(expand_pairs(pairs, path, env)),
        _ => n,
    }
}

/// The expanded forms of the elements of a sequence node.
pub open spec fn expand_items(
    items: Seq<NodeV>,
    path: Seq<Seq<char>>,
    env: Seq<(Seq<char>, Seq<char>)>,
) -> Seq<NodeV>
    decreases items,
{
    if items.len() == 0 {
        Seq::empty()
    } else {
        seq![expand_node(items[0], path, env)] + expand_items(items.drop_first(), path, env)
    }
}

/// The expanded forms of the entries of a mapping node; each value's path
/// gains its key as a segment.
pub open spec fn expand_pairs(
    pairs: Seq<(Seq<char>, NodeV)>,
    path: Seq<Seq<char>>,
    env: Seq<(Seq<char>, Seq<char>)>,
) -> Seq<(Seq<char>, NodeV)>
    decreases pairs,
{
    if pairs.len() == 0 {
        Seq::empty()
    } else {
        seq![(pairs[0].0, expand_node(pairs[0].1, path.push(pairs[0].0), env))]
            + expand_pairs(pairs.drop_first(), path, env)
    }
}

/// `expand_items`, position by position.
pub proof fn lemma_expand_items(
    items: Seq<NodeV>,
    path: Seq<Seq<char>>,
    env: Seq<(Seq<char>, Seq<char>)>,
)
    ensures
        expand_items(items, path, env).len() == items.len(),
        forall|i: int|
            0 <= i < items.len() ==> expand_items(items, path, env)[i] == expand_node(
                items[i],
                path,
                env,
            ),
    decreases items.len(),
{
    if items.len() > 0 {
        lemma_expand_items(items.drop_first(), path, env);
        assert forall|i: int|
            0 <= i < items.len() implies expand_items(items, path, env)[i] == expand_node(
            items[i],
            path,
            env,
        ) by {
            if i > 0 {
                assert(expand_items(items.drop_first(), path, env)[i - 1] == expand_node(
                    items.drop_first()[i - 1],
                    path,
                    env,
                ));
                assert(items.drop_first()[i - 1] == items[i]);
            }
        }
    }
}

/// `expand_pairs`, position by position.
pub proof fn lemma_expand_pairs(
    pairs: Seq<(Seq<char>, NodeV)>,
    path: Seq<Seq<char>>,
    env: Seq<(Seq<char>, Seq<char>)>,
)
    ensures
        expand_pairs(pairs, path, env).len() == pairs.len(),
        forall|i: int|
            0 <= i < pairs.len() ==> expand_pairs(pairs, path, env)[i] == (
                pairs[i].0,
                expand_node(pairs[i].1, path.push(pairs[i].0), env),
            ),
    decreases pairs.len(),
{
    if pairs.len() > 0 {
        lemma_expand_pairs(pairs.drop_first(), path, env);
        assert forall|i: int|
            0 <= i < pairs.len() implies expand_pairs(pairs, path, env)[i] == (
            pairs[i].0,
            expand_node(pairs[i].1, path.push(pairs[i].0), env),
        ) by {
            if i > 0 {
                assert(expand_pairs(pairs.drop_first(), path, env)[i - 1] == (
                    pairs.drop_first()[i - 1].0,
                    expand_node(
                        pairs.drop_first()[i - 1].1,
                        path.push(pairs.drop_first()[i - 1].0),
                        env,
                    ),
                ));
                assert(pairs.drop_first()[i - 1] == pairs[i]);
            }
        }
    }
}

#[verifier::loop_isolation(false)]
fn expand_rec(n: &Node, prefix: &String, root: bool, env: &EnvMap, path: Ghost<Seq<Seq<char>>>) -> (r:
    Node)
    requires
        prefix@ == path_name(path@),
        root == (path@.len() == 0),
    ensures
        r@ == expand_node(n@, path@, env@),
    decreases n,
{
    match n {
        Node::Null => Node::Null,
        Node::Bool(b) => Node::Bool(*b),
        Node::UInt(u) => Node::UInt(*u),
        Node::Int(i) => Node::Int(*i),
        Node::Float(t) => Node::Float(t.clone()),
        Node::Str(s) => {
            match env.lookup(prefix.as_str()) {
                Some(v) => {
                    let value = v.clone();
                    coerce(s.as_str(), value)
                },
                None => {
                    let out = substitute(s.as_str(), env);
                    coerce(s.as_str(), out)
                },
            }
        },
        Node::Sequence(items) => {
            let mut out: Vec<Node> = Vec::new();
            let m = items.len();
            let mut i: usize = 0;
            while i < m
                invariant
                    i <= m,
                    m == items.len(),
                    prefix@ == path_name(path@),
                    root == (path@.len() == 0),
                    out@.len() == i,
                    forall|j: int|
                        0 <= j < i ==> #[trigger] node_view(out@[j]) == expand_node(
                            node_view(items@[j]),
                            path@,
                            env@,
                        ),
                decreases m - i,
            {
                let child = expand_rec(&items[i], prefix, root, env, path);
                out.push(child);
                i += 1;
            }
            proof {
                lemma_nodes_view(items@);
                lemma_nodes_view(out@);
                lemma_expand_items(nodes_view(items@), path@, env@);
                assert(nodes_view(out@) =~= expand_items(nodes_view(items@), path@, env@));
            }
            Node::Sequence(out)
        },
        Node::Mapping(pairs) => {
            let mut out: Vec<(String, Node)> = Vec::new();
            let m = pairs.len();
            let mut i: usize = 0;
            while i < m
                invariant
                    i <= m,
                    m == pairs.len(),
                    prefix@ == path_name(path@),
                    root == (path@.len() == 0),
                    out@.len() == i,
                    forall|j: int|
                        0 <= j < i ==> (#[trigger] out@[j]).0@ == pairs@[j].0@ && node_view(
                            out@[j].1,
                        ) == expand_node(
                            node_view(pairs@[j].1),
                            path@.push(pairs@[j].0@),
                            env@,
                        ),
                decreases m - i,
            {
                let key = pairs[i].0.clone();
                let upper = to_upper(key.as_str());
                let child_prefix: String = if root {
                    upper
                } else {
                    let mut p = prefix.clone();
                    p.append("_");
                    p.append(upper.as_str());
                    p
                };
                let ghost child_path = path@.push(key@);
                proof {
                    reveal_strlit("_");
                    assert(child_path.drop_last() =~= path@);
                    assert(child_path.last() == key@);
                    if path@.len() == 0 {
                        assert(child_prefix@ == path_name(child_path));
                    } else {
                        assert(child_prefix@ == path_name(path@) + seq!['_'] + unicode_upper(
                            key@,
                        ));
                        assert(child_prefix@ == path_name(child_path));
                    }
                }
                let child = expand_rec(&pairs[i].1, &child_prefix, false, env, Ghost(child_path));
                out.push((key, child));
                i += 1;
            }
            proof {
                lemma_pairs_view(pairs@);
                lemma_pairs_view(out@);
                lemma_expand_pairs(pairs_view(pairs@), path@, env@);
                assert(pairs_view(out@) =~= expand_pairs(pairs_view(pairs@), path@, env@));
            }
            Node::Mapping(out)
        },
    }
}

/// Expands a whole document: every string leaf is rewritten against `env`
/// (positional override first, then marker substitution) and coerced where
/// the text changed; every other node keeps its shape.
pub fn expand(n: &Node, env: &EnvMap) -> (r: Node)
    ensures
        r@ == expand_node(n@, Seq::empty(), env@),
{
    let prefix = String::new();
    expand_rec(n, &prefix, true, env, Ghost(Seq::empty()))
}

/// Expansion keeps a tree in canonical form: no key is touched, and a
/// coerced leaf never becomes a non-canonical integer.
pub proof fn lemma_expand_preserves_canonical(
    n: NodeV,
    path: Seq<Seq<char>>,
    env: Seq<(Seq<char>, Seq<char>)>,
)
    requires
        canonical(n),
    ensures
        canonical(expand_node(n, path, env)),
    decreases n,
{
    match n {
        NodeV::Sequence(items) => {
            lemma_canonical_sequence(items);
            lemma_expand_items(items, path, env);
            let out = expand_items(items, path, env);
            assert forall|i: int| 0 <= i < out.len() implies canonical(#[trigger] out[i]) by {
                lemma_expand_preserves_canonical(items[i], path, env);
                assert(out[i] == expand_node(items[i], path, env));
            }
            lemma_canonical_sequence(out);
        },
        NodeV::Mapping(pairs) => {
            lemma_canonical_mapping(pairs);
            lemma_expand_pairs(pairs, path, env);
            let out = expand_pairs(pairs, path, env);
            assert forall|i: int, j: int| 0 <= i < j < out.len() implies (#[trigger] out[i]).0
                != (#[trigger] out[j]).0 by {
                assert(out[i].0 == pairs[i].0);
                assert(out[j].0 == pairs[j].0);
            }
            assert forall|i: int| 0 <= i < out.len() implies canonical((#[trigger] out[i]).1) by {
                lemma_expand_preserves_canonical(pairs[i].1, path.push(pairs[i].0), env);
                assert(out[i] == (pairs[i].0, expand_node(pairs[i].1, path.push(pairs[i].0), env)));
            }
            lemma_canonical_mapping(out);
        },
        _ => {},
    }
}

/// Expansion never changes a node's kind except at a string leaf: scalars
/// other than strings come back as they are, a sequence stays a sequence of
/// the same length, and a mapping keeps its length and all its keys in
/// order.
pub proof fn lemma_expand_preserves_shape(
    n: NodeV,
    path: Seq<Seq<char>>,
    env: Seq<(Seq<char>, Seq<char>)>,
)
    ensures
        !(n is Str) && !(n is Sequence) && !(n is Mapping) ==> expand_node(n, path, env) == n,
        n matches NodeV::Sequence(items) ==> expand_node(n, path, env) matches NodeV::Sequence(
            out,
        ) && out.len() == items.len(),
        n matches NodeV::Mapping(pairs) ==> expand_node(n, path, env) matches NodeV::Mapping(
            out,
        ) && out.len() == pairs.len() && (forall|i: int|
            0 <= i < pairs.len() ==> (#[trigger] out[i]).0 == pairs[i].0),
{
    match n {
        NodeV::Sequence(items) => {
            lemma_expand_items(items, path, env);
        },
        NodeV::Mapping(pairs) => {
            lemma_expand_pairs(pairs, path, env);
        },
        _ => {},
    }
}

/// On a string leaf with no `${` anywhere and no positional override bound
/// to its path, expansion is the identity and no coercion occurs, whatever
/// else the environment holds.
pub proof fn lemma_leaf_identity(
    s: Seq<char>,
    name: Seq<char>,
    env: Seq<(Seq<char>, Seq<char>)>,
)
    requires
        marker_free(s),
        env_value(env, name) is None,
    ensures
        expand_leaf(s, name, env) == NodeV::Str(s),
{
    crate::subst::lemma_marker_free_identity(s, env);
}

/// Whether `env` binds no positional override for any string leaf of `n`
/// standing at `path`.
pub open spec fn no_override(
    n: NodeV,
    path: Seq<Seq<char>>,
    env: Seq<(Seq<char>, Seq<char>)>,
) -> bool
    decreases n,
{
    match n {
        NodeV::Str(_) => env_value(env, path_name(path)) is None,
        NodeV::Sequence(items) => forall|i: int|
            0 <= i < items.len() ==> no_override(#[trigger] items[i], path, env),
        NodeV::Mapping(pairs) => forall|i: int|
            0 <= i < pairs.len() ==> no_override(
                (#[trigger] pairs[i]).1,
                path.push(pairs[i].0),
                env,
            ),
        _ => true,
    }
}

/// An empty environment binds no positional override.
pub proof fn lemma_no_override_empty(n: NodeV, path: Seq<Seq<char>>)
    ensures
        no_override(n, path, Seq::empty()),
    decreases n,
{
    match n {
        NodeV::Sequence(items) => {
            assert forall|i: int| 0 <= i < items.len() implies no_override(
                #[trigger] items[i],
                path,
                Seq::empty(),
            ) by {
                lemma_no_override_empty(items[i], path);
            }
        },
        NodeV::Mapping(pairs) => {
            assert forall|i: int| 0 <= i < pairs.len() implies no_override(
                (#[trigger] pairs[i]).1,
                path.push(pairs[i].0),
                Seq::empty(),
            ) by {
                lemma_no_override_empty(pairs[i].1, path.push(pairs[i].0));
            }
        },
        _ => {},
    }
}

/// On a document none of whose string leaves holds a `${`, expansion under
/// an environment that binds no positional override for any of its leaves
/// changes nothing: no scalar is rewritten and none is retyped.
pub proof fn lemma_expand_identity(
    n: NodeV,
    path: Seq<Seq<char>>,
    env: Seq<(Seq<char>, Seq<char>)>,
)
    requires
        tree_marker_free(n),
        no_override(n, path, env),
    ensures
        expand_node(n, path, env) == n,
    decreases n,
{
    match n {
        NodeV::Str(s) => {
            lemma_leaf_identity(s, path_name(path), env);
        },
        NodeV::Sequence(items) => {
            lemma_expand_items(items, path, env);
            assert forall|i: int|
                0 <= i < items.len() implies expand_items(items, path, env)[i] == items[i] by {
                lemma_expand_identity(items[i], path, env);
            }
            assert(expand_items(items, path, env) =~= items);
        },
        NodeV::Mapping(pairs) => {
            lemma_expand_pairs(pairs, path, env);
            assert forall|i: int|
                0 <= i < pairs.len() implies expand_pairs(pairs, path, env)[i] == pairs[i] by {
                lemma_expand_identity(pairs[i].1, path.push(pairs[i].0), env);
            }
            assert(expand_pairs(pairs, path, env) =~= pairs);
        },
        _ => {},
    }
}

/// Whether every string leaf of `n` is free of interpolation markers.
pub open spec fn tree_marker_free(n: NodeV) -> bool
    decreases n,
{
    match n {
        NodeV::Str(s) => marker_free(s),
        NodeV::Sequence(items) => forall|i: int|
            0 <= i < items.len() ==> tree_marker_free(#[trigger] items[i]),
        NodeV::Mapping(pairs) => forall|i: int|
            0 <= i < pairs.len() ==> tree_marker_free(#[trigger] pairs[i].1),
        _ => true,
    }
}

} // verus!

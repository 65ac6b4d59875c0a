//! The generic in-memory document model: null, boolean, number, string,
//! sequence and mapping nodes.  Floating-point numbers are carried as their
//! decimal text, so that the tree itself stays within the verified world.

use vstd::prelude::*;

use crate::text::str_eq;

verus! {

broadcast use vstd::std_specs::vec::axiom_vec_index_decreases;

/// The mathematical shape of a document node.
pub enum NodeV {
    Null,
    Bool(bool),
    UInt(u64),
    Int(i64),
    Float(Seq<char>),
    Str(Seq<char>),
    Sequence(Seq<NodeV>),
    Mapping(Seq<(Seq<char>, NodeV)>),
}

/// A document node.  `Float` holds the number's decimal text; `Int` holds
/// integers below zero and `UInt` all others.
#[derive(Debug, PartialEq, Eq)]
pub enum Node {
    Null,
    Bool(bool),
    UInt(u64),
    Int(i64),
    Float(String),
    Str(String),
    Sequence(Vec<Node>),
    Mapping(Vec<(String, Node)>),
}

/// The shape of a node.
pub open spec fn node_view(n: Node) -> NodeV
    decreases n,
{
    match n {
        Node::Null => NodeV::Null,
        Node::Bool(b) => NodeV::Bool(b),
        Node::UInt(u) => NodeV::UInt(u),
        Node::Int(i) => NodeV::Int(i),
        Node::Float(t) => NodeV::Float(t@),
        Node::Str(s) => NodeV::Str(s@),
        Node::Sequence(items) => NodeV::Sequence(nodes_view(items@)),
        Node::Mapping(pairs) => NodeV::Mapping(pairs_view(pairs@)),
    }
}

/// The shapes of the elements of a sequence node.
pub open spec fn nodes_view(s: Seq<Node>) -> Seq<NodeV>
    decreases s,
{
    if s.len() == 0 {
        Seq::empty()
    } else {
        seq![node_view(s[0])] + nodes_view(s.drop_first())
    }
}

/// The shapes of the entries of a mapping node.
pub open spec fn pairs_view(s: Seq<(String, Node)>) -> Seq<(Seq<char>, NodeV)>
    decreases s,
{
    if s.len() == 0 {
        Seq::empty()
    } else {
        seq![(s[0].0@, node_view(s[0].1))] + pairs_view(s.drop_first())
    }
}

impl View for Node {
    type V = NodeV;

    open spec fn view(&self) -> NodeV {
        node_view(*self)
    }
}

/// Whether the keys of a mapping's entries are pairwise distinct.
pub open spec fn distinct_keys(pairs: Seq<(Seq<char>, NodeV)>) -> bool {
    forall|i: int, j: int| 0 <= i < j < pairs.len() ==> pairs[i].0 != pairs[j].0
}

/// Whether `n` is in the tree model's canonical form: every mapping's keys
/// are pairwise distinct and `Int` is used only below zero.  Parsed documents
/// outside this form (a repeated key, or keys that read as the same text)
/// cannot be represented faithfully and are rejected by the loader.
pub open spec fn canonical(n: NodeV) -> bool
    decreases n,
{
    match n {
        NodeV::Int(i) => i < 0,
        NodeV::Sequence(items) => forall|i: int|
            0 <= i < items.len() ==> canonical(#[trigger] items[i]),
        NodeV::Mapping(pairs) => distinct_keys(pairs) && (forall|i: int|
            0 <= i < pairs.len() ==> canonical((#[trigger] pairs[i]).1)),
        _ => true,
    }
}

/// `canonical` on a sequence node, unfolded.
pub proof fn lemma_canonical_sequence(s: Seq<NodeV>)
    ensures
        canonical(NodeV::Sequence(s)) == (forall|i: int|
            0 <= i < s.len() ==> canonical(#[trigger] s[i])),
{
    let n = NodeV::Sequence(s);
    match n {
        NodeV::Sequence(items) => {
            assert(items == s);
            if forall|i: int| 0 <= i < s.len() ==> canonical(#[trigger] s[i]) {
                assert forall|i: int| 0 <= i < items.len() implies canonical(
                    #[trigger] items[i],
                ) by {
                    assert(canonical(s[i]));
                }
                assert(canonical(n));
            }
            if canonical(n) {
                assert forall|i: int| 0 <= i < s.len() implies canonical(#[trigger] s[i]) by {
                    assert(canonical(items[i]));
                }
            }
        },
        _ => {},
    }
}

/// `canonical` on a mapping node, unfolded.
pub proof fn lemma_canonical_mapping(pairs: Seq<(Seq<char>, NodeV)>)
    ensures
        canonical(NodeV::Mapping(pairs)) == (distinct_keys(pairs) && (forall|i: int|
            0 <= i < pairs.len() ==> canonical((#[trigger] pairs[i]).1))),
{
    let n = NodeV::Mapping(pairs);
    match n {
        NodeV::Mapping(entries) => {
            assert(entries == pairs);
            if distinct_keys(pairs) && (forall|i: int|
                0 <= i < pairs.len() ==> canonical((#[trigger] pairs[i]).1)) {
                assert forall|i: int| 0 <= i < entries.len() implies canonical(
                    (#[trigger] entries[i]).1,
                ) by {
                    assert(canonical(pairs[i].1));
                }
                assert(canonical(n));
            }
            if canonical(n) {
                assert forall|i: int| 0 <= i < pairs.len() implies canonical(
                    (#[trigger] pairs[i]).1,
                ) by {
                    assert(canonical(entries[i].1));
                }
            }
        },
        _ => {},
    }
}

/// Whether `n` is in canonical form, per `canonical`.
#[verifier::loop_isolation(false)]
pub fn is_canonical(n: &Node) -> (r: bool)
    ensures
        r == canonical(n@),
    decreases n,
{
    match n {
        Node::Int(i) => *i < 0,
        Node::Sequence(items) => {
            proof {
                lemma_nodes_view(items@);
                lemma_canonical_sequence(nodes_view(items@));
            }
            let m = items.len();
            let mut k: usize = 0;
            while k < m
                invariant
                    k <= m,
                    forall|j: int| 0 <= j < k ==> canonical(nodes_view(items@)[j]),
                decreases m - k,
            {
                let ok = is_canonical(&items[k]);
                proof {
                    assert(nodes_view(items@)[k as int] == node_view(items@[k as int]));
                }
                if !ok {
                    return false;
                }
                k += 1;
            }
            true
        },
        Node::Mapping(pairs) => {
            proof {
                lemma_pairs_view(pairs@);
                lemma_canonical_mapping(pairs_view(pairs@));
            }
            let ghost pv = pairs_view(pairs@);
            let m = pairs.len();
            let mut k: usize = 0;
            while k < m
                invariant
                    k <= m,
                    forall|i: int, j: int| 0 <= i < j < pairs@.len() && i < k ==> pv[i].0 != pv[j].0,
                    forall|j: int| 0 <= j < k ==> canonical(pv[j].1),
                decreases m - k,
            {
                let mut j: usize = k + 1;
                while j < m
                    invariant
                        k < j <= m,
                        k < m,
                        forall|i: int| k < i < j ==> pv[k as int].0 != pv[i].0,
                    decreases m - j,
                {
                    if str_eq(pairs[k].0.as_str(), pairs[j].0.as_str()) {
                        proof {
                            assert(pv[k as int].0 == pv[j as int].0);
                            assert(!distinct_keys(pv));
                        }
                        return false;
                    }
                    j += 1;
                }
                let ok = is_canonical(&pairs[k].1);
                proof {
                    assert(pv[k as int].1 == node_view(pairs@[k as int].1));
                }
                if !ok {
                    return false;
                }
                k += 1;
            }
            proof {
                assert(distinct_keys(pv));
            }
            true
        },
        _ => true,
    }
}

/// Whether `n` holds no floating-point leaf anywhere.
pub open spec fn float_free(n: NodeV) -> bool
    decreases n,
{
    match n {
        NodeV::Float(_) => false,
        NodeV::Sequence(items) => forall|i: int|
            0 <= i < items.len() ==> float_free(#[trigger] items[i]),
        NodeV::Mapping(pairs) => forall|i: int|
            0 <= i < pairs.len() ==> float_free(#[trigger] pairs[i].1),
        _ => true,
    }
}

/// `nodes_view` maps `node_view` over the elements, position by position.
pub proof fn lemma_nodes_view(s: Seq<Node>)
    ensures
        nodes_view(s).len() == s.len(),
        forall|i: int| 0 <= i < s.len() ==> nodes_view(s)[i] == node_view(s[i]),
    decreases s.len(),
{
    if s.len() > 0 {
        lemma_nodes_view(s.drop_first());
        assert forall|i: int| 0 <= i < s.len() implies nodes_view(s)[i] == node_view(s[i]) by {
            if i > 0 {
                assert(nodes_view(s.drop_first())[i - 1] == node_view(s.drop_first()[i - 1]));
                assert(s.drop_first()[i - 1] == s[i]);
            }
        }
    }
}

/// `pairs_view` keeps each key and maps `node_view` over each value.
pub proof fn lemma_pairs_view(s: Seq<(String, Node)>)
    ensures
        pairs_view(s).len() == s.len(),
        forall|i: int|
            0 <= i < s.len() ==> pairs_view(s)[i] == (s[i].0@, node_view(s[i].1)),
    decreases s.len(),
{
    if s.len() > 0 {
        lemma_pairs_view(s.drop_first());
        assert forall|i: int|
            0 <= i < s.len() implies pairs_view(s)[i] == (s[i].0@, node_view(s[i].1)) by {
            if i > 0 {
                assert(pairs_view(s.drop_first())[i - 1] == (
                    s.drop_first()[i - 1].0@,
                    node_view(s.drop_first()[i - 1].1),
                ));
                assert(s.drop_first()[i - 1] == s[i]);
            }
        }
    }
}

} // verus!

//! The canonical nested representation of a requirement expression: a
//! tagged tree whose inner nodes are conjunctions or disjunctions.

use vstd::prelude::*;

use super::KeyValue;
use crate::key::KeyMeaning;
use crate::typed::TypedKeyMapper;

verus! {

/// A requirement expression as a tree. Trees built by the canonical
/// converter never hold a single child under a multi-child variant, and
/// their nesting alternates kind.
#[derive(Debug, PartialEq)]
pub enum LogicNode<K> {
    And(Vec<LogicNode<K>>),
    Or(Vec<LogicNode<K>>),
    KeyValue(KeyValue<K>),
}

/// The mathematical model of a tree, with identifiers abstracted to
/// their views.
pub enum NodeView<V> {
    And(Seq<NodeView<V>>),
    Or(Seq<NodeView<V>>),
    Leaf(KeyValue<V>),
}

/// The model of one tree node.
pub open spec fn node_view<K: View>(n: LogicNode<K>) -> NodeView<K::V>
    decreases n,
{
    match n {
        LogicNode::And(nodes) => NodeView::And(node_views(nodes@)),
        LogicNode::Or(nodes) => NodeView::Or(node_views(nodes@)),
        LogicNode::KeyValue(kv) => NodeView::Leaf(kv@),
    }
}

/// The models of a sequence of sibling nodes, in order.
pub open spec fn node_views<K: View>(nodes: Seq<LogicNode<K>>) -> Seq<NodeView<K::V>>
    decreases nodes,
{
    if nodes.len() == 0 {
        Seq::empty()
    } else {
        node_views(nodes.subrange(0, nodes.len() - 1)).push(node_view(nodes.last()))
    }
}

impl<K: View> View for LogicNode<K> {
    type V = NodeView<K::V>;

    open spec fn view(&self) -> NodeView<K::V> {
        node_view(*self)
    }
}

/// A tree with its identifiers kept as they are: the form of a tree
/// that remapping contracts compare against.
pub open spec fn node_mirror<K>(n: LogicNode<K>) -> NodeView<K>
    decreases n,
{
    match n {
        LogicNode::And(nodes) => NodeView::And(nodes_mirror(nodes@)),
        LogicNode::Or(nodes) => NodeView::Or(nodes_mirror(nodes@)),
        LogicNode::KeyValue(kv) => NodeView::Leaf(kv),
    }
}

/// The mirrors of a row of siblings, in order.
pub open spec fn nodes_mirror<K>(nodes: Seq<LogicNode<K>>) -> Seq<NodeView<K>>
    decreases nodes,
{
    if nodes.len() == 0 {
        Seq::empty()
    } else {
        nodes_mirror(nodes.subrange(0, nodes.len() - 1)).push(node_mirror(nodes.last()))
    }
}

/// Appending a sibling appends its mirror.
pub proof fn lemma_nodes_mirror_push<K>(nodes: Seq<LogicNode<K>>, n: LogicNode<K>)
    ensures
        nodes_mirror(nodes.push(n)) == nodes_mirror(nodes).push(node_mirror(n)),
{
    assert(nodes.push(n).drop_last() =~= nodes);
    assert(nodes.push(n).last() == n);
    assert(nodes_mirror(nodes.push(n)) == nodes_mirror(nodes.push(n).drop_last()).push(
        node_mirror(nodes.push(n).last()),
    ));
}

/// What remapping a tree yields: every identifier replaced by what the
/// lookup returns for it, in depth-first left-to-right order, stopping
/// at the first failure. Shape and thresholds are untouched.
pub open spec fn remap_node<K, K2, E, M: TypedKeyMapper<K, K2, E>>(
    m: M,
    meaning: KeyMeaning,
    a: LogicNode<K>,
) -> Result<NodeView<K2>, E>
    decreases a,
{
    match a {
        LogicNode::KeyValue(kv) => match m.key_map_spec(kv.key, meaning) {
            Err(e) => Err(e),
            Ok(k2) => Ok(NodeView::Leaf(KeyValue { key: k2, value: kv.value })),
        },
        LogicNode::And(nodes) => match remap_nodes(m, meaning, nodes@) {
            Err(e) => Err(e),
            Ok(vs) => Ok(NodeView::And(vs)),
        },
        LogicNode::Or(nodes) => match remap_nodes(m, meaning, nodes@) {
            Err(e) => Err(e),
            Ok(vs) => Ok(NodeView::Or(vs)),
        },
    }
}

/// What remapping a row of siblings yields, left to right.
pub open spec fn remap_nodes<K, K2, E, M: TypedKeyMapper<K, K2, E>>(
    m: M,
    meaning: KeyMeaning,
    nodes: Seq<LogicNode<K>>,
) -> Result<Seq<NodeView<K2>>, E>
    decreases nodes,
{
    if nodes.len() == 0 {
        Ok(Seq::empty())
    } else {
        match remap_nodes(m, meaning, nodes.subrange(0, nodes.len() - 1)) {
            Err(e) => Err(e),
            Ok(vs) => match remap_node(m, meaning, nodes.last()) {
                Err(e) => Err(e),
                Ok(v) => Ok(vs.push(v)),
            },
        }
    }
}

/// Once a sibling's remapping fails after a clean prefix, the whole row
/// fails with that error.
proof fn lemma_remap_nodes_err<K, K2, E, M: TypedKeyMapper<K, K2, E>>(
    m: M,
    meaning: KeyMeaning,
    nodes: Seq<LogicNode<K>>,
    i: int,
    e: E,
)
    requires
        0 <= i < nodes.len(),
        remap_nodes(m, meaning, nodes.subrange(0, i)) is Ok,
        remap_node(m, meaning, nodes[i]) == Err::<NodeView<K2>, E>(e),
    ensures
        remap_nodes(m, meaning, nodes) == Err::<Seq<NodeView<K2>>, E>(e),
    decreases nodes.len(),
{
    if i == nodes.len() - 1 {
        assert(nodes.subrange(0, nodes.len() - 1) =~= nodes.subrange(0, i));
    } else {
        assert(nodes.subrange(0, nodes.len() - 1).subrange(0, i) =~= nodes.subrange(0, i));
        assert(nodes.subrange(0, nodes.len() - 1)[i] == nodes[i]);
        lemma_remap_nodes_err::<K, K2, E, M>(m, meaning, nodes.subrange(0, nodes.len() - 1), i, e);
    }
}

/// Does the identifier occur anywhere in the tree?
pub open spec fn node_has_key<K>(n: LogicNode<K>, k: K) -> bool
    decreases n,
{
    match n {
        LogicNode::KeyValue(kv) => kv.key == k,
        LogicNode::And(nodes) => nodes_have_key(nodes@, k),
        LogicNode::Or(nodes) => nodes_have_key(nodes@, k),
    }
}

/// Does the identifier occur in any of the siblings?
pub open spec fn nodes_have_key<K>(nodes: Seq<LogicNode<K>>, k: K) -> bool
    decreases nodes,
{
    if nodes.len() == 0 {
        false
    } else {
        nodes_have_key(nodes.subrange(0, nodes.len() - 1), k) || node_has_key(nodes.last(), k)
    }
}

/// Under an identity lookup, remapping a row returns its mirror.
proof fn lemma_remap_identity_nodes<K, E, M: TypedKeyMapper<K, K, E>>(
    m: M,
    meaning: KeyMeaning,
    nodes: Seq<LogicNode<K>>,
)
    requires
        forall|k: K| #[trigger] m.key_map_spec(k, meaning) == Ok::<K, E>(k),
    ensures
        remap_nodes(m, meaning, nodes) == Ok::<Seq<NodeView<K>>, E>(nodes_mirror(nodes)),
    decreases nodes,
{
    if nodes.len() > 0 {
        lemma_remap_identity_nodes(m, meaning, nodes.subrange(0, nodes.len() - 1));
        lemma_remap_identity_node(m, meaning, nodes.last());
    }
}

/// Remapping identity: an identity lookup yields a structurally equal
/// tree — the remapped tree is the input's own mirror.
pub proof fn lemma_remap_identity_node<K, E, M: TypedKeyMapper<K, K, E>>(
    m: M,
    meaning: KeyMeaning,
    a: LogicNode<K>,
)
    requires
        forall|k: K| #[trigger] m.key_map_spec(k, meaning) == Ok::<K, E>(k),
    ensures
        remap_node(m, meaning, a) == Ok::<NodeView<K>, E>(node_mirror(a)),
    decreases a,
{
    match a {
        LogicNode::KeyValue(kv) => {
            assert(KeyValue { key: kv.key, value: kv.value } =~= kv);
        },
        LogicNode::And(nodes) => {
            lemma_remap_identity_nodes(m, meaning, nodes@);
        },
        LogicNode::Or(nodes) => {
            lemma_remap_identity_nodes(m, meaning, nodes@);
        },
    }
}

/// As [`lemma_remap_single_failure_node`], for a row of siblings.
proof fn lemma_remap_single_failure_nodes<K, K2, E, M: TypedKeyMapper<K, K2, E>>(
    m: M,
    meaning: KeyMeaning,
    nodes: Seq<LogicNode<K>>,
    k0: K,
    e0: E,
)
    requires
        m.key_map_spec(k0, meaning) == Err::<K2, E>(e0),
        forall|k: K| k != k0 ==> (#[trigger] m.key_map_spec(k, meaning)) is Ok,
    ensures
        nodes_have_key(nodes, k0) ==> remap_nodes(m, meaning, nodes) == Err::<
            Seq<NodeView<K2>>,
            E,
        >(e0),
        !nodes_have_key(nodes, k0) ==> remap_nodes(m, meaning, nodes) is Ok,
    decreases nodes,
{
    if nodes.len() > 0 {
        lemma_remap_single_failure_nodes(m, meaning, nodes.subrange(0, nodes.len() - 1), k0, e0);
        lemma_remap_single_failure_node(m, meaning, nodes.last(), k0, e0);
    }
}

/// The identifiers of a tree, depth first, left to right.
pub open spec fn node_keys<K>(n: LogicNode<K>) -> Seq<K>
    decreases n,
{
    match n {
        LogicNode::KeyValue(kv) => seq![kv.key],
        LogicNode::And(nodes) => nodes_keys(nodes@),
        LogicNode::Or(nodes) => nodes_keys(nodes@),
    }
}

/// The identifiers of a row of siblings, depth first, left to right.
pub open spec fn nodes_keys<K>(nodes: Seq<LogicNode<K>>) -> Seq<K>
    decreases nodes,
{
    if nodes.len() == 0 {
        Seq::empty()
    } else {
        nodes_keys(nodes.subrange(0, nodes.len() - 1)) + node_keys(nodes.last())
    }
}

/// As [`lemma_remap_node_all_ok`], for a row of siblings.
proof fn lemma_remap_nodes_all_ok<K, K2, E, M: TypedKeyMapper<K, K2, E>>(
    m: M,
    meaning: KeyMeaning,
    nodes: Seq<LogicNode<K>>,
)
    requires
        forall|j: int|
            0 <= j < nodes_keys(nodes).len() ==> (#[trigger] m.key_map_spec(
                nodes_keys(nodes)[j],
                meaning,
            )) is Ok,
    ensures
        remap_nodes::<K, K2, E, M>(m, meaning, nodes) is Ok,
    decreases nodes,
{
    if nodes.len() > 0 {
        let prefix = nodes.subrange(0, nodes.len() - 1);
        let p = nodes_keys(prefix).len();
        assert(nodes_keys(nodes) == nodes_keys(prefix) + node_keys(nodes.last()));
        assert forall|j: int| 0 <= j < p implies (#[trigger] m.key_map_spec(
            nodes_keys(prefix)[j],
            meaning,
        )) is Ok by {
            assert(nodes_keys(prefix)[j] == nodes_keys(nodes)[j]);
        }
        lemma_remap_nodes_all_ok::<K, K2, E, M>(m, meaning, prefix);
        assert forall|j: int| 0 <= j < node_keys(nodes.last()).len() implies (
        #[trigger] m.key_map_spec(node_keys(nodes.last())[j], meaning)) is Ok by {
            assert(node_keys(nodes.last())[j] == nodes_keys(nodes)[p + j]);
        }
        lemma_remap_node_all_ok::<K, K2, E, M>(m, meaning, nodes.last());
    }
}

/// A tree whose every lookup succeeds remaps cleanly.
proof fn lemma_remap_node_all_ok<K, K2, E, M: TypedKeyMapper<K, K2, E>>(
    m: M,
    meaning: KeyMeaning,
    a: LogicNode<K>,
)
    requires
        forall|j: int|
            0 <= j < node_keys(a).len() ==> (#[trigger] m.key_map_spec(
                node_keys(a)[j],
                meaning,
            )) is Ok,
    ensures
        remap_node::<K, K2, E, M>(m, meaning, a) is Ok,
    decreases a,
{
    match a {
        LogicNode::KeyValue(kv) => {
            assert(node_keys(a)[0] == kv.key);
        },
        LogicNode::And(nodes) => {
            lemma_keys_transfer_ok::<K, K2, E, M>(m, meaning, a, nodes@, node_keys(a).len() as int);
            lemma_remap_nodes_all_ok::<K, K2, E, M>(m, meaning, nodes@);
        },
        LogicNode::Or(nodes) => {
            lemma_keys_transfer_ok::<K, K2, E, M>(m, meaning, a, nodes@, node_keys(a).len() as int);
            lemma_remap_nodes_all_ok::<K, K2, E, M>(m, meaning, nodes@);
        },
    }
}

/// Carries "the first `upto` lookups succeed" from a tree's key list to
/// its children's, which is the same list.
proof fn lemma_keys_transfer_ok<K, K2, E, M: TypedKeyMapper<K, K2, E>>(
    m: M,
    meaning: KeyMeaning,
    a: LogicNode<K>,
    nodes: Seq<LogicNode<K>>,
    upto: int,
)
    requires
        node_keys(a) == nodes_keys(nodes),
        forall|j: int| 0 <= j < upto ==> (#[trigger] m.key_map_spec(node_keys(a)[j], meaning)) is Ok,
    ensures
        forall|j: int|
            0 <= j < upto ==> (#[trigger] m.key_map_spec(nodes_keys(nodes)[j], meaning)) is Ok,
{
    assert forall|j: int| 0 <= j < upto implies (#[trigger] m.key_map_spec(
        nodes_keys(nodes)[j],
        meaning,
    )) is Ok by {
        assert(nodes_keys(nodes)[j] == node_keys(a)[j]);
    }
}

/// As [`lemma_remap_first_failure_node`], for a row of siblings.
proof fn lemma_remap_first_failure_nodes<K, K2, E, M: TypedKeyMapper<K, K2, E>>(
    m: M,
    meaning: KeyMeaning,
    nodes: Seq<LogicNode<K>>,
    i: int,
    e0: E,
)
    requires
        0 <= i < nodes_keys(nodes).len(),
        m.key_map_spec(nodes_keys(nodes)[i], meaning) == Err::<K2, E>(e0),
        forall|j: int|
            0 <= j < i ==> (#[trigger] m.key_map_spec(nodes_keys(nodes)[j], meaning)) is Ok,
    ensures
        remap_nodes(m, meaning, nodes) == Err::<Seq<NodeView<K2>>, E>(e0),
    decreases nodes,
{
    assert(nodes.len() > 0);
    let prefix = nodes.subrange(0, nodes.len() - 1);
    let p = nodes_keys(prefix).len();
    assert(nodes_keys(nodes) == nodes_keys(prefix) + node_keys(nodes.last()));
    if i < p {
        assert forall|j: int| 0 <= j < i implies (#[trigger] m.key_map_spec(
            nodes_keys(prefix)[j],
            meaning,
        )) is Ok by {
            assert(nodes_keys(prefix)[j] == nodes_keys(nodes)[j]);
        }
        assert(nodes_keys(prefix)[i] == nodes_keys(nodes)[i]);
        lemma_remap_first_failure_nodes(m, meaning, prefix, i, e0);
    } else {
        assert forall|j: int| 0 <= j < p implies (#[trigger] m.key_map_spec(
            nodes_keys(prefix)[j],
            meaning,
        )) is Ok by {
            assert(nodes_keys(prefix)[j] == nodes_keys(nodes)[j]);
        }
        lemma_remap_nodes_all_ok::<K, K2, E, M>(m, meaning, prefix);
        assert forall|j: int| 0 <= j < i - p implies (#[trigger] m.key_map_spec(
            node_keys(nodes.last())[j],
            meaning,
        )) is Ok by {
            assert(node_keys(nodes.last())[j] == nodes_keys(nodes)[p + j]);
        }
        assert(node_keys(nodes.last())[i - p] == nodes_keys(nodes)[i]);
        lemma_remap_first_failure_node(m, meaning, nodes.last(), i - p, e0);
    }
}

/// Remapping failure propagation, in general: however many lookups
/// would fail on a tree, the result is exactly the error of the first
/// failing identifier in depth-first left-to-right order — never a
/// partial tree.
pub proof fn lemma_remap_first_failure_node<K, K2, E, M: TypedKeyMapper<K, K2, E>>(
    m: M,
    meaning: KeyMeaning,
    a: LogicNode<K>,
    i: int,
    e0: E,
)
    requires
        0 <= i < node_keys(a).len(),
        m.key_map_spec(node_keys(a)[i], meaning) == Err::<K2, E>(e0),
        forall|j: int|
            0 <= j < i ==> (#[trigger] m.key_map_spec(node_keys(a)[j], meaning)) is Ok,
    ensures
        remap_node(m, meaning, a) == Err::<NodeView<K2>, E>(e0),
    decreases a,
{
    match a {
        LogicNode::KeyValue(kv) => {
            assert(i == 0);
            assert(node_keys(a)[0] == kv.key);
        },
        LogicNode::And(nodes) => {
            lemma_keys_transfer_ok::<K, K2, E, M>(m, meaning, a, nodes@, i);
            assert(nodes_keys(nodes@)[i] == node_keys(a)[i]);
            lemma_remap_first_failure_nodes(m, meaning, nodes@, i, e0);
        },
        LogicNode::Or(nodes) => {
            lemma_keys_transfer_ok::<K, K2, E, M>(m, meaning, a, nodes@, i);
            assert(nodes_keys(nodes@)[i] == node_keys(a)[i]);
            lemma_remap_first_failure_nodes(m, meaning, nodes@, i, e0);
        },
    }
}

/// Remapping failure propagation: when the lookup fails at exactly one
/// identifier and that identifier occurs in the tree, the whole
/// remapping is that single failure — never a partial tree; when it
/// does not occur, the remapping succeeds.
pub proof fn lemma_remap_single_failure_node<K, K2, E, M: TypedKeyMapper<K, K2, E>>(
    m: M,
    meaning: KeyMeaning,
    a: LogicNode<K>,
    k0: K,
    e0: E,
)
    requires
        m.key_map_spec(k0, meaning) == Err::<K2, E>(e0),
        forall|k: K| k != k0 ==> (#[trigger] m.key_map_spec(k, meaning)) is Ok,
    ensures
        node_has_key(a, k0) ==> remap_node(m, meaning, a) == Err::<NodeView<K2>, E>(e0),
        !node_has_key(a, k0) ==> remap_node(m, meaning, a) is Ok,
    decreases a,
{
    match a {
        LogicNode::KeyValue(kv) => {
        },
        LogicNode::And(nodes) => {
            lemma_remap_single_failure_nodes(m, meaning, nodes@, k0, e0);
        },
        LogicNode::Or(nodes) => {
            lemma_remap_single_failure_nodes(m, meaning, nodes@, k0, e0);
        },
    }
}

impl<K> LogicNode<K> {
    /// Remaps every identifier of the tree through the lookup under the
    /// given meaning, keeping the tree's shape and thresholds. The
    /// first failing lookup, in depth-first left-to-right order, is the
    /// result; no partial tree is returned.
    pub fn with_keys<K2, E, M: TypedKeyMapper<K, K2, E>>(
        &self,
        mapper: &M,
        meaning: KeyMeaning,
    ) -> (r: Result<LogicNode<K2>, E>)
        ensures
            match r {
                Ok(b) => remap_node(*mapper, meaning, *self) == Ok::<NodeView<K2>, E>(
                    node_mirror(b),
                ),
                Err(e) => remap_node(*mapper, meaning, *self) == Err::<NodeView<K2>, E>(e),
            },
        decreases *self,
    {
        match self {
            LogicNode::KeyValue(kv) => match kv.convert_with(mapper, meaning) {
                Err(e) => Err(e),
                Ok(kv2) => Ok(LogicNode::KeyValue(kv2)),
            },
            LogicNode::And(nodes) => match Self::with_keys_row(nodes, mapper, meaning) {
                Err(e) => Err(e),
                Ok(vs) => Ok(LogicNode::And(vs)),
            },
            LogicNode::Or(nodes) => match Self::with_keys_row(nodes, mapper, meaning) {
                Err(e) => Err(e),
                Ok(vs) => Ok(LogicNode::Or(vs)),
            },
        }
    }

    /// Remaps a row of siblings, left to right.
    fn with_keys_row<K2, E, M: TypedKeyMapper<K, K2, E>>(
        nodes: &Vec<LogicNode<K>>,
        mapper: &M,
        meaning: KeyMeaning,
    ) -> (r: Result<Vec<LogicNode<K2>>, E>)
        ensures
            match r {
                Ok(bs) => remap_nodes(*mapper, meaning, nodes@) == Ok::<Seq<NodeView<K2>>, E>(
                    nodes_mirror(bs@),
                ),
                Err(e) => remap_nodes(*mapper, meaning, nodes@) == Err::<Seq<NodeView<K2>>, E>(e),
            },
        decreases *nodes,
    {
        let mut out: Vec<LogicNode<K2>> = Vec::new();
        let mut i: usize = 0;
        proof {
            assert(nodes@.subrange(0, 0) =~= Seq::empty());
        }
        while i < nodes.len()
            invariant
                i <= nodes@.len(),
                remap_nodes(*mapper, meaning, nodes@.subrange(0, i as int)) == Ok::<
                    Seq<NodeView<K2>>,
                    E,
                >(nodes_mirror(out@)),
            decreases nodes@.len() - i,
        {
            proof {
                assert(decreases_to!(*nodes => nodes@[i as int]));
            }
            match nodes[i].with_keys(mapper, meaning) {
                Err(e) => {
                    proof {
                        lemma_remap_nodes_err::<K, K2, E, M>(*mapper, meaning, nodes@, i as int, e);
                    }
                    return Err(e);
                },
                Ok(b) => {
                    let ghost prev = nodes@.subrange(0, i as int);
                    let ghost now = nodes@.subrange(0, i as int + 1);
                    proof {
                        lemma_nodes_mirror_push(out@, b);
                    }
                    out.push(b);
                    proof {
                        assert(now.subrange(0, now.len() - 1) =~= prev);
                        assert(now.last() == nodes@[i as int]);
                    }
                },
            }
            i = i + 1;
        }
        proof {
            assert(nodes@.subrange(0, nodes@.len() as int) =~= nodes@);
        }
        Ok(out)
    }
}

/// Each sibling's model is its own view, at every index.
pub proof fn lemma_node_views_index<K: View>(nodes: Seq<LogicNode<K>>, i: int)
    requires
        0 <= i < nodes.len(),
    ensures
        node_views(nodes).len() == nodes.len(),
        node_views(nodes)[i] == node_view(nodes[i]),
    decreases nodes.len(),
{
    if i < nodes.len() - 1 {
        lemma_node_views_index(nodes.subrange(0, nodes.len() - 1), i);
        assert(nodes.subrange(0, nodes.len() - 1)[i] == nodes[i]);
    } else {
        lemma_node_views_len(nodes.subrange(0, nodes.len() - 1));
    }
}

/// Appending a sibling appends its model.
pub proof fn lemma_node_views_push<K: View>(nodes: Seq<LogicNode<K>>, n: LogicNode<K>)
    ensures
        node_views(nodes.push(n)) == node_views(nodes).push(node_view(n)),
{
    assert(nodes.push(n).drop_last() =~= nodes);
    assert(nodes.push(n).last() == n);
    assert(node_views(nodes.push(n)) == node_views(nodes.push(n).drop_last()).push(
        node_view(nodes.push(n).last()),
    ));
}

/// The models of siblings are as many as the siblings.
pub proof fn lemma_node_views_len<K: View>(nodes: Seq<LogicNode<K>>)
    ensures
        node_views(nodes).len() == nodes.len(),
    decreases nodes.len(),
{
    if nodes.len() > 0 {
        lemma_node_views_len(nodes.subrange(0, nodes.len() - 1));
    }
}

} // verus!

//! The flat representation of a requirement expression: one leading term
//! and an ordered list of (connective, term) pairs, read left to right.

use vstd::prelude::*;

use super::node::{node_view, node_views, NodeView};
use super::{KeyValue, LogicNode, Logical};
use crate::key::KeyMeaning;
use crate::typed::TypedKeyMapper;

verus! {

/// A non-empty, left-to-right sequence of terms joined by explicit
/// connectives. The connective stored with the i-th `rest` entry relates
/// that entry to the term before it.
#[derive(Debug, Clone, PartialEq)]
pub struct LogicChain<K> {
    pub first: KeyValue<K>,
    pub rest: Vec<(Logical, KeyValue<K>)>,
}

/// The mathematical model of a chain: the leading term and the sequence
/// of connective/term pairs, with identifiers abstracted to their views.
#[verifier::ext_equal]
pub struct ChainView<V> {
    pub first: KeyValue<V>,
    pub rest: Seq<(Logical, KeyValue<V>)>,
}

impl<K: View> View for LogicChain<K> {
    type V = ChainView<K::V>;

    open spec fn view(&self) -> ChainView<K::V> {
        ChainView {
            first: self.first@,
            rest: self.rest@.map_values(|p: (Logical, KeyValue<K>)| (p.0, p.1@)),
        }
    }
}

impl<V> ChainView<V> {
    /// All terms of the chain in reading order.
    pub open spec fn terms(self) -> Seq<KeyValue<V>> {
        seq![self.first].add(self.rest.map_values(|p: (Logical, KeyValue<V>)| p.1))
    }
}

/// The view of a list of (connective, term) pairs.
pub open spec fn pairs_view<K: View>(s: Seq<(Logical, KeyValue<K>)>) -> Seq<
    (Logical, KeyValue<K::V>),
> {
    s.map_values(|p: (Logical, KeyValue<K>)| (p.0, p.1@))
}

/// The view of a list of terms.
pub open spec fn terms_view<K: View>(s: Seq<KeyValue<K>>) -> Seq<KeyValue<K::V>> {
    s.map_values(|kv: KeyValue<K>| kv@)
}

/// The maximal OR-joined runs of a chain's terms, in reading order:
/// a new run starts at the leading term and after every And connective.
pub open spec fn or_groups<V>(
    first: KeyValue<V>,
    rest: Seq<(Logical, KeyValue<V>)>,
) -> Seq<Seq<KeyValue<V>>>
    decreases rest.len(),
{
    if rest.len() == 0 {
        seq![seq![first]]
    } else {
        let prev = or_groups(first, rest.drop_last());
        let kv = rest.last().1;
        if rest.last().0 is Or {
            prev.update(prev.len() - 1, prev.last().push(kv))
        } else {
            prev.push(seq![kv])
        }
    }
}

/// The canonical tree of one OR-run: a bare leaf for a single term, a
/// disjunction of leaves otherwise.
pub open spec fn group_view<V>(g: Seq<KeyValue<V>>) -> NodeView<V> {
    if g.len() == 1 {
        NodeView::Leaf(g[0])
    } else {
        NodeView::Or(g.map_values(|kv: KeyValue<V>| NodeView::Leaf(kv)))
    }
}

/// The canonical tree of a whole chain: its OR-runs, conjoined when
/// there are at least two of them.
pub open spec fn chain_node_view<V>(c: ChainView<V>) -> NodeView<V> {
    let gs = or_groups(c.first, c.rest);
    if gs.len() == 1 {
        group_view(gs[0])
    } else {
        NodeView::And(gs.map_values(|g: Seq<KeyValue<V>>| group_view(g)))
    }
}

/// Turns one OR-run into its canonical tree node.
fn flush_group<K: View>(mut g: Vec<KeyValue<K>>) -> (n: LogicNode<K>)
    requires
        g@.len() >= 1,
    ensures
        n@ == group_view(terms_view(g@)),
{
    let ghost g0 = g@;
    if g.len() == 1 {
        let kv = g.remove(0);
        assert(terms_view(g0).len() == 1);
        LogicNode::KeyValue(kv)
    } else {
        let mut nodes: Vec<LogicNode<K>> = Vec::new();
        while g.len() > 0
            invariant
                nodes@.len() + g@.len() == g0.len(),
                g@ =~= g0.subrange(nodes@.len() as int, g0.len() as int),
                node_views(nodes@) =~= terms_view(g0).subrange(0, nodes@.len() as int)
                    .map_values(|kv: KeyValue<K::V>| NodeView::Leaf(kv)),
            decreases g@.len(),
        {
            let ghost done = nodes@.len() as int;
            let kv = g.remove(0);
            let ghost old_nodes = nodes@;
            nodes.push(LogicNode::KeyValue(kv));
            proof {
                assert(nodes@.drop_last() =~= old_nodes);
                assert(nodes@.last() == LogicNode::<K>::KeyValue(kv));
                super::node::lemma_node_views_len(old_nodes);
                assert(kv == g0[done]);
                assert(node_views(nodes@) =~= node_views(old_nodes).push(
                    node_view(LogicNode::KeyValue(kv)),
                ));
                assert(g@ =~= g0.subrange(nodes@.len() as int, g0.len() as int));
            }
        }
        proof {
            assert(terms_view(g0).subrange(0, nodes@.len() as int) =~= terms_view(g0));
        }
        assert(g0.len() != 1);
        LogicNode::Or(nodes)
    }
}

impl<K: View> LogicChain<K> {
    /// Converts the flat chain into its canonical tree, grouping
    /// contiguous OR-joined terms more tightly than AND-joined ones.
    pub fn logic_nodes(self) -> (r: LogicNode<K>)
        ensures
            r@ == chain_node_view(self@),
    {
        let ghost c = self@;
        let LogicChain { first, mut rest } = self;
        let mut or_section: Vec<KeyValue<K>> = Vec::new();
        or_section.push(first);
        let mut and_section: Vec<LogicNode<K>> = Vec::new();
        let ghost mut processed: Seq<(Logical, KeyValue<K::V>)> = Seq::empty();
        proof {
            assert(processed + pairs_view(rest@) =~= c.rest);
            assert(terms_view(or_section@) =~= or_groups(c.first, processed).last());
        }
        while rest.len() > 0
            invariant
                processed + pairs_view(rest@) =~= c.rest,
                and_section@.len() + 1 == or_groups(c.first, processed).len(),
                node_views(and_section@) =~= or_groups(c.first, processed).subrange(
                    0,
                    or_groups(c.first, processed).len() - 1,
                ).map_values(|g: Seq<KeyValue<K::V>>| group_view(g)),
                terms_view(or_section@) =~= or_groups(c.first, processed).last(),
                or_section@.len() >= 1,
            decreases rest@.len(),
        {
            let ghost old_rest = rest@;
            let ghost gs = or_groups(c.first, processed);
            let (logical, kv) = rest.remove(0);
            let ghost kvv = kv@;
            let ghost step = processed.push((logical, kvv));
            proof {
                assert(step.drop_last() =~= processed);
                assert(pairs_view(old_rest) =~= seq![(logical, kvv)] + pairs_view(rest@));
                assert(step + pairs_view(rest@) =~= c.rest);
            }
            match logical {
                Logical::Or => {
                    or_section.push(kv);
                    proof {
                        let gs2 = or_groups(c.first, step);
                        assert(gs2 =~= gs.update(gs.len() - 1, gs.last().push(kvv)));
                        assert(gs2.subrange(0, gs2.len() - 1) =~= gs.subrange(0, gs.len() - 1));
                        assert(terms_view(or_section@) =~= gs2.last());
                    }
                }
                Logical::And => {
                    let node = flush_group(or_section);
                    or_section = Vec::new();
                    or_section.push(kv);
                    let ghost old_nodes = and_section@;
                    proof {
                        super::node::lemma_node_views_push(old_nodes, node);
                    }
                    and_section.push(node);
                    proof {
                        let gs2 = or_groups(c.first, step);
                        assert(gs2 =~= gs.push(seq![kvv]));
                        assert(node_views(and_section@) =~= node_views(old_nodes).push(node@));
                        assert(gs2.subrange(0, gs2.len() - 1) =~= gs.subrange(0, gs.len() - 1)
                            .push(gs.last()));
                        assert(node_views(and_section@) =~= gs2.subrange(0, gs2.len() - 1)
                            .map_values(|g: Seq<KeyValue<K::V>>| group_view(g)));
                        assert(terms_view(or_section@) =~= gs2.last());
                    }
                }
            }
            proof {
                processed = step;
            }
        }
        proof {
            assert(processed =~= c.rest);
        }
        if and_section.len() == 0 {
            let r = flush_group(or_section);
            proof {
                let gs = or_groups(c.first, c.rest);
                assert(gs.last() == gs[0]);
            }
            r
        } else {
            let node = flush_group(or_section);
            let ghost old_nodes = and_section@;
            proof {
                super::node::lemma_node_views_push(old_nodes, node);
            }
            and_section.push(node);
            proof {
                let gs = or_groups(c.first, c.rest);
                assert(node_views(and_section@) =~= node_views(old_nodes).push(node@));
                assert(gs.subrange(0, gs.len() - 1).push(gs.last()) =~= gs);
                assert(node_views(and_section@) =~= gs.map_values(
                    |g: Seq<KeyValue<K::V>>| group_view(g),
                ));
            }
            LogicNode::And(and_section)
        }
    }
}

/// Conversion is deterministic: chains with the same terms and
/// connectives convert to the same tree.
pub proof fn lemma_convert_deterministic<V>(c1: ChainView<V>, c2: ChainView<V>)
    requires
        c1.first == c2.first,
        c1.rest == c2.rest,
    ensures
        chain_node_view(c1) == chain_node_view(c2),
{
    assert(c1 =~= c2);
}

/// A chain without rest entries converts to a bare leaf holding its
/// leading term.
pub proof fn lemma_convert_singleton<V>(c: ChainView<V>)
    requires
        c.rest.len() == 0,
    ensures
        chain_node_view(c) == NodeView::Leaf(c.first),
{
}

/// When every connective of a chain is Or, its terms form one single run.
proof fn lemma_or_groups_all_or<V>(first: KeyValue<V>, rest: Seq<(Logical, KeyValue<V>)>)
    requires
        forall|i: int| 0 <= i < rest.len() ==> (#[trigger] rest[i]).0 is Or,
    ensures
        or_groups(first, rest) =~~= seq![
            seq![first] + rest.map_values(|p: (Logical, KeyValue<V>)| p.1),
        ],
    decreases rest.len(),
{
    let f = |p: (Logical, KeyValue<V>)| p.1;
    if rest.len() == 0 {
        assert(rest.map_values(f) =~= Seq::empty());
    } else {
        lemma_or_groups_all_or(first, rest.drop_last());
        assert(rest.drop_last().map_values(f) =~= rest.map_values(f).drop_last());
        assert((seq![first] + rest.map_values(f).drop_last()).push(rest.last().1) =~= seq![first]
            + rest.map_values(f));
    }
}

/// A chain whose every connective is Or converts to one disjunction of
/// all its terms, in original order, with no conjunction wrapper.
pub proof fn lemma_convert_all_or<V>(c: ChainView<V>)
    requires
        c.rest.len() >= 1,
        forall|i: int| 0 <= i < c.rest.len() ==> (#[trigger] c.rest[i]).0 is Or,
    ensures
        chain_node_view(c) == NodeView::Or(
            c.terms().map_values(|kv: KeyValue<V>| NodeView::Leaf(kv)),
        ),
{
    lemma_or_groups_all_or(c.first, c.rest);
    let gs = or_groups(c.first, c.rest);
    assert(gs[0] =~= c.terms());
    assert(gs[0].len() >= 2);
}

/// When every connective of a chain is And, every term stands in a run
/// of its own.
proof fn lemma_or_groups_all_and<V>(first: KeyValue<V>, rest: Seq<(Logical, KeyValue<V>)>)
    requires
        forall|i: int| 0 <= i < rest.len() ==> (#[trigger] rest[i]).0 is And,
    ensures
        or_groups(first, rest) =~~= seq![seq![first]] + rest.map_values(
            |p: (Logical, KeyValue<V>)| seq![p.1],
        ),
    decreases rest.len(),
{
    let f = |p: (Logical, KeyValue<V>)| seq![p.1];
    if rest.len() == 0 {
        assert(rest.map_values(f) =~= Seq::<Seq<KeyValue<V>>>::empty());
    } else {
        lemma_or_groups_all_and(first, rest.drop_last());
        assert(rest.drop_last().map_values(f) =~= rest.map_values(f).drop_last());
        assert((seq![seq![first]] + rest.map_values(f).drop_last()).push(seq![rest.last().1])
            =~~= seq![seq![first]] + rest.map_values(f));
    }
}

/// A chain whose every connective is And converts to a conjunction of
/// leaves, one per term, in original order.
pub proof fn lemma_convert_all_and<V>(c: ChainView<V>)
    requires
        c.rest.len() >= 1,
        forall|i: int| 0 <= i < c.rest.len() ==> (#[trigger] c.rest[i]).0 is And,
    ensures
        chain_node_view(c) == NodeView::And(
            c.terms().map_values(|kv: KeyValue<V>| NodeView::Leaf(kv)),
        ),
{
    lemma_or_groups_all_and(c.first, c.rest);
    let gs = or_groups(c.first, c.rest);
    assert(gs.map_values(|g: Seq<KeyValue<V>>| group_view(g)) =~= c.terms().map_values(
        |kv: KeyValue<V>| NodeView::Leaf(kv),
    )) by {
        let lhs = gs.map_values(|g: Seq<KeyValue<V>>| group_view(g));
        let rhs = c.terms().map_values(|kv: KeyValue<V>| NodeView::Leaf(kv));
        assert(lhs.len() == rhs.len());
        assert forall|i: int| 0 <= i < lhs.len() implies lhs[i] == rhs[i] by {
            if i == 0 {
                assert(gs[0] =~= seq![c.first]);
            } else {
                assert(gs[i] =~= seq![c.rest[i - 1].1]);
                assert(c.terms()[i] == c.rest[i - 1].1);
            }
        }
    }
}

/// What remapping a list of connective/term pairs yields: each term's
/// identifier replaced by what the lookup returns for it, left to
/// right, stopping at the first failure.
pub open spec fn remap_pairs<K, K2, E, M: TypedKeyMapper<K, K2, E>>(
    m: M,
    meaning: KeyMeaning,
    rest: Seq<(Logical, KeyValue<K>)>,
) -> Result<Seq<(Logical, KeyValue<K2>)>, E>
    decreases rest.len(),
{
    if rest.len() == 0 {
        Ok(Seq::empty())
    } else {
        match remap_pairs(m, meaning, rest.drop_last()) {
            Err(e) => Err(e),
            Ok(ps) => match m.key_map_spec(rest.last().1.key, meaning) {
                Err(e) => Err(e),
                Ok(k2) => Ok(ps.push((rest.last().0, KeyValue { key: k2, value: rest.last().1.value }))),
            },
        }
    }
}

/// What remapping a whole chain yields: the leading term first, then
/// the pairs, stopping at the first failure. Structure and thresholds
/// are untouched.
pub open spec fn remap_chain<K, K2, E, M: TypedKeyMapper<K, K2, E>>(
    m: M,
    meaning: KeyMeaning,
    first: KeyValue<K>,
    rest: Seq<(Logical, KeyValue<K>)>,
) -> Result<ChainView<K2>, E> {
    match m.key_map_spec(first.key, meaning) {
        Err(e) => Err(e),
        Ok(k2) => match remap_pairs(m, meaning, rest) {
            Err(e) => Err(e),
            Ok(ps) => Ok(ChainView { first: KeyValue { key: k2, value: first.value }, rest: ps }),
        },
    }
}

/// Once a pair's lookup fails after a clean prefix, the whole list
/// fails with that error.
proof fn lemma_remap_pairs_err<K, K2, E, M: TypedKeyMapper<K, K2, E>>(
    m: M,
    meaning: KeyMeaning,
    rest: Seq<(Logical, KeyValue<K>)>,
    i: int,
    e: E,
)
    requires
        0 <= i < rest.len(),
        remap_pairs(m, meaning, rest.subrange(0, i)) is Ok,
        m.key_map_spec(rest[i].1.key, meaning) == Err::<K2, E>(e),
    ensures
        remap_pairs(m, meaning, rest) == Err::<Seq<(Logical, KeyValue<K2>)>, E>(e),
    decreases rest.len(),
{
    if i == rest.len() - 1 {
        assert(rest.drop_last() =~= rest.subrange(0, i));
    } else {
        assert(rest.drop_last().subrange(0, i) =~= rest.subrange(0, i));
        lemma_remap_pairs_err::<K, K2, E, M>(m, meaning, rest.drop_last(), i, e);
    }
}

impl<K> LogicChain<K> {
    /// Remaps every identifier of the chain through the lookup under
    /// the given meaning, keeping connectives, order and thresholds.
    /// The first failing lookup is the result; no partial chain is
    /// returned.
    pub fn with_keys<K2, E, M: TypedKeyMapper<K, K2, E>>(
        &self,
        mapper: &M,
        meaning: KeyMeaning,
    ) -> (r: Result<LogicChain<K2>, E>)
        ensures
            match r {
                Ok(b) => remap_chain(*mapper, meaning, self.first, self.rest@) == Ok::<
                    ChainView<K2>,
                    E,
                >(ChainView { first: b.first, rest: b.rest@ }),
                Err(e) => remap_chain(*mapper, meaning, self.first, self.rest@) == Err::<
                    ChainView<K2>,
                    E,
                >(e),
            },
    {
        let first = match self.first.convert_with(mapper, meaning) {
            Err(e) => {
                return Err(e);
            },
            Ok(kv) => kv,
        };
        let mut rest: Vec<(Logical, KeyValue<K2>)> = Vec::new();
        let mut i: usize = 0;
        proof {
            assert(self.rest@.subrange(0, 0) =~= Seq::empty());
        }
        while i < self.rest.len()
            invariant
                i <= self.rest@.len(),
                mapper.key_map_spec(self.first.key, meaning) == Ok::<K2, E>(first.key),
                remap_pairs(*mapper, meaning, self.rest@.subrange(0, i as int)) == Ok::<
                    Seq<(Logical, KeyValue<K2>)>,
                    E,
                >(rest@),
            decreases self.rest@.len() - i,
        {
            let pair = &self.rest[i];
            match pair.1.convert_with(mapper, meaning) {
                Err(e) => {
                    proof {
                        lemma_remap_pairs_err::<K, K2, E, M>(
                            *mapper,
                            meaning,
                            self.rest@,
                            i as int,
                            e,
                        );
                        assert(mapper.key_map_spec(self.first.key, meaning) == Ok::<K2, E>(
                            first.key,
                        ));
                        assert(remap_pairs(*mapper, meaning, self.rest@) == Err::<
                            Seq<(Logical, KeyValue<K2>)>,
                            E,
                        >(e));
                    }
                    return Err(e);
                },
                Ok(kv) => {
                    let ghost prev = self.rest@.subrange(0, i as int);
                    let ghost now = self.rest@.subrange(0, i as int + 1);
                    rest.push((pair.0, kv));
                    proof {
                        assert(now.drop_last() =~= prev);
                        assert(now.last() == self.rest@[i as int]);
                    }
                },
            }
            i = i + 1;
        }
        proof {
            assert(self.rest@.subrange(0, self.rest@.len() as int) =~= self.rest@);
        }
        Ok(LogicChain { first, rest })
    }
}

/// Under an identity lookup, remapping a pair list returns it unchanged.
proof fn lemma_remap_pairs_identity<K, E, M: TypedKeyMapper<K, K, E>>(
    m: M,
    meaning: KeyMeaning,
    rest: Seq<(Logical, KeyValue<K>)>,
)
    requires
        forall|k: K| #[trigger] m.key_map_spec(k, meaning) == Ok::<K, E>(k),
    ensures
        remap_pairs(m, meaning, rest) == Ok::<Seq<(Logical, KeyValue<K>)>, E>(rest),
    decreases rest.len(),
{
    if rest.len() == 0 {
        assert(rest =~= Seq::<(Logical, KeyValue<K>)>::empty());
    } else {
        lemma_remap_pairs_identity(m, meaning, rest.drop_last());
        assert(KeyValue { key: rest.last().1.key, value: rest.last().1.value } =~= rest.last().1);
        assert((rest.last().0, KeyValue { key: rest.last().1.key, value: rest.last().1.value })
            =~= rest.last());
        assert(rest.drop_last().push(rest.last()) =~= rest);
    }
}

/// Remapping identity: an identity lookup yields a structurally equal
/// chain — the same leading term and the same pair list.
pub proof fn lemma_remap_identity_chain<K, E, M: TypedKeyMapper<K, K, E>>(
    m: M,
    meaning: KeyMeaning,
    first: KeyValue<K>,
    rest: Seq<(Logical, KeyValue<K>)>,
)
    requires
        forall|k: K| #[trigger] m.key_map_spec(k, meaning) == Ok::<K, E>(k),
    ensures
        remap_chain(m, meaning, first, rest) == Ok::<ChainView<K>, E>(
            ChainView { first, rest },
        ),
{
    lemma_remap_pairs_identity(m, meaning, rest);
    assert(KeyValue { key: first.key, value: first.value } =~= first);
    assert(ChainView { first: KeyValue { key: first.key, value: first.value }, rest }
        =~= ChainView { first, rest });
}

/// When a lookup fails only at one identifier, a pair list remaps
/// cleanly exactly when that identifier does not occur in it, and fails
/// with that one error when it does.
proof fn lemma_remap_pairs_single_failure<K, K2, E, M: TypedKeyMapper<K, K2, E>>(
    m: M,
    meaning: KeyMeaning,
    rest: Seq<(Logical, KeyValue<K>)>,
    k0: K,
    e0: E,
)
    requires
        m.key_map_spec(k0, meaning) == Err::<K2, E>(e0),
        forall|k: K| k != k0 ==> (#[trigger] m.key_map_spec(k, meaning)) is Ok,
    ensures
        (exists|i: int| 0 <= i < rest.len() && (#[trigger] rest[i]).1.key == k0)
            ==> remap_pairs(m, meaning, rest) == Err::<Seq<(Logical, KeyValue<K2>)>, E>(e0),
        (forall|i: int| 0 <= i < rest.len() ==> (#[trigger] rest[i]).1.key != k0)
            ==> remap_pairs(m, meaning, rest) is Ok,
    decreases rest.len(),
{
    if rest.len() > 0 {
        lemma_remap_pairs_single_failure(m, meaning, rest.drop_last(), k0, e0);
        if exists|i: int| 0 <= i < rest.len() && (#[trigger] rest[i]).1.key == k0 {
            let i = choose|i: int| 0 <= i < rest.len() && (#[trigger] rest[i]).1.key == k0;
            if i < rest.len() - 1 {
                assert(rest.drop_last()[i] == rest[i]);
            } else {
                assert(rest.last().1.key == k0);
            }
        }
    }
}

/// The identifiers of a chain, in reading order.
pub open spec fn chain_keys<K>(first: KeyValue<K>, rest: Seq<(Logical, KeyValue<K>)>) -> Seq<K> {
    seq![first.key] + rest.map_values(|p: (Logical, KeyValue<K>)| p.1.key)
}

/// A pair list whose every lookup succeeds remaps cleanly.
proof fn lemma_remap_pairs_all_ok<K, K2, E, M: TypedKeyMapper<K, K2, E>>(
    m: M,
    meaning: KeyMeaning,
    rest: Seq<(Logical, KeyValue<K>)>,
)
    requires
        forall|j: int|
            0 <= j < rest.len() ==> (#[trigger] m.key_map_spec(rest[j].1.key, meaning)) is Ok,
    ensures
        remap_pairs(m, meaning, rest) is Ok,
    decreases rest.len(),
{
    if rest.len() > 0 {
        assert forall|j: int| 0 <= j < rest.drop_last().len() implies (#[trigger] m.key_map_spec(
            rest.drop_last()[j].1.key,
            meaning,
        )) is Ok by {
            assert(rest.drop_last()[j] == rest[j]);
        }
        lemma_remap_pairs_all_ok(m, meaning, rest.drop_last());
    }
}

/// Remapping failure propagation, in general: however many lookups
/// would fail on a chain, the result is exactly the error of the first
/// failing identifier in reading order — never a partial chain.
pub proof fn lemma_remap_first_failure_chain<K, K2, E, M: TypedKeyMapper<K, K2, E>>(
    m: M,
    meaning: KeyMeaning,
    first: KeyValue<K>,
    rest: Seq<(Logical, KeyValue<K>)>,
    i: int,
    e0: E,
)
    requires
        0 <= i < chain_keys(first, rest).len(),
        m.key_map_spec(chain_keys(first, rest)[i], meaning) == Err::<K2, E>(e0),
        forall|j: int|
            0 <= j < i ==> (#[trigger] m.key_map_spec(chain_keys(first, rest)[j], meaning)) is Ok,
    ensures
        remap_chain(m, meaning, first, rest) == Err::<ChainView<K2>, E>(e0),
{
    let keys = chain_keys(first, rest);
    assert(keys[0] == first.key);
    if i == 0 {
        assert(remap_chain(m, meaning, first, rest) == Err::<ChainView<K2>, E>(e0));
    } else {
        assert(m.key_map_spec(keys[0], meaning) is Ok);
        assert(keys[i] == rest[i - 1].1.key);
        let before = rest.subrange(0, i - 1);
        assert forall|j: int| 0 <= j < before.len() implies (#[trigger] m.key_map_spec(
            before[j].1.key,
            meaning,
        )) is Ok by {
            assert(before[j] == rest[j]);
            assert(keys[j + 1] == rest[j].1.key);
        }
        lemma_remap_pairs_all_ok(m, meaning, before);
        lemma_remap_pairs_err::<K, K2, E, M>(m, meaning, rest, i - 1, e0);
    }
}

/// Remapping failure propagation: when the lookup fails at exactly one
/// identifier and that identifier occurs in the chain, the whole
/// remapping is that single failure — never a partial chain; when it
/// does not occur, the remapping succeeds.
pub proof fn lemma_remap_single_failure_chain<K, K2, E, M: TypedKeyMapper<K, K2, E>>(
    m: M,
    meaning: KeyMeaning,
    first: KeyValue<K>,
    rest: Seq<(Logical, KeyValue<K>)>,
    k0: K,
    e0: E,
)
    requires
        m.key_map_spec(k0, meaning) == Err::<K2, E>(e0),
        forall|k: K| k != k0 ==> (#[trigger] m.key_map_spec(k, meaning)) is Ok,
    ensures
        (first.key == k0 || exists|i: int| 0 <= i < rest.len() && (#[trigger] rest[i]).1.key == k0)
            ==> remap_chain(m, meaning, first, rest) == Err::<ChainView<K2>, E>(e0),
        (first.key != k0 && forall|i: int|
            0 <= i < rest.len() ==> (#[trigger] rest[i]).1.key != k0) ==> remap_chain(
            m,
            meaning,
            first,
            rest,
        ) is Ok,
{
    lemma_remap_pairs_single_failure(m, meaning, rest, k0, e0);
}

/// Every OR-run of a chain holds at least one term, and there is at
/// least one run.
pub proof fn lemma_or_groups_nonempty<V>(first: KeyValue<V>, rest: Seq<(Logical, KeyValue<V>)>)
    ensures
        or_groups(first, rest).len() >= 1,
        forall|i: int|
            0 <= i < or_groups(first, rest).len() ==> #[trigger] or_groups(first, rest)[i].len()
                >= 1,
    decreases rest.len(),
{
    if rest.len() > 0 {
        lemma_or_groups_nonempty(first, rest.drop_last());
    }
}

} // verus!

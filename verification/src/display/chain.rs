//! Rendering of the flat chain, and its agreement with the tree path.
//!
//! The chain renderer re-derives the AND-grouping by scanning the
//! connectives exactly as the converter does, but writes text directly
//! instead of building a tree.

use vstd::prelude::*;

use super::config::{ConfigView, LogicFmtConfig};
use super::node::{children_texts, lemma_children_texts_index, lemma_children_texts_len, level_sep, node_text};
use super::{bracketed, join_texts, lemma_join_texts_push, term_text, RenderKey};
use crate::logic::chain::{
    chain_node_view, group_view, lemma_or_groups_nonempty, or_groups, ChainView,
};
use crate::logic::node::NodeView;
use crate::logic::{KeyValue, LogicChain, Logical};

verus! {

/// The text of one OR-run: its terms joined by the OR text.
pub open spec fn or_run_text<K: RenderKey>(g: Seq<KeyValue<K::V>>, cfg: ConfigView) -> Seq<char> {
    join_texts(g.map_values(|t: KeyValue<K::V>| term_text::<K>(t, cfg)), cfg.or)
}

/// An OR-run of more than one term is bracketed wherever several runs
/// stand side by side; a single term never is.
pub open spec fn wrapped_run_text<K: RenderKey>(g: Seq<KeyValue<K::V>>, cfg: ConfigView) -> Seq<
    char,
> {
    if g.len() > 1 {
        bracketed(or_run_text::<K>(g, cfg), cfg)
    } else {
        or_run_text::<K>(g, cfg)
    }
}

/// The text of a whole chain: a single OR-run stands alone, unbracketed;
/// several runs are each bracketed when longer than one term and joined
/// by the AND text, the top-level separator standing immediately before
/// each AND text.
pub open spec fn chain_text<K: RenderKey>(c: ChainView<K::V>, cfg: ConfigView) -> Seq<char> {
    let gs = or_groups(c.first, c.rest);
    if gs.len() == 1 {
        or_run_text::<K>(gs[0], cfg)
    } else {
        join_texts(
            gs.map_values(|g: Seq<KeyValue<K::V>>| wrapped_run_text::<K>(g, cfg)),
            cfg.top_level_sep + cfg.and,
        )
    }
}

/// Extending an OR-run extends its text by the OR text and the new term.
proof fn lemma_or_run_push<K: RenderKey>(g: Seq<KeyValue<K::V>>, t: KeyValue<K::V>, cfg: ConfigView)
    requires
        g.len() >= 1,
    ensures
        or_run_text::<K>(g.push(t), cfg) == or_run_text::<K>(g, cfg) + cfg.or + term_text::<K>(
            t,
            cfg,
        ),
{
    let f = |t: KeyValue<K::V>| term_text::<K>(t, cfg);
    assert(g.push(t).map_values(f) =~= g.map_values(f).push(term_text::<K>(t, cfg)));
    lemma_join_texts_push(g.map_values(f), cfg.or, term_text::<K>(t, cfg));
}

/// The text of a one-term run is the term's text.
proof fn lemma_or_run_single<K: RenderKey>(t: KeyValue<K::V>, cfg: ConfigView)
    ensures
        or_run_text::<K>(seq![t], cfg) == term_text::<K>(t, cfg),
{
    let f = |t: KeyValue<K::V>| term_text::<K>(t, cfg);
    assert(seq![t].map_values(f) =~= seq![term_text::<K>(t, cfg)]);
}

/// A run's terms, each turned into a leaf, render as the terms do.
proof fn lemma_leaf_children_texts<K: RenderKey>(g: Seq<KeyValue<K::V>>, cfg: ConfigView)
    ensures
        children_texts::<K>(
            g.map_values(|kv: KeyValue<K::V>| NodeView::<K::V>::Leaf(kv)),
            cfg,
        ) == g.map_values(|t: KeyValue<K::V>| term_text::<K>(t, cfg)),
    decreases g.len(),
{
    let leaves = g.map_values(|kv: KeyValue<K::V>| NodeView::<K::V>::Leaf(kv));
    let texts = g.map_values(|t: KeyValue<K::V>| term_text::<K>(t, cfg));
    if g.len() == 0 {
        assert(leaves =~= Seq::empty());
        assert(children_texts::<K>(leaves, cfg) =~= texts);
    } else {
        lemma_leaf_children_texts::<K>(g.drop_last(), cfg);
        let prev = g.drop_last().map_values(|kv: KeyValue<K::V>| NodeView::<K::V>::Leaf(kv));
        assert(prev =~= leaves.subrange(0, leaves.len() - 1));
        assert(leaves.last() == NodeView::<K::V>::Leaf(g.last()));
        assert(children_texts::<K>(leaves, cfg) == children_texts::<K>(prev, cfg).push(
            node_text::<K>(leaves.last(), cfg, false),
        ));
        assert(g.drop_last().map_values(|t: KeyValue<K::V>| term_text::<K>(t, cfg)).push(
            term_text::<K>(g.last(), cfg),
        ) =~= texts);
    }
}

/// Away from the root, one OR-run's canonical tree renders as the run
/// does on the chain path, brackets included, under every configuration.
proof fn lemma_group_node_text<K: RenderKey>(g: Seq<KeyValue<K::V>>, cfg: ConfigView)
    requires
        g.len() >= 1,
    ensures
        node_text::<K>(group_view(g), cfg, false) == wrapped_run_text::<K>(g, cfg),
{
    if g.len() == 1 {
        lemma_or_run_single::<K>(g[0], cfg);
        assert(seq![g[0]] =~= g);
    } else {
        let leaves = g.map_values(|kv: KeyValue<K::V>| NodeView::<K::V>::Leaf(kv));
        lemma_leaf_children_texts::<K>(g, cfg);
        assert(level_sep(cfg, false, false) == cfg.or);
    }
}

/// At the root, a single OR-run's canonical tree renders as the run
/// does: never bracketed, and without the top-level separator, which
/// belongs to AND joins alone.
proof fn lemma_group_node_text_root<K: RenderKey>(g: Seq<KeyValue<K::V>>, cfg: ConfigView)
    requires
        g.len() >= 1,
    ensures
        node_text::<K>(group_view(g), cfg, true) == or_run_text::<K>(g, cfg),
{
    if g.len() == 1 {
        lemma_or_run_single::<K>(g[0], cfg);
        assert(seq![g[0]] =~= g);
    } else {
        let leaves = g.map_values(|kv: KeyValue<K::V>| NodeView::<K::V>::Leaf(kv));
        lemma_leaf_children_texts::<K>(g, cfg);
        assert(level_sep(cfg, false, true) == cfg.or);
    }
}

/// The chain path and the tree path agree: for any chain and any
/// configuration, rendering the chain directly and rendering its
/// canonical tree produce the same text.
pub proof fn lemma_render_agree<K: RenderKey>(c: ChainView<K::V>, cfg: ConfigView)
    ensures
        chain_text::<K>(c, cfg) == node_text::<K>(chain_node_view(c), cfg, true),
{
    let gs = or_groups(c.first, c.rest);
    lemma_or_groups_nonempty(c.first, c.rest);
    if gs.len() == 1 {
        lemma_group_node_text_root::<K>(gs[0], cfg);
    } else {
        let ms = gs.map_values(|g: Seq<KeyValue<K::V>>| group_view(g));
        let ws = gs.map_values(|g: Seq<KeyValue<K::V>>| wrapped_run_text::<K>(g, cfg));
        assert(children_texts::<K>(ms, cfg) =~= ws) by {
            lemma_children_texts_len::<K>(ms, cfg);
            assert forall|i: int| 0 <= i < ms.len() implies children_texts::<K>(ms, cfg)[i]
                == ws[i] by {
                lemma_children_texts_index::<K>(ms, cfg, i);
                lemma_group_node_text::<K>(gs[i], cfg);
            }
        }
        assert(level_sep(cfg, true, true) == cfg.top_level_sep + cfg.and);
    }
}

impl<K: RenderKey> LogicChain<K> {
    /// Writes the whole chain out.
    pub fn display(&self, config: &LogicFmtConfig) -> (s: String)
        ensures
            s@ == chain_text::<K>(self@, config@),
    {
        let ghost c = self@;
        let ghost cfg = config@;
        let mut out = String::new();
        let mut group = self.first.display(config);
        let mut group_multi = false;
        let mut and_seen = false;
        let mut i: usize = 0;
        proof {
            lemma_or_run_single::<K>(c.first, cfg);
            assert(c.rest.subrange(0, 0) =~= Seq::empty());
        }
        while i < self.rest.len()
            invariant
                0 <= i <= self.rest@.len(),
                c == self@,
                cfg == config@,
                ({
                    let gs = or_groups(c.first, c.rest.subrange(0, i as int));
                    &&& group@ == or_run_text::<K>(gs.last(), cfg)
                    &&& group_multi == (gs.last().len() > 1)
                    &&& and_seen == (gs.len() > 1)
                    &&& out@ == if gs.len() == 1 {
                        Seq::<char>::empty()
                    } else {
                        join_texts(gs.drop_last().map_values(|g: Seq<KeyValue<K::V>>| wrapped_run_text::<K>(g, cfg)), (cfg.top_level_sep + cfg.and)) + (cfg.top_level_sep + cfg.and)
                    }
                }),
            decreases self.rest@.len() - i,
        {
            let ghost gs = or_groups(c.first, c.rest.subrange(0, i as int));
            let ghost gs2 = or_groups(c.first, c.rest.subrange(0, i as int + 1));
            proof {
                assert(c.rest.subrange(0, i as int + 1).drop_last() =~= c.rest.subrange(
                    0,
                    i as int,
                ));
                assert(c.rest.subrange(0, i as int + 1).last() == c.rest[i as int]);
                assert(c.rest[i as int] == (self.rest@[i as int].0, self.rest@[i as int].1@));
                lemma_or_groups_nonempty(c.first, c.rest.subrange(0, i as int));
            }
            let pair = &self.rest[i];
            let ghost t = pair.1@;
            match pair.0 {
                Logical::Or => {
                    group.append(config.or.as_str());
                    let part = pair.1.display(config);
                    group.append(part.as_str());
                    group_multi = true;
                    proof {
                        assert(gs2 =~= gs.update(gs.len() - 1, gs.last().push(t)));
                        lemma_or_run_push::<K>(gs.last(), t, cfg);
                        assert(gs2.last() == gs.last().push(t));
                        assert(gs2.drop_last() =~= gs.drop_last());
                        assert(group@ == or_run_text::<K>(gs2.last(), cfg));
                    }
                }
                Logical::And => {
                    // flush the finished run, bracketing it when needed
                    if group_multi {
                        out.append(config.bracket_open.as_str());
                        out.append(group.as_str());
                        out.append(config.bracket_close.as_str());
                    } else {
                        out.append(group.as_str());
                    }
                    out.append(config.top_level_sep.as_str());
                    out.append(config.and.as_str());
                    group = pair.1.display(config);
                    group_multi = false;
                    and_seen = true;
                    proof {
                        assert(gs2 =~= gs.push(seq![t]));
                        assert(gs2.last() == seq![t]);
                        assert(gs2.drop_last() =~= gs);
                        lemma_or_run_single::<K>(t, cfg);
                        assert(gs.map_values(|g: Seq<KeyValue<K::V>>| wrapped_run_text::<K>(g, cfg)) =~= gs.drop_last().map_values(|g: Seq<KeyValue<K::V>>| wrapped_run_text::<K>(g, cfg)).push(
                            wrapped_run_text::<K>(gs.last(), cfg),
                        ));
                        if gs.len() == 1 {
                            assert(join_texts(gs.map_values(|g: Seq<KeyValue<K::V>>| wrapped_run_text::<K>(g, cfg)), (cfg.top_level_sep + cfg.and)) == wrapped_run_text::<K>(gs[0], cfg));
                            assert(gs.last() == gs[0]);
                            assert(out@ =~= join_texts(gs2.drop_last().map_values(|g: Seq<KeyValue<K::V>>| wrapped_run_text::<K>(g, cfg)), (cfg.top_level_sep + cfg.and))
                                + (cfg.top_level_sep + cfg.and));
                        } else {
                            lemma_join_texts_push(gs.drop_last().map_values(|g: Seq<KeyValue<K::V>>| wrapped_run_text::<K>(g, cfg)), (cfg.top_level_sep + cfg.and), wrapped_run_text::<K>(gs.last(), cfg));
                            assert(out@ =~= join_texts(gs2.drop_last().map_values(|g: Seq<KeyValue<K::V>>| wrapped_run_text::<K>(g, cfg)), (cfg.top_level_sep + cfg.and))
                                + (cfg.top_level_sep + cfg.and));
                        }
                    }
                }
            }
            i = i + 1;
        }
        proof {
            assert(c.rest.subrange(0, c.rest.len() as int) =~= c.rest);
            lemma_or_groups_nonempty(c.first, c.rest);
        }
        let ghost gs = or_groups(c.first, c.rest);
        if !and_seen {
            proof {
                assert(gs.last() == gs[0]);
            }
            group
        } else {
            if group_multi {
                out.append(config.bracket_open.as_str());
                out.append(group.as_str());
                out.append(config.bracket_close.as_str());
            } else {
                out.append(group.as_str());
            }
            proof {
                assert(gs.map_values(|g: Seq<KeyValue<K::V>>| wrapped_run_text::<K>(g, cfg)) =~= gs.drop_last().map_values(|g: Seq<KeyValue<K::V>>| wrapped_run_text::<K>(g, cfg)).push(wrapped_run_text::<K>(gs.last(), cfg)));
                lemma_join_texts_push(gs.drop_last().map_values(|g: Seq<KeyValue<K::V>>| wrapped_run_text::<K>(g, cfg)), (cfg.top_level_sep + cfg.and), wrapped_run_text::<K>(gs.last(), cfg));
                assert(out@ =~= join_texts(gs.map_values(|g: Seq<KeyValue<K::V>>| wrapped_run_text::<K>(g, cfg)), (cfg.top_level_sep + cfg.and)));
            }
            out
        }
    }
}

} // verus!

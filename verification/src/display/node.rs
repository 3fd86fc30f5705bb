//! Rendering of the canonical tree.

use vstd::prelude::*;

use super::config::{ConfigView, LogicFmtConfig};
use super::{bracketed, join_texts, lemma_join_texts_push, term_text, RenderKey};
use crate::logic::node::NodeView;
use crate::logic::LogicNode;

verus! {

/// The separator between the children of one inner node: the plain
/// connective text; at the root, every AND text is preceded by the
/// top-level separator, which belongs to AND joins alone.
pub open spec fn level_sep(cfg: ConfigView, and: bool, root: bool) -> Seq<char> {
    if and && root {
        cfg.top_level_sep + cfg.and
    } else if and {
        cfg.and
    } else {
        cfg.or
    }
}

/// The text of one tree node. A non-root node with any number of
/// children other than one is bracketed; the root never is.
pub open spec fn node_text<K: RenderKey>(n: NodeView<K::V>, cfg: ConfigView, root: bool) -> Seq<
    char,
>
    decreases n,
{
    match n {
        NodeView::Leaf(t) => term_text::<K>(t, cfg),
        NodeView::And(ns) => list_text(children_texts::<K>(ns, cfg), cfg, ns.len(), true, root),
        NodeView::Or(ns) => list_text(children_texts::<K>(ns, cfg), cfg, ns.len(), false, root),
    }
}

/// The texts of a node's children, each rendered as a non-root node.
pub open spec fn children_texts<K: RenderKey>(ns: Seq<NodeView<K::V>>, cfg: ConfigView) -> Seq<
    Seq<char>,
>
    decreases ns,
{
    if ns.len() == 0 {
        Seq::empty()
    } else {
        children_texts::<K>(ns.subrange(0, ns.len() - 1), cfg).push(
            node_text::<K>(ns.last(), cfg, false),
        )
    }
}

/// Joined children texts, bracketed away from the root when the child
/// count differs from one.
pub open spec fn list_text(
    parts: Seq<Seq<char>>,
    cfg: ConfigView,
    count: nat,
    and: bool,
    root: bool,
) -> Seq<char> {
    let body = join_texts(parts, level_sep(cfg, and, root));
    if !root && count != 1 {
        bracketed(body, cfg)
    } else {
        body
    }
}

/// There are as many children texts as children, and each is its
/// child's text.
pub proof fn lemma_children_texts_index<K: RenderKey>(
    ns: Seq<NodeView<K::V>>,
    cfg: ConfigView,
    i: int,
)
    requires
        0 <= i < ns.len(),
    ensures
        children_texts::<K>(ns, cfg).len() == ns.len(),
        children_texts::<K>(ns, cfg)[i] == node_text::<K>(ns[i], cfg, false),
    decreases ns.len(),
{
    lemma_children_texts_len::<K>(ns, cfg);
    if i < ns.len() - 1 {
        lemma_children_texts_index::<K>(ns.subrange(0, ns.len() - 1), cfg, i);
        assert(ns.subrange(0, ns.len() - 1)[i] == ns[i]);
    }
}

/// There are as many children texts as children.
pub proof fn lemma_children_texts_len<K: RenderKey>(ns: Seq<NodeView<K::V>>, cfg: ConfigView)
    ensures
        children_texts::<K>(ns, cfg).len() == ns.len(),
    decreases ns.len(),
{
    if ns.len() > 0 {
        lemma_children_texts_len::<K>(ns.subrange(0, ns.len() - 1), cfg);
    }
}

impl<K: RenderKey> LogicNode<K> {
    /// Writes the whole tree out; the tree as given is the root.
    pub fn display(&self, config: &LogicFmtConfig) -> (s: String)
        ensures
            s@ == node_text::<K>(self@, config@, true),
    {
        self.display_at(config, true)
    }

    /// Writes one node out, bracketing it when it is an inner non-root
    /// node whose child count differs from one.
    fn display_at(&self, config: &LogicFmtConfig, root: bool) -> (s: String)
        ensures
            s@ == node_text::<K>(self@, config@, root),
        decreases *self,
    {
        match self {
            LogicNode::KeyValue(kv) => kv.display(config),
            LogicNode::And(nodes) => {
                proof {
                    crate::logic::node::lemma_node_views_len(nodes@);
                }
                Self::display_list(nodes, config, true, root)
            },
            LogicNode::Or(nodes) => {
                proof {
                    crate::logic::node::lemma_node_views_len(nodes@);
                }
                Self::display_list(nodes, config, false, root)
            },
        }
    }

    /// Writes a row of sibling nodes out, joined by the connective text.
    fn display_list(nodes: &Vec<LogicNode<K>>, config: &LogicFmtConfig, and: bool, root: bool) -> (s:
        String)
        ensures
            s@ == list_text(
                children_texts::<K>(crate::logic::node::node_views(nodes@), config@),
                config@,
                nodes@.len() as nat,
                and,
                root,
            ),
        decreases *nodes,
    {
        let ghost ns = crate::logic::node::node_views(nodes@);
        proof {
            crate::logic::node::lemma_node_views_len(nodes@);
        }
        let mut body = String::new();
        let mut i: usize = 0;
        while i < nodes.len()
            invariant
                0 <= i <= nodes@.len(),
                ns == crate::logic::node::node_views(nodes@),
                ns.len() == nodes@.len(),
                body@ == join_texts(
                    children_texts::<K>(ns.subrange(0, i as int), config@),
                    level_sep(config@, and, root),
                ),
            decreases nodes@.len() - i,
        {
            proof {
                assert(decreases_to!(*nodes => nodes@[i as int]));
            }
            if i > 0 {
                if and {
                    if root {
                        body.append(config.top_level_sep.as_str());
                    }
                    body.append(config.and.as_str());
                } else {
                    body.append(config.or.as_str());
                }
            }
            let part = nodes[i].display_at(config, false);
            body.append(part.as_str());
            proof {
                crate::logic::node::lemma_node_views_index(nodes@, i as int);
                let prev = ns.subrange(0, i as int);
                let now = ns.subrange(0, i as int + 1);
                assert(now.drop_last() =~= prev);
                assert(now.last() == ns[i as int]);
                lemma_children_texts_len::<K>(prev, config@);
                if i == 0 {
                    assert(children_texts::<K>(now, config@) == children_texts::<K>(
                        prev,
                        config@,
                    ).push(node_text::<K>(ns[i as int], config@, false)));
                    assert(body@ =~= join_texts(
                        children_texts::<K>(now, config@),
                        level_sep(config@, and, root),
                    ));
                } else {
                    lemma_join_texts_push(
                        children_texts::<K>(prev, config@),
                        level_sep(config@, and, root),
                        node_text::<K>(ns[i as int], config@, false),
                    );
                    assert(body@ =~= join_texts(
                        children_texts::<K>(now, config@),
                        level_sep(config@, and, root),
                    ));
                }
            }
            i = i + 1;
        }
        proof {
            assert(ns.subrange(0, ns.len() as int) =~= ns);
        }
        if !root && nodes.len() != 1 {
            let mut s = String::new();
            s.append(config.bracket_open.as_str());
            s.append(body.as_str());
            s.append(config.bracket_close.as_str());
            s
        } else {
            body
        }
    }
}

} // verus!

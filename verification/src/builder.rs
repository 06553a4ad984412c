//! A fluent helper for building chains of command nodes.
//!
//! Deep command trees read more naturally as a list of steps than as nested
//! constructor calls. The builder collects non-terminal nodes in order;
//! [`CommandBuilder::finalize`] folds them, from the last inserted node
//! backwards, into one branch ending in a terminal, and
//! [`CommandBuilder::split`] ends the branch with several subtrees instead.

use vstd::prelude::*;

use crate::command_node::{
    lemma_node_views_append, lemma_node_views_index, lemma_node_views_len, lemma_node_views_push,
    node_views, spec_children, with_children, ArgumentType, AuthorityLevel, CommandNode, NodeView,
};
use crate::text::str_views;
use vstd::pervasive::unreached;

verus! {

/// Builds one branch of a command tree, node by node.
pub struct CommandBuilder<C> {
    nodes: Vec<CommandNode<C>>,
}

/// `nodes` folded from the back onto `acc`: each node in turn takes the
/// result built so far as one more child.
pub open spec fn spec_fold<C>(acc: NodeView<C>, nodes: Seq<NodeView<C>>) -> NodeView<C>
    decreases nodes.len(),
{
    if nodes.len() == 0 {
        acc
    } else {
        spec_fold(
            with_children(nodes.last(), spec_children(nodes.last()).push(acc)),
            nodes.drop_last(),
        )
    }
}

impl<C> CommandBuilder<C> {
    /// The views of the nodes inserted so far, in insertion order.
    pub closed spec fn pending(self) -> Seq<NodeView<C>> {
        node_views(self.nodes@)
    }

    /// No inserted node is a terminal, so each of them can take children.
    pub open spec fn wf(self) -> bool {
        forall|i: int|
            0 <= i < self.pending().len() ==> !((#[trigger] self.pending()[i]) is Final)
    }

    /// Starts an empty builder.
    pub fn new() -> (r: Self)
        ensures
            r.pending() == Seq::<NodeView<C>>::empty(),
            r.wf(),
    {
        let r = Self { nodes: Vec::new() };
        proof {
            assert(r.pending() =~= Seq::<NodeView<C>>::empty());
        }
        r
    }

    /// Appends a node that accepts any of the given literals.
    pub fn literal(self, literals: Vec<String>) -> (r: Self)
        ensures
            r.pending() == self.pending().push(
                (NodeView::Literal { literals: str_views(literals@), children: Seq::empty() }),
            ),
            self.wf() ==> r.wf(),
    {
        let ghost old_nodes = self.nodes@;
        let mut s = self;
        let node = CommandNode::literal(literals, Vec::new());
        s.nodes.push(node);
        proof {
            lemma_node_views_push(old_nodes, node);
            assert(node_views(Seq::<CommandNode<C>>::empty()) =~= Seq::<NodeView<C>>::empty());
        }
        s
    }

    /// Appends a node that captures the next whitespace-delimited word.
    pub fn word(self) -> (r: Self)
        ensures
            r.pending() == self.pending().push(
                (NodeView::Argument {
                    argument_type: ArgumentType::Word,
                    children: Seq::empty(),
                }),
            ),
            self.wf() ==> r.wf(),
    {
        let ghost old_nodes = self.nodes@;
        let mut s = self;
        let node = CommandNode::argument(ArgumentType::Word, Vec::new());
        s.nodes.push(node);
        proof {
            lemma_node_views_push(old_nodes, node);
            assert(node_views(Seq::<CommandNode<C>>::empty()) =~= Seq::<NodeView<C>>::empty());
        }
        s
    }

    /// Appends a node that captures the whole remaining line.
    pub fn line(self) -> (r: Self)
        ensures
            r.pending() == self.pending().push(
                (NodeView::Argument {
                    argument_type: ArgumentType::Line,
                    children: Seq::empty(),
                }),
            ),
            self.wf() ==> r.wf(),
    {
        let ghost old_nodes = self.nodes@;
        let mut s = self;
        let node = CommandNode::argument(ArgumentType::Line, Vec::new());
        s.nodes.push(node);
        proof {
            lemma_node_views_push(old_nodes, node);
            assert(node_views(Seq::<CommandNode<C>>::empty()) =~= Seq::<NodeView<C>>::empty());
        }
        s
    }

    /// Appends a node that accepts only the given alternatives and captures
    /// the chosen one as an argument.
    pub fn choice(self, choices: Vec<String>) -> (r: Self)
        ensures
            r.pending() == self.pending().push(
                (NodeView::ArgumentChoice {
                    choices: str_views(choices@),
                    children: Seq::empty(),
                }),
            ),
            self.wf() ==> r.wf(),
    {
        let ghost old_nodes = self.nodes@;
        let mut s = self;
        let node = CommandNode::argument_choice(choices, Vec::new());
        s.nodes.push(node);
        proof {
            lemma_node_views_push(old_nodes, node);
            assert(node_views(Seq::<CommandNode<C>>::empty()) =~= Seq::<NodeView<C>>::empty());
        }
        s
    }

    /// Ends the branch with a terminal node and folds the inserted nodes
    /// into one tree, outermost node first.
    pub fn finalize(
        self,
        expects_empty_message: bool,
        authority_level: AuthorityLevel,
        command: C,
    ) -> (r: CommandNode<C>)
        requires
            self.wf(),
        ensures
            r@ == spec_fold(
                (NodeView::Final { expects_empty_message, authority_level, command }),
                self.pending(),
            ),
    {
        let final_node = CommandNode::final_node(expects_empty_message, authority_level, command);
        proof {
            assert forall|i: int| 0 <= i < self.nodes@.len() implies !((#[trigger] self.nodes@[i])@
                is Final) by {
                lemma_node_views_len(self.nodes@);
                lemma_node_views_index(self.nodes@, i);
            }
        }
        fold_nodes(final_node, self.nodes)
    }

    /// Ends the branch by attaching several subtrees to the last inserted
    /// node, then folds the rest as [`Self::finalize`] does. Useful when
    /// several commands start from the same pattern; at least one node must
    /// have been inserted.
    pub fn split(self, children: Vec<CommandNode<C>>) -> (r: CommandNode<C>)
        requires
            self.wf(),
            self.pending().len() > 0,
        ensures
            r@ == spec_fold(
                with_children(
                    self.pending().last(),
                    spec_children(self.pending().last()) + node_views(children@),
                ),
                self.pending().drop_last(),
            ),
    {
        proof {
            lemma_node_views_len(self.nodes@);
            assert forall|i: int| 0 <= i < self.nodes@.len() implies !((#[trigger] self.nodes@[i])@
                is Final) by {
                lemma_node_views_index(self.nodes@, i);
            }
        }
        let ghost pre_nodes = self.nodes@;
        let mut nodes = self.nodes;
        let mut last = match nodes.pop() {
            Some(p) => p,
            None => unreached(),
        };
        let ghost last_view = last@;
        proof {
            assert(node_views(pre_nodes) == node_views(pre_nodes.drop_last()).push(
                pre_nodes.last()@,
            ));
            assert(nodes@ =~= pre_nodes.drop_last());
            assert(self.pending().last() == last_view);
        }
        let mut extra = children;
        match last.children_mut() {
            Some(cs) => {
                let ghost cs_old = (*cs)@;
                cs.append(&mut extra);
                proof {
                    lemma_node_views_append(cs_old, children@);
                }
            },
            None => {
                proof {
                    assert(false);
                }
            },
        }
        proof {
            assert(last@ == with_children(
                last_view,
                spec_children(last_view) + node_views(children@),
            ));
            assert(self.pending().drop_last() =~= node_views(nodes@));
        }
        fold_nodes(last, nodes)
    }
}

impl<C> Default for CommandBuilder<C> {
    /// The same empty builder as [`CommandBuilder::new`].
    fn default() -> (r: Self)
        ensures
            r.pending() == Seq::<NodeView<C>>::empty(),
            r.wf(),
    {
        Self::new()
    }
}

/// Folds `nodes` from the back onto `final_node`: each popped node takes
/// the tree built so far as one more child.
fn fold_nodes<C>(final_node: CommandNode<C>, nodes: Vec<CommandNode<C>>) -> (r: CommandNode<C>)
    requires
        forall|i: int| 0 <= i < nodes@.len() ==> !((#[trigger] nodes@[i])@ is Final),
    ensures
        r@ == spec_fold(final_node@, node_views(nodes@)),
{
    let ghost target = spec_fold(final_node@, node_views(nodes@));
    let mut acc = final_node;
    let mut nodes = nodes;
    while nodes.len() > 0
        invariant
            spec_fold(acc@, node_views(nodes@)) == target,
            forall|i: int| 0 <= i < nodes@.len() ==> !((#[trigger] nodes@[i])@ is Final),
        decreases nodes@.len(),
    {
        let ghost pre_nodes = nodes@;
        let ghost acc_view = acc@;
        let mut parent = match nodes.pop() {
            Some(p) => p,
            None => unreached(),
        };
        let ghost parent_view = parent@;
        proof {
            assert(node_views(pre_nodes) == node_views(pre_nodes.drop_last()).push(
                pre_nodes.last()@,
            ));
            assert(nodes@ =~= pre_nodes.drop_last());
        }
        match parent.children_mut() {
            Some(cs) => {
                let ghost cs_old = (*cs)@;
                cs.push(acc);
                proof {
                    lemma_node_views_push(cs_old, acc);
                }
            },
            None => {
                proof {
                    assert(false);
                }
            },
        }
        proof {
            assert(parent@ == with_children(
                parent_view,
                spec_children(parent_view).push(acc_view),
            ));
            assert(node_views(pre_nodes).len() > 0);
            assert(node_views(pre_nodes).last() == parent_view);
            assert(node_views(pre_nodes).drop_last() =~= node_views(nodes@));
            assert(spec_fold(parent@, node_views(nodes@)) == spec_fold(
                acc_view,
                node_views(pre_nodes),
            ));
        }
        acc = parent;
    }
    proof {
        assert(node_views(nodes@) =~= Seq::<NodeView<C>>::empty());
    }
    acc
}

} // verus!

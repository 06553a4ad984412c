//! A routing layer for text-driven command interfaces.
//!
//! A [`Commands`] registry holds an ordered list of independent root
//! [`CommandNode`] trees. An incoming [`CommandMessage`] is matched against
//! every root by the backtracking matcher; each root yields at most one
//! terminal together with the arguments captured along the path. Matches
//! whose terminal demands more authority than the sender has are silently
//! filtered, and the handlers of all surviving matches run in root order.

use vstd::prelude::*;

pub mod builder;
pub mod command_message;
pub mod command_node;
pub mod completion;
pub mod constructor;
pub mod text;

pub use builder::CommandBuilder;
pub use command_message::CommandMessage;
pub use command_node::{
    node_check, node_views, Argument, ArgumentType, AuthorityLevel, CommandNode, Handler, NodeView,
};

use crate::text::{str_views, trim, trim_str};

verus! {

/// An ordered registry of independent root command trees.
pub struct Commands<C> {
    pub commands: Vec<CommandNode<C>>,
}

/// The matches that dispatching `msg` with the given sender authority over
/// `roots` yields: for each root whose tree matches the trimmed text and
/// whose terminal the authority level meets, the bound handler and the
/// captured arguments, in root order.
pub open spec fn spec_find_commands<C>(
    roots: Seq<NodeView<C>>,
    msg: Seq<char>,
    authority: AuthorityLevel,
) -> Seq<(C, Seq<Seq<char>>)>
    decreases roots.len(),
{
    if roots.len() == 0 {
        Seq::empty()
    } else {
        let pre = spec_find_commands(roots.drop_last(), msg, authority);
        match node_check(roots.last(), trim(msg), Seq::empty()) {
            Some(p) => match p.0 {
                NodeView::Final { authority_level, command, .. } => if authority_level
                    <= authority {
                    pre.push((command, p.1))
                } else {
                    pre
                },
                _ => pre,
            },
            None => pre,
        }
    }
}

/// Dispatch is deterministic: the matches are a function of the tree, the
/// message text and the sender's authority alone, so any two results that
/// model dispatching the same message over the same roots are equal.
pub proof fn lemma_find_commands_deterministic<C>(
    roots: Seq<NodeView<C>>,
    msg: Seq<char>,
    authority: AuthorityLevel,
    r1: Seq<(C, Seq<Seq<char>>)>,
    r2: Seq<(C, Seq<Seq<char>>)>,
)
    requires
        r1 == spec_find_commands(roots, msg, authority),
        r2 == spec_find_commands(roots, msg, authority),
    ensures
        r1 == r2,
{
}

/// Authority gating: a terminal that structurally matched reaches the
/// result exactly when the sender's authority level is at least the
/// terminal's; meeting it exactly is enough.
pub proof fn lemma_authority_gate<C>(
    root: NodeView<C>,
    msg: Seq<char>,
    authority: AuthorityLevel,
    f: NodeView<C>,
    a: Seq<Seq<char>>,
)
    requires
        node_check(root, trim(msg), Seq::empty()) == Some((f, a)),
        f is Final,
    ensures
        f->Final_authority_level <= authority ==> spec_find_commands(seq![root], msg, authority)
            =~= seq![(f->Final_command, a)],
        f->Final_authority_level > authority ==> spec_find_commands(seq![root], msg, authority)
            =~= Seq::<(C, Seq<Seq<char>>)>::empty(),
{
    assert(seq![root].drop_last() =~= Seq::<NodeView<C>>::empty());
    assert(seq![root].last() == root);
    assert(spec_find_commands(Seq::<NodeView<C>>::empty(), msg, authority) =~= Seq::<
        (C, Seq<Seq<char>>),
    >::empty());
    assert(Seq::<(C, Seq<Seq<char>>)>::empty().push((f->Final_command, a)) =~= seq![
        (f->Final_command, a),
    ]);
}

/// Multi-root dispatch: running the roots of two registries one after the
/// other yields the matches of each in order, so independent roots that
/// both match the same message both appear, root order preserved.
pub proof fn lemma_multi_root_append<C>(
    roots1: Seq<NodeView<C>>,
    roots2: Seq<NodeView<C>>,
    msg: Seq<char>,
    authority: AuthorityLevel,
)
    ensures
        spec_find_commands(roots1 + roots2, msg, authority) == spec_find_commands(
            roots1,
            msg,
            authority,
        ) + spec_find_commands(roots2, msg, authority),
    decreases roots2.len(),
{
    let l1 = spec_find_commands(roots1, msg, authority);
    if roots2.len() == 0 {
        assert(roots1 + roots2 =~= roots1);
        assert(l1 + spec_find_commands(roots2, msg, authority) =~= l1);
    } else {
        lemma_multi_root_append(roots1, roots2.drop_last(), msg, authority);
        assert((roots1 + roots2).drop_last() =~= roots1 + roots2.drop_last());
        assert((roots1 + roots2).last() == roots2.last());
        let pre2 = spec_find_commands(roots2.drop_last(), msg, authority);
        match node_check(roots2.last(), trim(msg), Seq::empty()) {
            Some(p) => match p.0 {
                NodeView::Final { authority_level, command, .. } => {
                    if authority_level <= authority {
                        assert((l1 + pre2).push((command, p.1)) =~= l1 + pre2.push(
                            (command, p.1),
                        ));
                    }
                },
                _ => {},
            },
            None => {},
        }
    }
}

impl<C> Commands<C> {
    /// A registry over the given root trees, kept in order.
    pub fn new(commands: Vec<CommandNode<C>>) -> (r: Self)
        ensures
            r.commands@ == commands@,
    {
        Self { commands }
    }

    /// Matches `message` against every root and returns, in root order, the
    /// handler and captured arguments of each match the sender's authority
    /// level admits, exactly as [`spec_find_commands`] describes.
    pub fn find_commands<'a, S>(&'a self, message: &CommandMessage<S>) -> (r: Vec<
        (&'a C, Vec<Argument>),
    >)
        ensures
            ({
                let found = spec_find_commands(
                    node_views(self.commands@),
                    message.message_text@,
                    message.authority_level,
                );
                &&& r@.len() == found.len()
                &&& forall|j: int|
                    0 <= j < r@.len() ==> *(#[trigger] r@[j]).0 == found[j].0 && str_views(
                        r@[j].1@,
                    ) == found[j].1
            }),
    {
        let trimmed = trim_str(message.message_text.as_str());
        let ghost roots = node_views(self.commands@);
        let ghost msg_view = message.message_text@;
        let ghost authority = message.authority_level;
        proof {
            command_node::lemma_node_views_len(self.commands@);
            assert(roots.take(0) =~= Seq::<NodeView<C>>::empty());
        }
        let n = self.commands.len();
        let mut found: Vec<(&C, Vec<Argument>)> = Vec::new();
        let mut i: usize = 0;
        while i < n
            invariant
                0 <= i <= n,
                n == self.commands@.len(),
                roots == node_views(self.commands@),
                roots.len() == n,
                msg_view == message.message_text@,
                authority == message.authority_level,
                trimmed@ == trim(msg_view),
                found@.len() == spec_find_commands(roots.take(i as int), msg_view, authority).len(),
                forall|j: int|
                    0 <= j < found@.len() ==> *(#[trigger] found@[j]).0 == spec_find_commands(
                        roots.take(i as int),
                        msg_view,
                        authority,
                    )[j].0 && str_views(found@[j].1@) == spec_find_commands(
                        roots.take(i as int),
                        msg_view,
                        authority,
                    )[j].1,
            decreases n - i,
        {
            proof {
                command_node::lemma_node_views_index(self.commands@, i as int);
                assert(roots.take(i + 1).drop_last() =~= roots.take(i as int));
                assert(roots.take(i + 1).last() == roots[i as int]);
                assert(str_views(Seq::<Argument>::empty()) =~= Seq::<Seq<char>>::empty());
            }
            let ghost pre = spec_find_commands(roots.take(i as int), msg_view, authority);
            let ghost cur = spec_find_commands(roots.take(i + 1), msg_view, authority);
            let empty_args: Vec<Argument> = Vec::new();
            match self.commands[i].check_node(trimmed, empty_args) {
                Some(p) => {
                    let (node, args) = p;
                    match node {
                        CommandNode::Final { authority_level, command, .. } => {
                            if *authority_level <= message.authority_level {
                                found.push((command, args));
                                proof {
                                    assert(cur == pre.push((*command, str_views(args@))));
                                }
                            } else {
                                proof {
                                    assert(cur == pre);
                                }
                            }
                        },
                        _ => {
                            proof {
                                assert(false);
                            }
                        },
                    }
                },
                None => {
                    proof {
                        assert(cur == pre);
                    }
                },
            }
            i = i + 1;
        }
        proof {
            assert(roots.take(n as int) =~= roots);
        }
        found
    }

    /// Runs the handler of every match that [`Self::find_commands`] yields,
    /// in the same order, giving each exclusive access to `actor`, and
    /// collects their results.
    pub fn perform_commands<T, S, R>(
        &self,
        actor: &mut T,
        message: &CommandMessage<S>,
    ) -> (r: Vec<R>) where C: Handler<T, S, R>
        ensures
            r@.len() == spec_find_commands(
                node_views(self.commands@),
                message.message_text@,
                message.authority_level,
            ).len(),
    {
        let mut found = self.find_commands(message);
        let ghost total = found@.len();
        let mut results: Vec<R> = Vec::new();
        while found.len() > 0
            invariant
                results@.len() + found@.len() == total,
            decreases found@.len(),
        {
            let (handler, args) = found.remove(0);
            let res = handler.call(actor, &message.sender, args);
            results.push(res);
        }
        results
    }
}

} // verus!

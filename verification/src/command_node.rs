//! The command tree and the backtracking matcher.
//!
//! A tree of [`CommandNode`]s describes the shape of the commands a registry
//! accepts. Matching walks the tree depth first: at each interior node the
//! first alternative that can consume a prefix of the remaining input is
//! chosen, the input is stripped and trimmed, and each child is tried in
//! order until one reaches a [`CommandNode::Final`] terminal. The spec
//! functions [`node_check`] and [`children_check`] are the mathematical
//! model of that walk; [`CommandNode::check_node`] is proved against them.

use vstd::prelude::*;

use crate::text::{
    find_first_prefix, first_prefix, is_prefix, is_space, lemma_first_prefix_some,
    lemma_str_views_push, str_views, token_len, token_len_str, trim, trim_start, trim_start_str,
    trim_str,
};

verus! {

/// The privilege tier a caller must meet or exceed for a terminal to run.
pub type AuthorityLevel = usize;

/// A piece of text captured while matching, in positional order.
pub type Argument = String;

/// A handler bound to a terminal node. The registry invokes it with the
/// shared actor, the message's sender and the captured arguments; the result
/// is passed through uninterpreted.
pub trait Handler<T, S, R> {
    fn call(&self, actor: &mut T, sender: &S, arguments: Vec<Argument>) -> R;
}

/// Whether an argument node consumes one token or the whole remaining line.
#[derive(Clone, Copy, Debug)]
pub enum ArgumentType {
    Word,
    Line,
}

/// One node of a command tree, generic over the handler payload `C` that
/// terminals carry.
pub enum CommandNode<C> {
    /// Matches if the remaining input starts with any listed literal, first
    /// match wins; the matched text is discarded.
    Literal { literals: Vec<String>, child_nodes: Vec<CommandNode<C>> },
    /// Captures a whitespace-delimited token (`Word`) or the whole remaining
    /// non-empty input (`Line`) as an argument.
    Argument { argument_type: ArgumentType, child_nodes: Vec<CommandNode<C>> },
    /// Matches like `Literal`, but the matched alternative is also captured
    /// as an argument.
    ArgumentChoice { choices: Vec<String>, child_nodes: Vec<CommandNode<C>> },
    /// A terminal: succeeds when reached, unless `expects_empty_message` is
    /// set and input is left over after trimming.
    Final { expects_empty_message: bool, authority_level: AuthorityLevel, command: C },
}

/// The mathematical model of a command tree: the same shape with strings as
/// character sequences and child lists as sequences.
pub enum NodeView<C> {
    Literal { literals: Seq<Seq<char>>, children: Seq<NodeView<C>> },
    Argument { argument_type: ArgumentType, children: Seq<NodeView<C>> },
    ArgumentChoice { choices: Seq<Seq<char>>, children: Seq<NodeView<C>> },
    Final { expects_empty_message: bool, authority_level: AuthorityLevel, command: C },
}

impl<C> View for CommandNode<C> {
    type V = NodeView<C>;

    open spec fn view(&self) -> NodeView<C>
        decreases self,
    {
        match self {
            CommandNode::Literal { literals, child_nodes } => NodeView::Literal {
                literals: str_views(literals@),
                children: node_views(child_nodes@),
            },
            CommandNode::Argument { argument_type, child_nodes } => NodeView::Argument {
                argument_type: *argument_type,
                children: node_views(child_nodes@),
            },
            CommandNode::ArgumentChoice { choices, child_nodes } => NodeView::ArgumentChoice {
                choices: str_views(choices@),
                children: node_views(child_nodes@),
            },
            CommandNode::Final { expects_empty_message, authority_level, command } => (
            NodeView::Final {
                expects_empty_message: *expects_empty_message,
                authority_level: *authority_level,
                command: *command,
            }),
        }
    }
}

/// The views of a sequence of nodes, elementwise.
pub open spec fn node_views<C>(s: Seq<CommandNode<C>>) -> Seq<NodeView<C>>
    decreases s,
{
    if s.len() == 0 {
        Seq::empty()
    } else {
        node_views(s.drop_last()).push(s.last()@)
    }
}

/// `node_views` maps each node to its view and keeps the length.
pub broadcast proof fn lemma_node_views_len<C>(s: Seq<CommandNode<C>>)
    ensures
        #[trigger] node_views(s).len() == s.len(),
    decreases s.len(),
{
    if s.len() > 0 {
        assert(node_views(s) == node_views(s.drop_last()).push(s.last()@));
        lemma_node_views_len(s.drop_last());
        assert(s.drop_last().len() == s.len() - 1);
    }
}

/// The view of the node at `i` is at `i` in the views.
pub broadcast proof fn lemma_node_views_index<C>(s: Seq<CommandNode<C>>, i: int)
    requires
        0 <= i < s.len(),
    ensures
        #[trigger] node_views(s)[i] == s[i]@,
    decreases s.len(),
{
    assert(node_views(s) == node_views(s.drop_last()).push(s.last()@));
    lemma_node_views_len(s.drop_last());
    if i < s.len() - 1 {
        lemma_node_views_index(s.drop_last(), i);
        assert(s.drop_last()[i] == s[i]);
    } else {
        assert(node_views(s)[i] == s.last()@);
    }
}

/// Pushing a node and taking views commute.
pub proof fn lemma_node_views_push<C>(s: Seq<CommandNode<C>>, n: CommandNode<C>)
    ensures
        node_views(s.push(n)) == node_views(s).push(n@),
{
    assert(s.push(n).drop_last() =~= s);
    assert(s.push(n).last() == n);
}

/// Concatenation and taking views commute.
pub proof fn lemma_node_views_append<C>(a: Seq<CommandNode<C>>, b: Seq<CommandNode<C>>)
    ensures
        node_views(a + b) == node_views(a) + node_views(b),
    decreases b.len(),
{
    if b.len() == 0 {
        assert(a + b =~= a);
        assert(node_views(a) + node_views(b) =~= node_views(a));
    } else {
        lemma_node_views_append(a, b.drop_last());
        assert((a + b).drop_last() =~= a + b.drop_last());
        assert((a + b).last() == b.last());
        assert(node_views(a + b) == node_views(a + b.drop_last()).push(b.last()@));
        assert(node_views(a) + node_views(b) =~= (node_views(a) + node_views(b.drop_last())).push(
            b.last()@,
        ));
    }
}

/// The children a non-terminal node owns; a terminal owns none.
pub open spec fn spec_children<C>(n: NodeView<C>) -> Seq<NodeView<C>> {
    match n {
        NodeView::Literal { children, .. } => children,
        NodeView::Argument { children, .. } => children,
        NodeView::ArgumentChoice { children, .. } => children,
        NodeView::Final { .. } => Seq::empty(),
    }
}

/// `n` with its child list replaced by `cs`; a terminal is left unchanged.
pub open spec fn with_children<C>(n: NodeView<C>, cs: Seq<NodeView<C>>) -> NodeView<C> {
    match n {
        NodeView::Literal { literals, .. } => NodeView::Literal { literals, children: cs },
        NodeView::Argument { argument_type, .. } => NodeView::Argument {
            argument_type,
            children: cs,
        },
        NodeView::ArgumentChoice { choices, .. } => NodeView::ArgumentChoice {
            choices,
            children: cs,
        },
        NodeView::Final { .. } => n,
    }
}

/// What matching `node` against the remaining input `msg` yields, with
/// `args` the arguments captured so far: the terminal reached and the full
/// argument list, or nothing.
pub open spec fn node_check<C>(
    node: NodeView<C>,
    msg: Seq<char>,
    args: Seq<Seq<char>>,
) -> Option<(NodeView<C>, Seq<Seq<char>>)>
    decreases node,
{
    match node {
        NodeView::Literal { literals, children } => match first_prefix(literals, msg) {
            Some(i) => children_check(children, trim(msg.skip(literals[i].len() as int)), args),
            None => None,
        },
        NodeView::Argument { argument_type, children } => match argument_type {
            ArgumentType::Word => {
                let t = trim_start(msg);
                if t.len() == 0 {
                    None
                } else {
                    children_check(
                        children,
                        trim(t.skip(token_len(t))),
                        args.push(t.subrange(0, token_len(t))),
                    )
                }
            },
            ArgumentType::Line => {
                if trim(msg).len() == 0 {
                    None
                } else {
                    children_check(children, Seq::empty(), args.push(msg))
                }
            },
        },
        NodeView::ArgumentChoice { choices, children } => match first_prefix(choices, msg) {
            Some(i) => children_check(
                children,
                trim(msg.skip(choices[i].len() as int)),
                args.push(choices[i]),
            ),
            None => None,
        },
        NodeView::Final { expects_empty_message, .. } => {
            if expects_empty_message && trim(msg).len() != 0 {
                None
            } else {
                Some((node, args))
            }
        },
    }
}

/// The first success among `children`, each tried in order on the same
/// input and arguments.
pub open spec fn children_check<C>(
    children: Seq<NodeView<C>>,
    msg: Seq<char>,
    args: Seq<Seq<char>>,
) -> Option<(NodeView<C>, Seq<Seq<char>>)>
    decreases children,
{
    if children.len() == 0 {
        None
    } else {
        match node_check(children[0], msg, args) {
            Some(r) => Some(r),
            None => children_check(children.drop_first(), msg, args),
        }
    }
}

/// Whatever matches, matching stops at a terminal: a successful check
/// always hands back a `Final` node.
pub proof fn lemma_node_check_final<C>(node: NodeView<C>, msg: Seq<char>, args: Seq<Seq<char>>)
    ensures
        (node_check(node, msg, args) matches Some(p) ==> p.0 is Final),
    decreases node,
{
    match node {
        NodeView::Literal { literals, children } => {
            match first_prefix(literals, msg) {
                Some(i) => {
                    lemma_children_check_final(
                        children,
                        trim(msg.skip(literals[i].len() as int)),
                        args,
                    );
                },
                None => {},
            }
        },
        NodeView::Argument { children, .. } => {
            let t = trim_start(msg);
            lemma_children_check_final(children, trim(t.skip(token_len(t))), args.push(
                t.subrange(0, token_len(t)),
            ));
            lemma_children_check_final(children, Seq::empty(), args.push(msg));
        },
        NodeView::ArgumentChoice { choices, children } => {
            match first_prefix(choices, msg) {
                Some(i) => {
                    lemma_children_check_final(
                        children,
                        trim(msg.skip(choices[i].len() as int)),
                        args.push(choices[i]),
                    );
                },
                None => {},
            }
        },
        NodeView::Final { .. } => {},
    }
}

/// The terminal found among a child list is a `Final` node.
pub proof fn lemma_children_check_final<C>(
    children: Seq<NodeView<C>>,
    msg: Seq<char>,
    args: Seq<Seq<char>>,
)
    ensures
        (children_check(children, msg, args) matches Some(p) ==> p.0 is Final),
    decreases children,
{
    if children.len() > 0 {
        lemma_node_check_final(children[0], msg, args);
        lemma_children_check_final(children.drop_first(), msg, args);
    }
}

/// A literal node can only match when some listed alternative is a prefix
/// of the remaining input.
pub proof fn lemma_literal_requires_prefix<C>(
    node: NodeView<C>,
    msg: Seq<char>,
    args: Seq<Seq<char>>,
)
    requires
        node is Literal,
        forall|i: int|
            0 <= i < node->Literal_literals.len() ==> !is_prefix(
                #[trigger] node->Literal_literals[i],
                msg,
            ),
    ensures
        node_check(node, msg, args) is None,
{
    crate::text::lemma_first_prefix_at(node->Literal_literals, msg, node->Literal_literals.len() as int);
}

/// The first prefix wins: matching a literal node commits to the earliest
/// alternative the input starts with, even when a later or longer one
/// would also fit, and explores only that alternative's children.
pub proof fn lemma_literal_first_prefix_wins<C>(
    node: NodeView<C>,
    msg: Seq<char>,
    args: Seq<Seq<char>>,
    i: int,
)
    requires
        node is Literal,
        0 <= i < node->Literal_literals.len(),
        forall|j: int| 0 <= j < i ==> !is_prefix(#[trigger] node->Literal_literals[j], msg),
        is_prefix(node->Literal_literals[i], msg),
    ensures
        node_check(node, msg, args) == children_check(
            node->Literal_children,
            trim(msg.skip(node->Literal_literals[i].len() as int)),
            args,
        ),
{
    crate::text::lemma_first_prefix_at(node->Literal_literals, msg, i);
}

/// A line argument never matches input that is empty after trimming, and
/// otherwise captures the whole remaining text as exactly one argument,
/// whatever whitespace it embeds, leaving nothing for its children.
pub proof fn lemma_line_argument<C>(node: NodeView<C>, msg: Seq<char>, args: Seq<Seq<char>>)
    requires
        (node matches NodeView::Argument { argument_type: ArgumentType::Line, .. }),
    ensures
        trim(msg).len() == 0 ==> node_check(node, msg, args) is None,
        trim(msg).len() != 0 ==> node_check(node, msg, args) == children_check(
            node->Argument_children,
            Seq::empty(),
            args.push(msg),
        ),
{
}

/// A terminal that requires exact consumption rejects any leftover trimmed
/// input; otherwise, and always when it does not require it, the terminal
/// succeeds with the arguments gathered so far.
pub proof fn lemma_final_consumption<C>(node: NodeView<C>, msg: Seq<char>, args: Seq<Seq<char>>)
    requires
        node is Final,
    ensures
        node->Final_expects_empty_message && trim(msg).len() != 0 ==> node_check(node, msg, args)
            is None,
        !(node->Final_expects_empty_message && trim(msg).len() != 0) ==> node_check(
            node,
            msg,
            args,
        ) == Some((node, args)),
{
}

/// A copy of an argument list, so that each explored branch works on its
/// own accumulator and failed siblings never leak captures.
fn clone_args(args: &Vec<Argument>) -> (r: Vec<Argument>)
    ensures
        r@ == args@,
{
    let mut r: Vec<Argument> = Vec::new();
    let mut i: usize = 0;
    while i < args.len()
        invariant
            0 <= i <= args@.len(),
            r@ =~= args@.subrange(0, i as int),
        decreases args@.len() - i,
    {
        r.push(args[i].clone());
        proof {
            assert(r@ =~= args@.subrange(0, i + 1));
        }
        i = i + 1;
    }
    proof {
        assert(args@.subrange(0, args@.len() as int) =~= args@);
    }
    r
}

/// Tries each child in order on the same input and argument list; the first
/// terminal found wins.
fn check_children<'a, C>(
    children: &'a Vec<CommandNode<C>>,
    message: &str,
    arguments: Vec<Argument>,
) -> (r: Option<(&'a CommandNode<C>, Vec<Argument>)>)
    ensures
        (match r {
            Some(p) => children_check(node_views(children@), message@, str_views(arguments@))
                == Some((p.0@, str_views(p.1@))) && p.0@ is Final,
            None => children_check(node_views(children@), message@, str_views(arguments@)) is None,
        }),
    decreases children@,
{
    let ghost full = children_check(node_views(children@), message@, str_views(arguments@));
    proof {
        assert(node_views(children@).skip(0) =~= node_views(children@));
    }
    let n = children.len();
    let mut i: usize = 0;
    while i < n
        invariant
            0 <= i <= n,
            n == children@.len(),
            full == children_check(node_views(children@), message@, str_views(arguments@)),
            full == children_check(
                node_views(children@).skip(i as int),
                message@,
                str_views(arguments@),
            ),
        decreases n - i,
    {
        proof {
            lemma_node_views_len(children@);
            lemma_node_views_index(children@, i as int);
            assert(decreases_to!(children@ => children@[i as int]));
        }
        let child = &children[i];
        match child.check_node(message, clone_args(&arguments)) {
            Some(p) => {
                proof {
                    let vs = node_views(children@);
                    assert(vs.skip(i as int)[0] == vs[i as int]);
                }
                return Some(p);
            },
            None => {
                proof {
                    let vs = node_views(children@);
                    assert(vs.skip(i as int)[0] == vs[i as int]);
                    assert(vs.skip(i as int).drop_first() =~= vs.skip(i as int + 1));
                }
            },
        }
        i = i + 1;
    }
    proof {
        lemma_node_views_len(children@);
        assert(node_views(children@).skip(n as int) =~= Seq::<NodeView<C>>::empty());
    }
    None
}

impl<C> CommandNode<C> {
    /// Matches this node against the remaining input `message`, with
    /// `arguments` captured so far, and returns the first terminal reached
    /// together with the full argument list, exactly as [`node_check`]
    /// describes.
    pub fn check_node<'a>(&'a self, message: &str, arguments: Vec<Argument>) -> (r: Option<
        (&'a CommandNode<C>, Vec<Argument>),
    >)
        ensures
            (match r {
                Some(p) => node_check(self@, message@, str_views(arguments@)) == Some(
                    (p.0@, str_views(p.1@)),
                ) && p.0@ is Final,
                None => node_check(self@, message@, str_views(arguments@)) is None,
            }),
        decreases *self,
    {
        match self {
            CommandNode::Literal { literals, child_nodes } => {
                proof {
                    assert(self@ == (NodeView::Literal {
                        literals: str_views(literals@),
                        children: node_views(child_nodes@),
                    }));
                    assert(decreases_to!(*self => child_nodes@));
                }
                match find_first_prefix(literals, message) {
                    Some(i) => {
                        proof {
                            lemma_first_prefix_some(str_views(literals@), message@);
                        }
                        let lit_len = literals[i].as_str().unicode_len();
                        let rest = trim_str(
                            message.substring_char(lit_len, message.unicode_len()),
                        );
                        proof {
                            assert(message@.subrange(lit_len as int, message@.len() as int)
                                =~= message@.skip(lit_len as int));
                        }
                        check_children(child_nodes, rest, arguments)
                    },
                    None => None,
                }
            },
            CommandNode::Argument { argument_type, child_nodes } => {
                proof {
                    assert(self@ == (NodeView::Argument {
                        argument_type: *argument_type,
                        children: node_views(child_nodes@),
                    }));
                    assert(decreases_to!(*self => child_nodes@));
                }
                match argument_type {
                    ArgumentType::Word => {
                        let t = trim_start_str(message);
                        if t.unicode_len() == 0 {
                            None
                        } else {
                            let k = token_len_str(t);
                            let tok = t.substring_char(0, k).to_owned();
                            let rest = trim_str(t.substring_char(k, t.unicode_len()));
                            proof {
                                assert(t@.subrange(k as int, t@.len() as int) =~= t@.skip(
                                    k as int,
                                ));
                            }
                            let ghost tok_view = tok@;
                            let mut args = arguments;
                            args.push(tok);
                            proof {
                                lemma_str_views_push(arguments@, tok);
                                assert(str_views(args@) == str_views(arguments@).push(tok_view));
                            }
                            check_children(child_nodes, rest, args)
                        }
                    },
                    ArgumentType::Line => {
                        let tr = trim_str(message);
                        if tr.unicode_len() == 0 {
                            None
                        } else {
                            let line = message.to_owned();
                            let ghost line_view = line@;
                            let mut args = arguments;
                            args.push(line);
                            proof {
                                lemma_str_views_push(arguments@, line);
                                assert(str_views(args@) == str_views(arguments@).push(line_view));
                            }
                            let rest = message.substring_char(
                                message.unicode_len(),
                                message.unicode_len(),
                            );
                            proof {
                                assert(rest@ =~= Seq::<char>::empty());
                            }
                            check_children(child_nodes, rest, args)
                        }
                    },
                }
            },
            CommandNode::ArgumentChoice { choices, child_nodes } => {
                proof {
                    assert(self@ == (NodeView::ArgumentChoice {
                        choices: str_views(choices@),
                        children: node_views(child_nodes@),
                    }));
                    assert(decreases_to!(*self => child_nodes@));
                }
                match find_first_prefix(choices, message) {
                    Some(i) => {
                        proof {
                            lemma_first_prefix_some(str_views(choices@), message@);
                        }
                        let choice_len = choices[i].as_str().unicode_len();
                        let rest = trim_str(
                            message.substring_char(choice_len, message.unicode_len()),
                        );
                        proof {
                            assert(message@.subrange(choice_len as int, message@.len() as int)
                                =~= message@.skip(choice_len as int));
                        }
                        let chosen = choices[i].clone();
                        let ghost chosen_view = chosen@;
                        let mut args = arguments;
                        args.push(chosen);
                        proof {
                            lemma_str_views_push(arguments@, chosen);
                            assert(str_views(args@) == str_views(arguments@).push(chosen_view));
                        }
                        check_children(child_nodes, rest, args)
                    },
                    None => None,
                }
            },
            CommandNode::Final { expects_empty_message, .. } => {
                if *expects_empty_message && trim_str(message).unicode_len() != 0 {
                    None
                } else {
                    Some((self, arguments))
                }
            },
        }
    }

    /// A mutable handle on the child list of a non-terminal node, used by
    /// tree assembly to attach subtrees; a terminal has no child slot.
    pub fn children_mut(&mut self) -> (r: Option<&mut Vec<CommandNode<C>>>)
        ensures
            (match r {
                Some(cr) => {
                    &&& !(old(self)@ is Final)
                    &&& node_views((*cr)@) == spec_children(old(self)@)
                    &&& final(self)@ == with_children(old(self)@, node_views(final(cr)@))
                },
                None => old(self)@ is Final && final(self)@ == old(self)@,
            }),
    {
        match self {
            CommandNode::Literal { child_nodes, .. } => Some(child_nodes),
            CommandNode::Argument { child_nodes, .. } => Some(child_nodes),
            CommandNode::ArgumentChoice { child_nodes, .. } => Some(child_nodes),
            CommandNode::Final { .. } => None,
        }
    }
}

} // verus!

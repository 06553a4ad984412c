//! Completion suggestions for partial input.
//!
//! Given the text typed so far, a tree offers every literal or choice
//! alternative that strictly extends it, and recurses past an alternative
//! the text already completes. A `Line` argument offers nothing, and a
//! `Word` argument only recurses past a completed token. The spec functions
//! [`node_completions`] and [`children_completions`] are the model;
//! [`CommandNode::complete`] and [`Commands::complete`] are proved against
//! them. A line editor can show the returned strings as they are.

use vstd::prelude::*;

use crate::command_node::{
    lemma_node_views_index, lemma_node_views_len, node_views, ArgumentType, CommandNode, NodeView,
};
use crate::text::{
    find_first_prefix, first_prefix, is_prefix, lemma_first_prefix_some, lemma_str_views_append,
    lemma_str_views_push, str_starts_with, str_views, token_len, token_len_str, trim, trim_start,
    trim_start_str, trim_str,
};
use crate::Commands;

verus! {

/// The candidates that `msg` is a proper prefix of, in listed order.
pub open spec fn strict_extensions(cands: Seq<Seq<char>>, msg: Seq<char>) -> Seq<Seq<char>>
    decreases cands.len(),
{
    if cands.len() == 0 {
        Seq::empty()
    } else {
        strict_extensions(cands.drop_last(), msg) + (if is_prefix(msg, cands.last())
            && cands.last() != msg {
            seq![cands.last()]
        } else {
            Seq::empty()
        })
    }
}

/// The completions one node offers for the partial input `msg`: each
/// alternative the input could grow into, then, past the first alternative
/// the input already completes, whatever the children offer for the rest.
pub open spec fn node_completions<C>(node: NodeView<C>, msg: Seq<char>) -> Seq<Seq<char>>
    decreases node,
{
    match node {
        NodeView::Literal { literals, children } => strict_extensions(literals, msg) + (
        match first_prefix(literals, msg) {
            Some(i) => children_completions(children, trim(msg.skip(literals[i].len() as int))),
            None => Seq::empty(),
        }),
        NodeView::Argument { argument_type, children } => match argument_type {
            ArgumentType::Word => {
                let t = trim_start(msg);
                if t.len() == 0 {
                    Seq::empty()
                } else {
                    children_completions(children, trim(t.skip(token_len(t))))
                }
            },
            ArgumentType::Line => Seq::empty(),
        },
        NodeView::ArgumentChoice { choices, children } => strict_extensions(choices, msg) + (
        match first_prefix(choices, msg) {
            Some(i) => children_completions(children, trim(msg.skip(choices[i].len() as int))),
            None => Seq::empty(),
        }),
        NodeView::Final { .. } => Seq::empty(),
    }
}

/// The completions all `children` offer, concatenated in child order.
pub open spec fn children_completions<C>(
    children: Seq<NodeView<C>>,
    msg: Seq<char>,
) -> Seq<Seq<char>>
    decreases children,
{
    if children.len() == 0 {
        Seq::empty()
    } else {
        children_completions(children.drop_last(), msg) + node_completions(children.last(), msg)
    }
}

/// Clones, in order, every candidate that strictly extends `msg`.
fn collect_extensions(cands: &Vec<String>, msg: &str) -> (r: Vec<String>)
    ensures
        str_views(r@) == strict_extensions(str_views(cands@), msg@),
{
    let ghost cs = str_views(cands@);
    let mut r: Vec<String> = Vec::new();
    proof {
        assert(cs.take(0) =~= Seq::<Seq<char>>::empty());
        assert(str_views(r@) =~= Seq::<Seq<char>>::empty());
    }
    let msg_len = msg.unicode_len();
    let mut i: usize = 0;
    while i < cands.len()
        invariant
            0 <= i <= cands@.len(),
            cs == str_views(cands@),
            msg_len == msg@.len(),
            str_views(r@) == strict_extensions(cs.take(i as int), msg@),
        decreases cands@.len() - i,
    {
        proof {
            assert(cs.take(i + 1).drop_last() =~= cs.take(i as int));
            assert(cs.take(i + 1).last() == cs[i as int]);
        }
        let ghost pre = r@;
        let cand = &cands[i];
        if str_starts_with(cand.as_str(), msg) && cand.as_str().unicode_len() != msg_len {
            r.push(cand.clone());
            proof {
                lemma_str_views_push(pre, cands@[i as int]);
                assert(str_views(pre).push(cs[i as int]) =~= str_views(pre) + seq![cs[i as int]]);
            }
        } else {
            proof {
                if is_prefix(msg@, cs[i as int]) {
                    assert(cs[i as int].subrange(0, msg@.len() as int) =~= cs[i as int]);
                }
                assert(str_views(pre) + Seq::<Seq<char>>::empty() =~= str_views(pre));
            }
        }
        i = i + 1;
    }
    proof {
        assert(cs.take(cands@.len() as int) =~= cs);
    }
    r
}

/// Concatenates what each child offers for the same partial input.
fn complete_children<C>(children: &Vec<CommandNode<C>>, message: &str) -> (r: Vec<String>)
    ensures
        str_views(r@) == children_completions(node_views(children@), message@),
    decreases children@,
{
    let ghost vs = node_views(children@);
    let mut r: Vec<String> = Vec::new();
    proof {
        lemma_node_views_len(children@);
        assert(vs.take(0) =~= Seq::<NodeView<C>>::empty());
        assert(str_views(r@) =~= Seq::<Seq<char>>::empty());
    }
    let mut i: usize = 0;
    while i < children.len()
        invariant
            0 <= i <= children@.len(),
            vs == node_views(children@),
            vs.len() == children@.len(),
            str_views(r@) == children_completions(vs.take(i as int), message@),
        decreases children@.len() - i,
    {
        proof {
            lemma_node_views_index(children@, i as int);
            assert(vs.take(i + 1).drop_last() =~= vs.take(i as int));
            assert(vs.take(i + 1).last() == vs[i as int]);
            assert(decreases_to!(children@ => children@[i as int]));
        }
        let ghost pre = r@;
        let mut sub = children[i].complete(message);
        let ghost sub_view = sub@;
        r.append(&mut sub);
        proof {
            lemma_str_views_append(pre, sub_view);
        }
        i = i + 1;
    }
    proof {
        assert(vs.take(children@.len() as int) =~= vs);
    }
    r
}

impl<C> CommandNode<C> {
    /// The suggestions this subtree offers for the partial input `message`,
    /// exactly as [`node_completions`] describes.
    pub fn complete(&self, message: &str) -> (r: Vec<String>)
        ensures
            str_views(r@) == node_completions(self@, message@),
        decreases *self,
    {
        match self {
            CommandNode::Literal { literals, child_nodes } => {
                proof {
                    assert(self@ == (NodeView::Literal {
                        literals: str_views(literals@),
                        children: node_views(child_nodes@),
                    }));
                    assert(decreases_to!(*self => child_nodes@));
                }
                let mut out = collect_extensions(literals, message);
                match find_first_prefix(literals, message) {
                    Some(i) => {
                        proof {
                            lemma_first_prefix_some(str_views(literals@), message@);
                        }
                        let lit_len = literals[i].as_str().unicode_len();
                        let rest = trim_str(
                            message.substring_char(lit_len, message.unicode_len()),
                        );
                        proof {
                            assert(message@.subrange(lit_len as int, message@.len() as int)
                                =~= message@.skip(lit_len as int));
                        }
                        let ghost out_view = out@;
                        let mut sub = complete_children(child_nodes, rest);
                        let ghost sub_view = sub@;
                        out.append(&mut sub);
                        proof {
                            lemma_str_views_append(out_view, sub_view);
                        }
                        out
                    },
                    None => {
                        proof {
                            assert(str_views(out@) + Seq::<Seq<char>>::empty() =~= str_views(
                                out@,
                            ));
                        }
                        out
                    },
                }
            },
            CommandNode::Argument { argument_type, child_nodes } => {
                proof {
                    assert(self@ == (NodeView::Argument {
                        argument_type: *argument_type,
                        children: node_views(child_nodes@),
                    }));
                    assert(decreases_to!(*self => child_nodes@));
                }
                match argument_type {
                    ArgumentType::Word => {
                        let t = trim_start_str(message);
                        if t.unicode_len() == 0 {
                            let r: Vec<String> = Vec::new();
                            proof {
                                assert(str_views(r@) =~= Seq::<Seq<char>>::empty());
                            }
                            r
                        } else {
                            let k = token_len_str(t);
                            let rest = trim_str(t.substring_char(k, t.unicode_len()));
                            proof {
                                assert(t@.subrange(k as int, t@.len() as int) =~= t@.skip(
                                    k as int,
                                ));
                            }
                            complete_children(child_nodes, rest)
                        }
                    },
                    ArgumentType::Line => {
                        let r: Vec<String> = Vec::new();
                        proof {
                            assert(str_views(r@) =~= Seq::<Seq<char>>::empty());
                        }
                        r
                    },
                }
            },
            CommandNode::ArgumentChoice { choices, child_nodes } => {
                proof {
                    assert(self@ == (NodeView::ArgumentChoice {
                        choices: str_views(choices@),
                        children: node_views(child_nodes@),
                    }));
                    assert(decreases_to!(*self => child_nodes@));
                }
                let mut out = collect_extensions(choices, message);
                match find_first_prefix(choices, message) {
                    Some(i) => {
                        proof {
                            lemma_first_prefix_some(str_views(choices@), message@);
                        }
                        let choice_len = choices[i].as_str().unicode_len();
                        let rest = trim_str(
                            message.substring_char(choice_len, message.unicode_len()),
                        );
                        proof {
                            assert(message@.subrange(choice_len as int, message@.len() as int)
                                =~= message@.skip(choice_len as int));
                        }
                        let ghost out_view = out@;
                        let mut sub = complete_children(child_nodes, rest);
                        let ghost sub_view = sub@;
                        out.append(&mut sub);
                        proof {
                            lemma_str_views_append(out_view, sub_view);
                        }
                        out
                    },
                    None => {
                        proof {
                            assert(str_views(out@) + Seq::<Seq<char>>::empty() =~= str_views(
                                out@,
                            ));
                        }
                        out
                    },
                }
            },
            CommandNode::Final { .. } => {
                let r: Vec<String> = Vec::new();
                proof {
                    assert(str_views(r@) =~= Seq::<Seq<char>>::empty());
                }
                r
            },
        }
    }
}

impl<C> Commands<C> {
    /// The suggestions every root tree offers for the partial input, in
    /// root order.
    pub fn complete(&self, message: &str) -> (r: Vec<String>)
        ensures
            str_views(r@) == children_completions(node_views(self.commands@), message@),
    {
        complete_children(&self.commands, message)
    }
}

} // verus!

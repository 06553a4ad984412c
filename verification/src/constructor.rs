//! Constructors for each node variant.

use vstd::prelude::*;

use crate::command_node::{
    node_views, ArgumentType, AuthorityLevel, CommandNode, NodeView,
};
use crate::text::str_views;

verus! {

impl<C> CommandNode<C> {
    /// A node that matches any of `literals` and discards the matched text.
    /// An empty list is legal: the node is then unmatchable.
    pub fn literal(literals: Vec<String>, children: Vec<CommandNode<C>>) -> (r: Self)
        ensures
            r@ == (NodeView::Literal {
                literals: str_views(literals@),
                children: node_views(children@),
            }),
    {
        CommandNode::Literal { literals, child_nodes: children }
    }

    /// A node that captures one token or the whole remaining line.
    pub fn argument(argument_type: ArgumentType, children: Vec<CommandNode<C>>) -> (r: Self)
        ensures
            r@ == (NodeView::Argument { argument_type, children: node_views(children@) }),
    {
        CommandNode::Argument { argument_type, child_nodes: children }
    }

    /// A node that matches any of `choices` and captures the matched text.
    pub fn argument_choice(choices: Vec<String>, children: Vec<CommandNode<C>>) -> (r: Self)
        ensures
            r@ == (NodeView::ArgumentChoice {
                choices: str_views(choices@),
                children: node_views(children@),
            }),
    {
        CommandNode::ArgumentChoice { choices, child_nodes: children }
    }

    /// A terminal that binds `command`, gated on `authority_level`; with
    /// `expects_empty_message` it only activates once the input is fully
    /// consumed.
    pub fn final_node(
        expects_empty_message: bool,
        authority_level: AuthorityLevel,
        command: C,
    ) -> (r: Self)
        ensures
            r@ == (NodeView::Final { expects_empty_message, authority_level, command }),
    {
        CommandNode::Final { expects_empty_message, authority_level, command }
    }
}

} // verus!

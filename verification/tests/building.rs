use chat_commands::{
    ArgumentType, CommandBuilder, CommandMessage, CommandNode, Commands,
};

fn msg(text: &str, authority_level: usize) -> CommandMessage<u8> {
    CommandMessage { sender: 0, message_text: String::from(text), authority_level }
}

#[test]
fn test_command_macro() {
    // `CommandNode::final_node(...)`
    CommandNode::final_node(true, 0, 0u32);

    // `CommandBuilder::new().literal(["!help"]).finalize(...)`
    CommandNode::literal(
        vec![String::from("!help")],
        vec![CommandNode::final_node(true, 0, 0u32)],
    );

    // `CommandBuilder::new().literal(["!backup"]).choice(["create", "load"]).finalize(...)`
    CommandNode::literal(
        vec![String::from("!backup")],
        vec![CommandNode::argument_choice(
            vec![String::from("create"), String::from("load")],
            vec![CommandNode::final_node(true, 0, 0u32)],
        )],
    );

    // `CommandBuilder::new().literal(["!hello"]).word().finalize(...)`
    CommandNode::literal(
        vec![String::from("!hello")],
        vec![CommandNode::argument(
            ArgumentType::Word,
            vec![CommandNode::final_node(true, 0, 0u32)],
        )],
    );

    // `CommandBuilder::new().literal(["!echo"]).line().finalize(...)`
    CommandNode::literal(
        vec![String::from("!echo")],
        vec![CommandNode::argument(
            ArgumentType::Line,
            vec![CommandNode::final_node(true, 0, 0u32)],
        )],
    );
}

#[test]
fn builder_builds_a_matching_chain() {
    let tree = CommandBuilder::new()
        .literal(vec![String::from("!hello")])
        .word()
        .finalize(true, 0, 3u32);
    let commands = Commands::new(vec![tree]);
    let found = commands.find_commands(&msg("!hello bob", 0));
    assert_eq!(found.len(), 1);
    assert_eq!(*found[0].0, 3);
    assert_eq!(found[0].1, vec![String::from("bob")]);
}

#[test]
fn builder_choice_and_line_chain() {
    let tree = CommandBuilder::new()
        .literal(vec![String::from("!note")])
        .choice(vec![String::from("add"), String::from("del")])
        .line()
        .finalize(true, 0, 4u32);
    let commands = Commands::new(vec![tree]);
    let found = commands.find_commands(&msg("!note add remember me", 0));
    assert_eq!(found.len(), 1);
    assert_eq!(
        found[0].1,
        vec![String::from("add"), String::from("remember me")]
    );
}

#[test]
fn builder_split_shares_a_prefix() {
    let create = CommandBuilder::new()
        .literal(vec![String::from("create")])
        .finalize(true, 0, 1u32);
    let load = CommandBuilder::new()
        .literal(vec![String::from("load")])
        .finalize(true, 0, 2u32);
    let tree = CommandBuilder::new()
        .literal(vec![String::from("!backup")])
        .split(vec![create, load]);
    let commands = Commands::new(vec![tree]);

    let found = commands.find_commands(&msg("!backup create", 0));
    assert_eq!(found.len(), 1);
    assert_eq!(*found[0].0, 1);

    let found = commands.find_commands(&msg("!backup load", 0));
    assert_eq!(found.len(), 1);
    assert_eq!(*found[0].0, 2);

    assert_eq!(commands.find_commands(&msg("!backup", 0)).len(), 0);
}

#[test]
fn builder_default_is_empty() {
    let tree = CommandBuilder::<u32>::default().finalize(false, 0, 6u32);
    let commands = Commands::new(vec![tree]);
    let found = commands.find_commands(&msg("anything at all", 0));
    assert_eq!(found.len(), 1);
    assert_eq!(*found[0].0, 6);
}

#[test]
fn children_mut_distinguishes_terminals() {
    let mut literal = CommandNode::literal(vec![String::from("!x")], vec![]);
    match literal.children_mut() {
        Some(children) => {
            children.push(CommandNode::final_node(false, 0, 8u32));
        }
        None => panic!("a literal node must expose its child slot"),
    }
    let mut terminal: CommandNode<u32> = CommandNode::final_node(false, 0, 9u32);
    assert!(terminal.children_mut().is_none());

    let commands = Commands::new(vec![literal]);
    let found = commands.find_commands(&msg("!x", 0));
    assert_eq!(found.len(), 1);
    assert_eq!(*found[0].0, 8);
}

#[test]
fn empty_literal_list_is_unmatchable() {
    let tree = CommandNode::literal(
        vec![],
        vec![CommandNode::final_node(false, 0, 1u32)],
    );
    let commands = Commands::new(vec![tree]);
    assert_eq!(commands.find_commands(&msg("", 0)).len(), 0);
    assert_eq!(commands.find_commands(&msg("anything", 0)).len(), 0);
}

#[test]
fn check_node_reports_the_terminal_directly() {
    let tree = CommandNode::literal(
        vec![String::from("go")],
        vec![CommandNode::final_node(false, 2, 5u32)],
    );
    let checked = tree.check_node("go west", Vec::new());
    match checked {
        Some((node, arguments)) => {
            assert!(arguments.is_empty());
            match node {
                CommandNode::Final { expects_empty_message, authority_level, command } => {
                    assert!(!expects_empty_message);
                    assert_eq!(*authority_level, 2);
                    assert_eq!(*command, 5);
                }
                _ => panic!("check_node must stop at a terminal"),
            }
        }
        None => panic!("the tree should match"),
    }
    assert!(tree.check_node("stop", Vec::new()).is_none());
}

use chat_commands::{ArgumentType, CommandNode, Commands};

fn help_hello_tree() -> CommandNode<u32> {
    CommandNode::literal(
        vec![String::from("!help"), String::from("!hello")],
        vec![CommandNode::final_node(true, 0, 1u32)],
    )
}

#[test]
fn partial_literal_offers_both_extensions() {
    let commands = Commands::new(vec![help_hello_tree()]);
    let completions = commands.complete("!he");
    assert_eq!(
        completions,
        vec![String::from("!help"), String::from("!hello")]
    );
}

#[test]
fn exact_literal_offers_no_literal_level_completions() {
    let commands = Commands::new(vec![help_hello_tree()]);
    let completions = commands.complete("!hello");
    assert_eq!(completions, Vec::<String>::new());
}

#[test]
fn completed_literal_recurses_into_children() {
    let tree = CommandNode::literal(
        vec![String::from("!backup")],
        vec![CommandNode::argument_choice(
            vec![String::from("create"), String::from("load")],
            vec![CommandNode::final_node(true, 0, 1u32)],
        )],
    );
    let commands = Commands::new(vec![tree]);
    assert_eq!(
        commands.complete("!backup cr"),
        vec![String::from("create")]
    );
    assert_eq!(
        commands.complete("!backup "),
        vec![String::from("create"), String::from("load")]
    );
}

#[test]
fn line_argument_offers_no_completions() {
    let tree = CommandNode::literal(
        vec![String::from("!echo")],
        vec![CommandNode::argument(
            ArgumentType::Line,
            vec![CommandNode::final_node(true, 0, 1u32)],
        )],
    );
    let commands = Commands::new(vec![tree]);
    assert_eq!(commands.complete("!echo som"), Vec::<String>::new());
}

#[test]
fn word_argument_recurses_past_a_completed_token() {
    let tree = CommandNode::literal(
        vec![String::from("!greet")],
        vec![CommandNode::argument(
            ArgumentType::Word,
            vec![CommandNode::literal(
                vec![String::from("loudly"), String::from("softly")],
                vec![CommandNode::final_node(true, 0, 1u32)],
            )],
        )],
    );
    let commands = Commands::new(vec![tree]);
    assert_eq!(commands.complete("!greet bob lo"), vec![String::from("loudly")]);
    assert_eq!(commands.complete("!greet"), Vec::<String>::new());
}

#[test]
fn roots_contribute_in_order() {
    let first = CommandNode::literal(
        vec![String::from("!alpha")],
        vec![CommandNode::final_node(true, 0, 1u32)],
    );
    let second = CommandNode::literal(
        vec![String::from("!also")],
        vec![CommandNode::final_node(true, 0, 2u32)],
    );
    let commands = Commands::new(vec![first, second]);
    assert_eq!(
        commands.complete("!al"),
        vec![String::from("!alpha"), String::from("!also")]
    );
}

#[test]
fn single_node_complete_matches_registry_behaviour() {
    let node = help_hello_tree();
    assert_eq!(
        node.complete("!h"),
        vec![String::from("!help"), String::from("!hello")]
    );
}

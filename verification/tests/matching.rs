use chat_commands::{ArgumentType, CommandMessage, CommandNode, Commands, Handler};

fn msg(text: &str, authority_level: usize) -> CommandMessage<String> {
    CommandMessage {
        sender: String::from("tester"),
        message_text: String::from(text),
        authority_level,
    }
}

/// A tree for `!echo <line>` that requires full consumption: the end-to-end
/// example shape.
fn echo_tree(level: usize, id: u32) -> CommandNode<u32> {
    CommandNode::literal(
        vec![String::from("!echo")],
        vec![CommandNode::argument(
            ArgumentType::Line,
            vec![CommandNode::final_node(true, level, id)],
        )],
    )
}

#[test]
fn echo_matches_and_captures_line() {
    let commands = Commands::new(vec![echo_tree(0, 7)]);
    let found = commands.find_commands(&msg("!echo hello world", 0));
    assert_eq!(found.len(), 1);
    assert_eq!(*found[0].0, 7);
    assert_eq!(found[0].1, vec![String::from("hello world")]);
}

#[test]
fn echo_without_text_does_not_match() {
    let commands = Commands::new(vec![echo_tree(0, 7)]);
    let found = commands.find_commands(&msg("!echo", 0));
    assert_eq!(found.len(), 0);
}

#[test]
fn echo_is_filtered_by_authority() {
    let commands = Commands::new(vec![echo_tree(5, 7)]);
    let found = commands.find_commands(&msg("!echo hi", 0));
    assert_eq!(found.len(), 0);
}

#[test]
fn authority_boundary_is_inclusive() {
    let commands = Commands::new(vec![echo_tree(3, 9)]);
    assert_eq!(commands.find_commands(&msg("!echo hi", 3)).len(), 1);
    assert_eq!(commands.find_commands(&msg("!echo hi", 4)).len(), 1);
    assert_eq!(commands.find_commands(&msg("!echo hi", 2)).len(), 0);
}

#[test]
fn literal_needs_a_prefix_alternative() {
    let commands = Commands::new(vec![echo_tree(0, 7)]);
    assert_eq!(commands.find_commands(&msg("!say hi", 0)).len(), 0);
    assert_eq!(commands.find_commands(&msg("!ech", 0)).len(), 0);
}

#[test]
fn first_prefix_wins_without_backtracking() {
    // With alternatives ["a", "ab"] and input "ab", alternative "a" is
    // chosen; its subtree sees the leftover "b", so an exact terminal
    // fails, and "ab" is never tried.
    let strict = CommandNode::literal(
        vec![String::from("a"), String::from("ab")],
        vec![CommandNode::final_node(true, 0, 1u32)],
    );
    let commands = Commands::new(vec![strict]);
    assert_eq!(commands.find_commands(&msg("ab", 0)).len(), 0);

    // A lax terminal accepts the leftover, showing "a" was the chosen one.
    let lax = CommandNode::literal(
        vec![String::from("a"), String::from("ab")],
        vec![CommandNode::final_node(false, 0, 2u32)],
    );
    let commands = Commands::new(vec![lax]);
    let found = commands.find_commands(&msg("ab", 0));
    assert_eq!(found.len(), 1);
    assert_eq!(*found[0].0, 2);
}

#[test]
fn exact_consumption_gates_the_terminal() {
    let strict = CommandNode::literal(
        vec![String::from("!go")],
        vec![CommandNode::final_node(true, 0, 1u32)],
    );
    let lax = CommandNode::literal(
        vec![String::from("!go")],
        vec![CommandNode::final_node(false, 0, 2u32)],
    );
    let commands = Commands::new(vec![strict, lax]);
    let found = commands.find_commands(&msg("!go now", 0));
    assert_eq!(found.len(), 1);
    assert_eq!(*found[0].0, 2);
    let found = commands.find_commands(&msg("!go", 0));
    assert_eq!(found.len(), 2);
}

#[test]
fn line_argument_takes_embedded_whitespace() {
    let commands = Commands::new(vec![echo_tree(0, 7)]);
    let found = commands.find_commands(&msg("!echo one  two   three", 0));
    assert_eq!(found.len(), 1);
    assert_eq!(found[0].1, vec![String::from("one  two   three")]);
}

#[test]
fn message_is_trimmed_before_matching() {
    let commands = Commands::new(vec![echo_tree(0, 7)]);
    let found = commands.find_commands(&msg("   !echo  hi  ", 0));
    assert_eq!(found.len(), 1);
    assert_eq!(found[0].1, vec![String::from("hi")]);
}

#[test]
fn word_argument_takes_one_token() {
    let tree = CommandNode::literal(
        vec![String::from("!hello")],
        vec![CommandNode::argument(
            ArgumentType::Word,
            vec![CommandNode::final_node(false, 0, 4u32)],
        )],
    );
    let commands = Commands::new(vec![tree]);
    let found = commands.find_commands(&msg("!hello alice rest is ignored", 0));
    assert_eq!(found.len(), 1);
    assert_eq!(found[0].1, vec![String::from("alice")]);
    assert_eq!(commands.find_commands(&msg("!hello", 0)).len(), 0);
}

#[test]
fn choice_is_captured_as_argument() {
    let tree = CommandNode::literal(
        vec![String::from("!backup")],
        vec![CommandNode::argument_choice(
            vec![String::from("create"), String::from("load")],
            vec![CommandNode::final_node(true, 0, 5u32)],
        )],
    );
    let commands = Commands::new(vec![tree]);
    let found = commands.find_commands(&msg("!backup load", 0));
    assert_eq!(found.len(), 1);
    assert_eq!(found[0].1, vec![String::from("load")]);
    assert_eq!(commands.find_commands(&msg("!backup wipe", 0)).len(), 0);
}

#[test]
fn two_roots_can_match_the_same_message() {
    let first = CommandNode::literal(
        vec![String::from("!hi")],
        vec![CommandNode::final_node(false, 0, 1u32)],
    );
    let second = CommandNode::literal(
        vec![String::from("!hi")],
        vec![CommandNode::final_node(false, 0, 2u32)],
    );
    let commands = Commands::new(vec![first, second]);
    let found = commands.find_commands(&msg("!hi there", 0));
    assert_eq!(found.len(), 2);
    assert_eq!(*found[0].0, 1);
    assert_eq!(*found[1].0, 2);
}

#[test]
fn failed_branches_do_not_leak_arguments() {
    // The first child captures "a" and then fails on leftover text; the
    // second child must start from a clean accumulator.
    let tree = CommandNode::literal(
        vec![String::from("!t")],
        vec![
            CommandNode::argument_choice(
                vec![String::from("a")],
                vec![CommandNode::final_node(true, 0, 1u32)],
            ),
            CommandNode::argument(
                ArgumentType::Line,
                vec![CommandNode::final_node(true, 0, 2u32)],
            ),
        ],
    );
    let commands = Commands::new(vec![tree]);
    let found = commands.find_commands(&msg("!t a b", 0));
    assert_eq!(found.len(), 1);
    assert_eq!(*found[0].0, 2);
    assert_eq!(found[0].1, vec![String::from("a b")]);
}

#[test]
fn find_commands_is_deterministic() {
    let commands = Commands::new(vec![echo_tree(0, 7), echo_tree(0, 8)]);
    let a = commands.find_commands(&msg("!echo same message", 1));
    let b = commands.find_commands(&msg("!echo same message", 1));
    assert_eq!(a.len(), b.len());
    for (x, y) in a.iter().zip(b.iter()) {
        assert_eq!(x.0, y.0);
        assert_eq!(x.1, y.1);
    }
}

struct CountingHandler {
    amount: u32,
}

impl Handler<u32, String, usize> for CountingHandler {
    fn call(&self, actor: &mut u32, _sender: &String, arguments: Vec<String>) -> usize {
        *actor += self.amount;
        arguments.len()
    }
}

#[test]
fn perform_commands_runs_every_surviving_handler() {
    let first = CommandNode::literal(
        vec![String::from("!add")],
        vec![CommandNode::argument(
            ArgumentType::Line,
            vec![CommandNode::final_node(true, 0, CountingHandler { amount: 10 })],
        )],
    );
    let second = CommandNode::literal(
        vec![String::from("!add")],
        vec![CommandNode::final_node(false, 0, CountingHandler { amount: 1 })],
    );
    let gated = CommandNode::literal(
        vec![String::from("!add")],
        vec![CommandNode::final_node(false, 9, CountingHandler { amount: 100 })],
    );
    let commands = Commands::new(vec![first, second, gated]);
    let mut actor: u32 = 0;
    let results = commands.perform_commands(&mut actor, &msg("!add one two", 0));
    assert_eq!(results, vec![1, 0]);
    assert_eq!(actor, 11);
}

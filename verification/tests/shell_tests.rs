use liven::card::{format_error_card, format_records_table, format_streams_card, mutation_card};
use liven::shell::{shell_command, ShellAction, ShellCommand, ShellInput, ShellKey};
use liven::storage::key::StreamKey;
use liven::types::{DataValue, JsonValue, Record};

fn ch(c: char) -> ShellKey {
    ShellKey::Char { c, control: false }
}

fn typed(input: &mut ShellInput, text: &str) {
    for c in text.chars() {
        assert_eq!(input.handle_key(ch(c), 0, 10), ShellAction::Continue);
    }
}

#[test]
fn editing_keys_move_the_cursor_and_edit_the_line() {
    let mut input = ShellInput::new();
    typed(&mut input, "ab");
    assert_eq!(input.cursor, 2);
    input.handle_key(ShellKey::Left, 0, 10);
    input.handle_key(ch('X'), 0, 10);
    assert_eq!(input.buffer, "aXb");
    assert_eq!(input.cursor, 2);
    input.handle_key(ShellKey::Backspace, 0, 10);
    assert_eq!(input.buffer, "ab");
    assert_eq!(input.cursor, 1);
    input.handle_key(ShellKey::Home, 0, 10);
    input.handle_key(ShellKey::Delete, 0, 10);
    assert_eq!(input.buffer, "b");
    assert_eq!(input.cursor, 0);
    input.handle_key(ShellKey::Backspace, 0, 10);
    assert_eq!(input.buffer, "b");
    input.handle_key(ShellKey::End, 0, 10);
    assert_eq!(input.cursor, 1);
    input.handle_key(ShellKey::Right, 0, 10);
    assert_eq!(input.cursor, 1);
    input.handle_key(ShellKey::Delete, 0, 10);
    assert_eq!(input.buffer, "b");
    input.handle_key(ShellKey::Left, 0, 10);
    input.handle_key(ShellKey::Left, 0, 10);
    assert_eq!(input.cursor, 0);
    assert_eq!(input.handle_key(ShellKey::Other, 0, 10), ShellAction::Continue);
}

#[test]
fn enter_submits_the_trimmed_line_and_keeps_it_in_history() {
    let mut input = ShellInput::new();
    typed(&mut input, "  streams  ");
    assert_eq!(input.handle_key(ShellKey::Enter, 0, 10), ShellAction::Submit("streams".to_string()));
    assert_eq!(input.buffer, "");
    assert_eq!(input.cursor, 0);
    assert_eq!(input.history, vec!["  streams  ".to_string()]);
    typed(&mut input, "   ");
    assert_eq!(input.handle_key(ShellKey::Enter, 0, 10), ShellAction::Continue);
    assert_eq!(input.buffer, "   ");
    assert_eq!(input.history.len(), 1);
}

#[test]
fn quit_lines_and_control_keys_close_the_shell() {
    for line in ["exit", "quit", "\\q", " exit "] {
        let mut input = ShellInput::new();
        typed(&mut input, line);
        assert_eq!(input.handle_key(ShellKey::Enter, 0, 10), ShellAction::Quit);
        assert_eq!(input.history.len(), 1);
    }
    let mut input = ShellInput::new();
    typed(&mut input, "ab");
    assert_eq!(input.handle_key(ShellKey::Char { c: 'c', control: true }, 0, 10), ShellAction::Quit);
    assert_eq!(input.handle_key(ShellKey::Char { c: 'd', control: true }, 0, 10), ShellAction::Quit);
    assert_eq!(input.buffer, "ab");
    assert_eq!(input.handle_key(ShellKey::Char { c: 'a', control: true }, 0, 10), ShellAction::Continue);
    assert_eq!(input.buffer, "aba");
}

#[test]
fn history_walk_restores_the_line_being_typed() {
    let mut input = ShellInput::new();
    input.handle_key(ShellKey::Up, 0, 10);
    assert_eq!(input.history_index, None);
    typed(&mut input, "one");
    input.handle_key(ShellKey::Enter, 0, 10);
    typed(&mut input, "two");
    input.handle_key(ShellKey::Enter, 0, 10);
    typed(&mut input, "dra");
    input.handle_key(ShellKey::Up, 0, 10);
    assert_eq!(input.buffer, "two");
    assert_eq!(input.cursor, 3);
    assert_eq!(input.history_index, Some(1));
    input.handle_key(ShellKey::Up, 0, 10);
    assert_eq!(input.buffer, "one");
    input.handle_key(ShellKey::Up, 0, 10);
    assert_eq!(input.buffer, "one");
    assert_eq!(input.history_index, Some(0));
    input.handle_key(ShellKey::Down, 0, 10);
    assert_eq!(input.buffer, "two");
    input.handle_key(ShellKey::Down, 0, 10);
    assert_eq!(input.buffer, "dra");
    assert_eq!(input.history_index, None);
    assert_eq!(input.cursor, 3);
    input.handle_key(ShellKey::Down, 0, 10);
    assert_eq!(input.buffer, "dra");
}

#[test]
fn paging_scrolls_within_the_log() {
    let mut input = ShellInput::new();
    input.handle_key(ShellKey::PageDown, 22, 10);
    assert_eq!(input.scroll, 5);
    input.handle_key(ShellKey::PageDown, 22, 10);
    assert_eq!(input.scroll, 10);
    input.handle_key(ShellKey::PageDown, 22, 10);
    assert_eq!(input.scroll, 12);
    input.handle_key(ShellKey::PageUp, 22, 10);
    assert_eq!(input.scroll, 7);
    input.handle_key(ShellKey::PageUp, 22, 10);
    input.handle_key(ShellKey::PageUp, 22, 10);
    assert_eq!(input.scroll, 0);
    input.handle_key(ShellKey::PageDown, 5, 10);
    assert_eq!(input.scroll, 0);
}

#[test]
fn submitted_lines_read_as_shell_commands() {
    assert_eq!(shell_command("\\help"), ShellCommand::Help);
    assert_eq!(shell_command(" \\d "), ShellCommand::ListStreams);
    assert_eq!(shell_command("\\dt"), ShellCommand::ListStreams);
    assert_eq!(shell_command("\\d users"), ShellCommand::Describe("users".to_string()));
    assert_eq!(shell_command("\\d   users  "), ShellCommand::Describe("users".to_string()));
    assert_eq!(shell_command("\\d a b"), ShellCommand::DescribeUsage);
    assert_eq!(shell_command("tail(\"logs\")"), ShellCommand::Tail("logs".to_string()));
    assert_eq!(shell_command("tail('x')"), ShellCommand::Tail("x".to_string()));
    assert_eq!(shell_command("tail(\"\")"), ShellCommand::Tail(String::new()));
    assert_eq!(
        shell_command("from(\"a\").insert(\"k\", {})"),
        ShellCommand::Run { query: "from(\"a\").insert(\"k\", {})".to_string(), mutation: true }
    );
    assert_eq!(shell_command("drop(a)"), ShellCommand::Run { query: "drop(a)".to_string(), mutation: true });
    assert_eq!(
        shell_command("from(\"a\") | limit(1)"),
        ShellCommand::Run { query: "from(\"a\") | limit(1)".to_string(), mutation: false }
    );
    assert_eq!(shell_command("\\dx"), ShellCommand::Run { query: "\\dx".to_string(), mutation: false });
}

fn rule(n: usize) -> String {
    "\u{2500}".repeat(n)
}

#[test]
fn error_card_of_a_short_message() {
    let card = format_error_card("boom");
    assert_eq!(
        card,
        vec![
            format!("\u{250c}{}\u{2510}", rule(28)),
            format!("\u{2502}{}ERROR{}\u{2502}", " ".repeat(11), " ".repeat(12)),
            format!("\u{251c}{}\u{2524}", rule(28)),
            format!("\u{2502}  boom  {}\u{2502}", " ".repeat(22)),
            format!("\u{2514}{}\u{2518}", rule(28)),
        ]
    );
}

#[test]
fn error_card_wraps_long_lines() {
    let long = "a".repeat(80);
    let card = format_error_card(&long);
    assert_eq!(card.len(), 6);
    assert_eq!(card[0], format!("\u{250c}{}\u{2510}", rule(72)));
    assert_eq!(card[3], format!("\u{2502}  {}  \u{2502}", "a".repeat(70)));
    assert_eq!(card[4], format!("\u{2502}  {}  {}\u{2502}", "a".repeat(10), " ".repeat(60)));

    let spaced = format!("{} {}", "x".repeat(40), "y".repeat(40));
    let card = format_error_card(&spaced);
    assert_eq!(card.len(), 6);
    assert_eq!(card[3], format!("\u{2502}  {}  \u{2502}", "x".repeat(40)));
    assert_eq!(card[4], format!("\u{2502}  {}  \u{2502}", "y".repeat(40)));

    let early_space = format!("{} {}", "x".repeat(10), "y".repeat(80));
    let card = format_error_card(&early_space);
    assert_eq!(card[3], format!("\u{2502}  {} {}  \u{2502}", "x".repeat(10), "y".repeat(59)));
    assert_eq!(card[4], format!("\u{2502}  {}  {}\u{2502}", "y".repeat(21), " ".repeat(49)));
}

#[test]
fn error_card_splits_lines_and_keeps_an_empty_message() {
    let card = format_error_card("first\r\nsecond\n");
    assert_eq!(card.len(), 6);
    assert_eq!(card[3], format!("\u{2502}  first  {}\u{2502}", " ".repeat(21)));
    assert_eq!(card[4], format!("\u{2502}  second  {}\u{2502}", " ".repeat(20)));
    let card = format_error_card("");
    assert_eq!(card.len(), 5);
    assert_eq!(card[3], format!("\u{2502}    {}\u{2502}", " ".repeat(26)));
}

fn rec(seq: u64, key: &str, value: DataValue) -> Record {
    Record {
        sequence_id: seq,
        timestamp: 0,
        type_tag: 3,
        flags: 0,
        stream_name: "users".to_string(),
        key: StreamKey::from_str(key).unwrap(),
        value,
    }
}

#[test]
fn records_table_layout() {
    assert_eq!(format_records_table(&vec![], &vec![]), vec!["(0 rows returned)".to_string()]);
    let records = vec![rec(7, "alice", DataValue::Int(1)), rec(12, "bob", DataValue::Null)];
    let texts = vec!["1".to_string(), "NULL".to_string()];
    let table = format_records_table(&records, &texts);
    assert_eq!(
        table,
        vec![
            format!("\u{250c}{}\u{252c}{}\u{252c}{}\u{2510}", rule(8), rule(7), rule(7)),
            "\u{2502} seq_id \u{2502} key   \u{2502} value \u{2502}".to_string(),
            format!("\u{251c}{}\u{253c}{}\u{253c}{}\u{2524}", rule(8), rule(7), rule(7)),
            "\u{2502} 7      \u{2502} alice \u{2502} 1     \u{2502}".to_string(),
            "\u{2502} 12     \u{2502} bob   \u{2502} NULL  \u{2502}".to_string(),
            format!("\u{2514}{}\u{2534}{}\u{2534}{}\u{2518}", rule(8), rule(7), rule(7)),
            "(2 rows returned)".to_string(),
        ]
    );
    let long = "v".repeat(120);
    let table = format_records_table(&vec![rec(1, "k", DataValue::Null)], &vec![long]);
    assert_eq!(table[3], format!("\u{2502} 1      \u{2502} k   \u{2502} {}... \u{2502}", "v".repeat(97)));
}

#[test]
fn mutation_card_shows_status_and_count() {
    let doc = vec![
        ("affected_rows".to_string(), JsonValue::Int(3)),
        ("status".to_string(), JsonValue::String("ok".to_string())),
    ];
    let card = mutation_card(&"users".to_string(), &doc);
    assert_eq!(card.len(), 7);
    assert_eq!(card[1], "\u{2502}                 TRANSACTION COMMITTED                  \u{2502}");
    assert_eq!(card[3], format!("\u{2502}  Stream Name: users{}\u{2502}", " ".repeat(36)));
    assert_eq!(card[4], format!("\u{2502}  Status:      ok{}\u{2502}", " ".repeat(39)));
    assert_eq!(card[5], format!("\u{2502}  Rows Mutated:3{}\u{2502}", " ".repeat(40)));
    let card = mutation_card(&"s".to_string(), &vec![("affected_rows".to_string(), JsonValue::Int(-2))]);
    assert_eq!(card[4], format!("\u{2502}  Status:      success{}\u{2502}", " ".repeat(34)));
    assert_eq!(card[5], format!("\u{2502}  Rows Mutated:0{}\u{2502}", " ".repeat(40)));
}

#[test]
fn streams_card_lists_each_stream() {
    assert_eq!(format_streams_card(&vec![]), vec!["No streams active in the database.".to_string()]);
    let card = format_streams_card(&vec!["logs".to_string(), "users".to_string()]);
    assert_eq!(card.len(), 6);
    assert_eq!(card[0], format!("\u{250c}{}\u{2510}", rule(41)));
    assert_eq!(card[3], format!("\u{2502}  logs{}\u{2502}", " ".repeat(35)));
    assert_eq!(card[4], format!("\u{2502}  users{}\u{2502}", " ".repeat(34)));
}

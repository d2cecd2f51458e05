use liven::cli::{parse_options, CliCommand, CliOptions};

fn args(words: &[&str]) -> Vec<String> {
    words.iter().map(|w| w.to_string()).collect()
}

fn opts() -> CliOptions {
    CliOptions { auth_key: None, path: None, stream: None, all: false, dry_run: false, format: "text".to_string() }
}

#[test]
fn list_and_vibe_read_the_auth_key() {
    let o = parse_options(CliCommand::List, &args(&["--auth-key", "abc", "extra"])).unwrap();
    assert_eq!(o, CliOptions { auth_key: Some("abc".to_string()), ..opts() });
    let o = parse_options(CliCommand::Vibe, &args(&["-k", "xyz"])).unwrap();
    assert_eq!(o.auth_key, Some("xyz".to_string()));
    assert_eq!(
        parse_options(CliCommand::List, &args(&["-k"])).unwrap_err(),
        "Error: --auth-key requires a value."
    );
    assert_eq!(parse_options(CliCommand::Vibe, &args(&["--path", "p"])).unwrap(), opts());
}

#[test]
fn import_needs_a_path() {
    let o = parse_options(CliCommand::Import, &args(&["--path", "data.jsonl", "--dry-run"])).unwrap();
    assert_eq!(o, CliOptions { path: Some("data.jsonl".to_string()), dry_run: true, ..opts() });
    assert_eq!(
        parse_options(CliCommand::Import, &args(&["--dry-run"])).unwrap_err(),
        "Error: Missing required --path <path> option."
    );
    assert_eq!(
        parse_options(CliCommand::Import, &args(&["--path"])).unwrap_err(),
        "Error: --path requires a file path."
    );
}

#[test]
fn export_needs_one_of_stream_or_all() {
    let o = parse_options(CliCommand::Export, &args(&["--stream", "logs", "--path", "out.bin"])).unwrap();
    assert_eq!(o, CliOptions { stream: Some("logs".to_string()), path: Some("out.bin".to_string()), ..opts() });
    let o = parse_options(CliCommand::Export, &args(&["--all"])).unwrap();
    assert!(o.all);
    assert_eq!(
        parse_options(CliCommand::Export, &args(&[])).unwrap_err(),
        "Error: Must specify either --stream <name> or --all."
    );
    assert_eq!(
        parse_options(CliCommand::Export, &args(&["--all", "--stream", "x"])).unwrap_err(),
        "Error: Cannot specify both --stream and --all."
    );
    assert_eq!(
        parse_options(CliCommand::Export, &args(&["--stream"])).unwrap_err(),
        "Error: --stream requires a stream name."
    );
    assert_eq!(
        parse_options(CliCommand::Export, &args(&["--dry-run", "--all"])).unwrap(),
        CliOptions { all: true, ..opts() }
    );
}

#[test]
fn tail_reads_its_stream_and_format() {
    let o = parse_options(CliCommand::Tail, &args(&["logs", "--format", "JSON", "other"])).unwrap();
    assert_eq!(o, CliOptions { stream: Some("logs".to_string()), format: "json".to_string(), ..opts() });
    let o = parse_options(CliCommand::Tail, &args(&["--x", "logs"])).unwrap();
    assert_eq!(o.stream, Some("logs".to_string()));
    assert_eq!(
        parse_options(CliCommand::Tail, &args(&["--format", "text"])).unwrap_err(),
        "Error: Missing stream name. Usage: liven tail <stream_name> [--format <text|json>] [--auth-key <value>]"
    );
    assert_eq!(
        parse_options(CliCommand::Tail, &args(&["logs", "-f", "xml"])).unwrap_err(),
        "Error: Invalid format 'xml'. Choose 'text' or 'json'."
    );
    assert_eq!(
        parse_options(CliCommand::Tail, &args(&["logs", "-f"])).unwrap_err(),
        "Error: --format requires 'text' or 'json'."
    );
}

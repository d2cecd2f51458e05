//! The command line's options: which flags each command reads, the values
//! they take, and the checks on them before anything runs.
use crate::text::{chars_eq_str, chars_of};
use vstd::prelude::*;

verus! {

/// A command of the command line that reads options.
#[derive(Clone, Copy, Debug, PartialEq, Eq, Structural)]
pub enum CliCommand {
    List,
    Vibe,
    Tail,
    Import,
    Export,
}

/// The options read after a command's name.
#[derive(Debug, PartialEq, Eq)]
pub struct CliOptions {
    pub auth_key: Option<String>,
    pub path: Option<String>,
    pub stream: Option<String>,
    pub all: bool,
    pub dry_run: bool,
    pub format: String,
}

/// The model of [`CliOptions`].
pub struct CliOptionsV {
    pub auth_key: Option<Seq<char>>,
    pub path: Option<Seq<char>>,
    pub stream: Option<Seq<char>>,
    pub all: bool,
    pub dry_run: bool,
    pub format: Seq<char>,
}

/// The text of an optional string.
pub open spec fn opt_view(o: Option<String>) -> Option<Seq<char>> {
    match o {
        Some(s) => Some(s@),
        None => None,
    }
}

impl View for CliOptions {
    type V = CliOptionsV;

    open spec fn view(&self) -> CliOptionsV {
        CliOptionsV {
            auth_key: opt_view(self.auth_key),
            path: opt_view(self.path),
            stream: opt_view(self.stream),
            all: self.all,
            dry_run: self.dry_run,
            format: self.format@,
        }
    }
}

/// The lowercase form of a text (std `str::to_lowercase`).
pub uninterp spec fn lowercase_text(s: Seq<char>) -> Seq<char>;

/// The lowercase form of a string (std `str::to_lowercase`); its result is
/// named by [`lowercase_text`], Unicode's full case mapping not being stated
/// here.
#[verifier::external_body]
pub(crate) fn str_to_lowercase(s: &str) -> (r: String)
    ensures
        r@ == lowercase_text(s@),
{
    s.to_lowercase()
}

/// The options before any flag is read.
pub open spec fn no_options() -> CliOptionsV {
    CliOptionsV { auth_key: None, path: None, stream: None, all: false, dry_run: false, format: "text"@ }
}

/// Whether a word starts with `-`.
pub open spec fn is_flag_like(a: Seq<char>) -> bool {
    a.len() > 0 && a[0] == '-'
}

/// Reads the options from argument `i` on: each command reads its own flags
/// and skips other words; a flag that needs a value and has none is an
/// error. `tail` takes the first word not starting with `-` as its stream.
pub open spec fn scan_options(cmd: CliCommand, args: Seq<Seq<char>>, i: int, o: CliOptionsV) -> Result<
    CliOptionsV,
    Seq<char>,
>
    decreases args.len() - i,
{
    if i < 0 || i >= args.len() {
        Ok(o)
    } else {
        let a = args[i];
        let has_value = i + 1 < args.len();
        if a == "--auth-key"@ || a == "-k"@ {
            if has_value {
                scan_options(cmd, args, i + 2, CliOptionsV { auth_key: Some(args[i + 1]), ..o })
            } else {
                Err("Error: --auth-key requires a value."@)
            }
        } else if cmd == CliCommand::Tail && (a == "--format"@ || a == "-f"@) {
            if has_value {
                scan_options(cmd, args, i + 2, CliOptionsV { format: lowercase_text(args[i + 1]), ..o })
            } else {
                Err("Error: --format requires 'text' or 'json'."@)
            }
        } else if cmd == CliCommand::Tail {
            if o.stream is None && !is_flag_like(a) {
                scan_options(cmd, args, i + 1, CliOptionsV { stream: Some(a), ..o })
            } else {
                scan_options(cmd, args, i + 1, o)
            }
        } else if (cmd == CliCommand::Import || cmd == CliCommand::Export) && a == "--path"@ {
            if has_value {
                scan_options(cmd, args, i + 2, CliOptionsV { path: Some(args[i + 1]), ..o })
            } else {
                Err("Error: --path requires a file path."@)
            }
        } else if cmd == CliCommand::Import && a == "--dry-run"@ {
            scan_options(cmd, args, i + 1, CliOptionsV { dry_run: true, ..o })
        } else if cmd == CliCommand::Export && a == "--stream"@ {
            if has_value {
                scan_options(cmd, args, i + 2, CliOptionsV { stream: Some(args[i + 1]), ..o })
            } else {
                Err("Error: --stream requires a stream name."@)
            }
        } else if cmd == CliCommand::Export && a == "--all"@ {
            scan_options(cmd, args, i + 1, CliOptionsV { all: true, ..o })
        } else {
            scan_options(cmd, args, i + 1, o)
        }
    }
}

/// The checks on a command's options once read.
pub open spec fn options_check(cmd: CliCommand, o: CliOptionsV) -> Result<CliOptionsV, Seq<char>> {
    match cmd {
        CliCommand::Tail => if o.stream is None {
            Err(
                "Error: Missing stream name. Usage: liven tail <stream_name> [--format <text|json>] [--auth-key <value>]"@,
            )
        } else if o.format != "text"@ && o.format != "json"@ {
            Err("Error: Invalid format '"@ + o.format + "'. Choose 'text' or 'json'."@)
        } else {
            Ok(o)
        },
        CliCommand::Import => if o.path is None {
            Err("Error: Missing required --path <path> option."@)
        } else {
            Ok(o)
        },
        CliCommand::Export => if o.stream is None && !o.all {
            Err("Error: Must specify either --stream <name> or --all."@)
        } else if o.stream is Some && o.all {
            Err("Error: Cannot specify both --stream and --all."@)
        } else {
            Ok(o)
        },
        _ => Ok(o),
    }
}

/// The options of a command from its arguments (those after the command's
/// name): read, then checked.
pub open spec fn spec_parse_options(cmd: CliCommand, args: Seq<Seq<char>>) -> Result<CliOptionsV, Seq<char>> {
    match scan_options(cmd, args, 0, no_options()) {
        Ok(o) => options_check(cmd, o),
        Err(e) => Err(e),
    }
}

/// The view of a parse result.
pub open spec fn parse_view(r: Result<CliOptions, String>) -> Result<CliOptionsV, Seq<char>> {
    match r {
        Ok(o) => Ok(o@),
        Err(e) => Err(e@),
    }
}

fn is_flag_like_exec(a: &[char]) -> (r: bool)
    ensures
        r == is_flag_like(a@),
{
    a.len() > 0 && a[0] == '-'
}

fn copy_string(s: &String) -> (r: String)
    ensures
        r@ == s@,
{
    s.clone()
}

/// Reads and checks a command's options (see [`spec_parse_options`]).
pub fn parse_options(cmd: CliCommand, args: &Vec<String>) -> (r: Result<CliOptions, String>)
    ensures
        parse_view(r) == spec_parse_options(cmd, args@.map_values(|s: String| s@)),
{
    let ghost av = args@.map_values(|s: String| s@);
    let mut o = CliOptions {
        auth_key: None,
        path: None,
        stream: None,
        all: false,
        dry_run: false,
        format: String::from_str("text"),
    };
    let mut i: usize = 0;
    proof {
        reveal_strlit("--auth-key");
        reveal_strlit("-k");
        reveal_strlit("--format");
        reveal_strlit("-f");
        reveal_strlit("--path");
        reveal_strlit("--dry-run");
        reveal_strlit("--stream");
        reveal_strlit("--all");
    }
    while i < args.len()
        invariant
            i <= args@.len(),
            av == args@.map_values(|s: String| s@),
            scan_options(cmd, av, i as int, o@) == scan_options(cmd, av, 0, no_options()),
        decreases args.len() - i,
    {
        let a = chars_of(args[i].as_str());
        let has_value = i + 1 < args.len();
        proof {
            assert(a@ == av[i as int]);
            reveal_strlit("--auth-key");
            reveal_strlit("-k");
            reveal_strlit("--format");
            reveal_strlit("-f");
            reveal_strlit("--path");
            reveal_strlit("--dry-run");
            reveal_strlit("--stream");
            reveal_strlit("--all");
        }
        if chars_eq_str(a.as_slice(), "--auth-key") || chars_eq_str(a.as_slice(), "-k") {
            if has_value {
                proof {
                    assert(av[i + 1] == args@[i + 1]@);
                }
                o.auth_key = Some(copy_string(&args[i + 1]));
                i += 2;
            } else {
                return Err(String::from_str("Error: --auth-key requires a value."));
            }
        } else if cmd == CliCommand::Tail && (chars_eq_str(a.as_slice(), "--format") || chars_eq_str(
            a.as_slice(),
            "-f",
        )) {
            if has_value {
                proof {
                    assert(av[i + 1] == args@[i + 1]@);
                }
                o.format = str_to_lowercase(args[i + 1].as_str());
                i += 2;
            } else {
                return Err(String::from_str("Error: --format requires 'text' or 'json'."));
            }
        } else if cmd == CliCommand::Tail {
            if o.stream.is_none() && !is_flag_like_exec(a.as_slice()) {
                o.stream = Some(copy_string(&args[i]));
            }
            i += 1;
        } else if (cmd == CliCommand::Import || cmd == CliCommand::Export) && chars_eq_str(a.as_slice(), "--path") {
            if has_value {
                proof {
                    assert(av[i + 1] == args@[i + 1]@);
                }
                o.path = Some(copy_string(&args[i + 1]));
                i += 2;
            } else {
                return Err(String::from_str("Error: --path requires a file path."));
            }
        } else if cmd == CliCommand::Import && chars_eq_str(a.as_slice(), "--dry-run") {
            o.dry_run = true;
            i += 1;
        } else if cmd == CliCommand::Export && chars_eq_str(a.as_slice(), "--stream") {
            if has_value {
                proof {
                    assert(av[i + 1] == args@[i + 1]@);
                }
                o.stream = Some(copy_string(&args[i + 1]));
                i += 2;
            } else {
                return Err(String::from_str("Error: --stream requires a stream name."));
            }
        } else if cmd == CliCommand::Export && chars_eq_str(a.as_slice(), "--all") {
            o.all = true;
            i += 1;
        } else {
            i += 1;
        }
    }
    check_options(cmd, o)
}

fn check_options(cmd: CliCommand, o: CliOptions) -> (r: Result<CliOptions, String>)
    ensures
        parse_view(r) == options_check(cmd, o@),
{
    proof {
        reveal_strlit("text");
        reveal_strlit("json");
    }
    match cmd {
        CliCommand::Tail => {
            if o.stream.is_none() {
                return Err(
                    String::from_str(
                        "Error: Missing stream name. Usage: liven tail <stream_name> [--format <text|json>] [--auth-key <value>]",
                    ),
                );
            }
            let f = chars_of(o.format.as_str());
            if !chars_eq_str(f.as_slice(), "text") && !chars_eq_str(f.as_slice(), "json") {
                let mut m = String::from_str("Error: Invalid format '");
                m.append(o.format.as_str());
                m.append("'. Choose 'text' or 'json'.");
                return Err(m);
            }
            Ok(o)
        },
        CliCommand::Import => {
            if o.path.is_none() {
                return Err(String::from_str("Error: Missing required --path <path> option."));
            }
            Ok(o)
        },
        CliCommand::Export => {
            if o.stream.is_none() && !o.all {
                return Err(String::from_str("Error: Must specify either --stream <name> or --all."));
            }
            if o.stream.is_some() && o.all {
                return Err(String::from_str("Error: Cannot specify both --stream and --all."));
            }
            Ok(o)
        },
        _ => Ok(o),
    }
}

} // verus!

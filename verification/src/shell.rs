//! The interactive shell's decisions: the input line editor with its command
//! history, the reading of a submitted line as a shell command, and the
//! text cards that show results and errors.
use crate::display::{insert_char_at, inserted, remove_char_at, removed_before};
use crate::text::{chars_eq_str, chars_of, is_space, is_unicode_whitespace, str_trim, string_of, trim};
use vstd::prelude::*;

verus! {

/// A key pressed in the shell.
#[derive(Clone, Copy, Debug, PartialEq, Eq)]
pub enum ShellKey {
    /// A character, with whether Control was held.
    Char { c: char, control: bool },
    Backspace,
    Delete,
    Left,
    Right,
    Up,
    Down,
    PageUp,
    PageDown,
    Home,
    End,
    Enter,
    /// Any other key; it changes nothing.
    Other,
}

/// What the shell does after a key.
#[derive(Debug, PartialEq, Eq)]
pub enum ShellAction {
    /// Keep reading keys.
    Continue,
    /// Close the shell.
    Quit,
    /// Run the submitted line (trimmed).
    Submit(String),
}

/// The model of a [`ShellAction`].
pub enum ShellActionV {
    Continue,
    Quit,
    Submit(Seq<char>),
}

impl View for ShellAction {
    type V = ShellActionV;

    open spec fn view(&self) -> ShellActionV {
        match self {
            ShellAction::Continue => ShellActionV::Continue,
            ShellAction::Quit => ShellActionV::Quit,
            ShellAction::Submit(s) => ShellActionV::Submit(s@),
        }
    }
}

/// The input line editor: the line being typed with its cursor (a character
/// position), the lines entered before, the position while walking back
/// through them with the line that was being typed when the walk began, and
/// how far the output log is scrolled.
pub struct ShellInput {
    pub buffer: String,
    pub cursor: usize,
    pub history: Vec<String>,
    pub history_index: Option<usize>,
    pub saved: String,
    pub scroll: usize,
}

/// The model of a [`ShellInput`].
pub struct ShellInputV {
    pub buffer: Seq<char>,
    pub cursor: int,
    pub history: Seq<Seq<char>>,
    pub history_index: Option<int>,
    pub saved: Seq<char>,
    pub scroll: int,
}

impl View for ShellInput {
    type V = ShellInputV;

    open spec fn view(&self) -> ShellInputV {
        ShellInputV {
            buffer: self.buffer@,
            cursor: self.cursor as int,
            history: self.history@.map_values(|h: String| h@),
            history_index: match self.history_index {
                Some(i) => Some(i as int),
                None => None,
            },
            saved: self.saved@,
            scroll: self.scroll as int,
        }
    }
}

/// The editor's invariant: the cursor is within the line and the history
/// position names an entered line.
pub open spec fn input_wf(s: ShellInputV) -> bool {
    &&& 0 <= s.cursor <= s.buffer.len()
    &&& (s.history_index matches Some(i) ==> 0 <= i < s.history.len())
}

/// Whether a trimmed line closes the shell.
pub open spec fn is_quit_line(t: Seq<char>) -> bool {
    t == "exit"@ || t == "quit"@ || t == "\\q"@
}

/// The editor after a key; `logs_len` and `logs_height` are the number of
/// output lines and how many of them fit on screen.
pub open spec fn after_key(s: ShellInputV, key: ShellKey, logs_len: int, logs_height: int) -> ShellInputV {
    match key {
        ShellKey::Char { c, control } => if control && (c == 'c' || c == 'd') {
            s
        } else {
            ShellInputV { buffer: inserted(s.buffer, s.cursor, c), cursor: s.cursor + 1, ..s }
        },
        ShellKey::Backspace => if s.cursor > 0 {
            ShellInputV { buffer: removed_before(s.buffer, s.cursor), cursor: s.cursor - 1, ..s }
        } else {
            s
        },
        ShellKey::Delete => if s.cursor < s.buffer.len() {
            ShellInputV { buffer: removed_before(s.buffer, s.cursor + 1), ..s }
        } else {
            s
        },
        ShellKey::Left => ShellInputV { cursor: if s.cursor > 0 { s.cursor - 1 } else { 0 }, ..s },
        ShellKey::Right => ShellInputV {
            cursor: if s.cursor + 1 < s.buffer.len() { s.cursor + 1 } else { s.buffer.len() as int },
            ..s
        },
        ShellKey::Up => if s.history.len() == 0 {
            s
        } else {
            let i = match s.history_index {
                None => s.history.len() - 1,
                Some(j) => if j > 0 { j - 1 } else { j },
            };
            let saved = if s.history_index is None { s.buffer } else { s.saved };
            ShellInputV {
                buffer: s.history[i],
                cursor: s.history[i].len() as int,
                history_index: Some(i),
                saved: saved,
                ..s
            }
        },
        ShellKey::Down => match s.history_index {
            None => s,
            Some(j) => if j + 1 < s.history.len() {
                ShellInputV {
                    buffer: s.history[j + 1],
                    cursor: s.history[j + 1].len() as int,
                    history_index: Some(j + 1),
                    ..s
                }
            } else {
                ShellInputV { buffer: s.saved, cursor: s.saved.len() as int, history_index: None, ..s }
            },
        },
        ShellKey::PageUp => ShellInputV { scroll: if s.scroll >= 5 { s.scroll - 5 } else { 0 }, ..s },
        ShellKey::PageDown => {
            let bottom = if logs_len >= logs_height { logs_len - logs_height } else { 0 };
            ShellInputV { scroll: if s.scroll + 5 < bottom { s.scroll + 5 } else { bottom }, ..s }
        },
        ShellKey::Home => ShellInputV { cursor: 0, ..s },
        ShellKey::End => ShellInputV { cursor: s.buffer.len() as int, ..s },
        ShellKey::Enter => if trim(s.buffer).len() == 0 {
            s
        } else {
            ShellInputV {
                buffer: Seq::empty(),
                cursor: 0,
                history: s.history.push(s.buffer),
                history_index: None,
                ..s
            }
        },
        ShellKey::Other => s,
    }
}

/// What the shell does after a key.
pub open spec fn key_action(s: ShellInputV, key: ShellKey) -> ShellActionV {
    match key {
        ShellKey::Char { c, control } => if control && (c == 'c' || c == 'd') {
            ShellActionV::Quit
        } else {
            ShellActionV::Continue
        },
        ShellKey::Enter => if trim(s.buffer).len() == 0 {
            ShellActionV::Continue
        } else if is_quit_line(trim(s.buffer)) {
            ShellActionV::Quit
        } else {
            ShellActionV::Submit(trim(s.buffer))
        },
        _ => ShellActionV::Continue,
    }
}

/// The number of characters of a string.
fn char_count(s: &String) -> (n: usize)
    ensures
        n == s@.len(),
{
    chars_of(s.as_str()).len()
}

impl ShellInput {
    /// An empty line, no history, the log unscrolled.
    pub fn new() -> (r: ShellInput)
        ensures
            r@.buffer.len() == 0,
            r@.cursor == 0,
            r@.history.len() == 0,
            r@.history_index is None,
            r@.saved.len() == 0,
            r@.scroll == 0,
            input_wf(r@),
    {
        ShellInput {
            buffer: String::new(),
            cursor: 0,
            history: Vec::new(),
            history_index: None,
            saved: String::new(),
            scroll: 0,
        }
    }

    /// Handles one key (see [`after_key`] and [`key_action`]). The editor's
    /// invariant holds after every key.
    pub fn handle_key(&mut self, key: ShellKey, logs_len: usize, logs_height: usize) -> (r: ShellAction)
        requires
            input_wf(old(self)@),
            old(self)@.buffer.len() < usize::MAX,
            old(self)@.scroll + 5 <= usize::MAX,
        ensures
            final(self)@ == after_key(old(self)@, key, logs_len as int, logs_height as int),
            r@ == key_action(old(self)@, key),
            input_wf(final(self)@),
    {
        let ghost s0 = self@;
        match key {
            ShellKey::Char { c, control } => {
                if control && (c == 'c' || c == 'd') {
                    return ShellAction::Quit;
                }
                insert_char_at(&mut self.buffer, self.cursor, c);
                self.cursor = self.cursor + 1;
                proof {
                    assert(self@.history =~= s0.history);
                }
                ShellAction::Continue
            },
            ShellKey::Backspace => {
                if self.cursor > 0 {
                    remove_char_at(&mut self.buffer, self.cursor);
                    self.cursor = self.cursor - 1;
                    proof {
                        assert(self@.history =~= s0.history);
                    }
                }
                ShellAction::Continue
            },
            ShellKey::Delete => {
                let n = char_count(&self.buffer);
                if self.cursor < n {
                    remove_char_at(&mut self.buffer, self.cursor + 1);
                    proof {
                        assert(self@.history =~= s0.history);
                    }
                }
                ShellAction::Continue
            },
            ShellKey::Left => {
                if self.cursor > 0 {
                    self.cursor = self.cursor - 1;
                }
                proof {
                    assert(self@.history =~= s0.history);
                }
                ShellAction::Continue
            },
            ShellKey::Right => {
                let n = char_count(&self.buffer);
                self.cursor = if self.cursor + 1 < n { self.cursor + 1 } else { n };
                proof {
                    assert(self@.history =~= s0.history);
                }
                ShellAction::Continue
            },
            ShellKey::Up => {
                if self.history.len() > 0 {
                    let i: usize = match self.history_index {
                        None => {
                            self.saved = self.buffer.clone();
                            self.history.len() - 1
                        },
                        Some(j) => if j > 0 { j - 1 } else { j },
                    };
                    self.history_index = Some(i);
                    self.buffer = self.history[i].clone();
                    self.cursor = char_count(&self.buffer);
                    proof {
                        assert(self@.history =~= s0.history);
                        assert(self@.buffer == s0.history[i as int]);
                    }
                }
                ShellAction::Continue
            },
            ShellKey::Down => {
                match self.history_index {
                    None => {},
                    Some(j) => {
                        assert(j < self.history.len());
                        if j + 1 < self.history.len() {
                            self.history_index = Some(j + 1);
                            self.buffer = self.history[j + 1].clone();
                            proof {
                                assert(self@.buffer == s0.history[j + 1]);
                            }
                        } else {
                            self.history_index = None;
                            self.buffer = self.saved.clone();
                        }
                        self.cursor = char_count(&self.buffer);
                        proof {
                            assert(self@.history =~= s0.history);
                        }
                    },
                }
                ShellAction::Continue
            },
            ShellKey::PageUp => {
                self.scroll = if self.scroll >= 5 { self.scroll - 5 } else { 0 };
                proof {
                    assert(self@.history =~= s0.history);
                }
                ShellAction::Continue
            },
            ShellKey::PageDown => {
                let bottom = if logs_len >= logs_height { logs_len - logs_height } else { 0 };
                self.scroll = if self.scroll + 5 < bottom { self.scroll + 5 } else { bottom };
                proof {
                    assert(self@.history =~= s0.history);
                }
                ShellAction::Continue
            },
            ShellKey::Home => {
                self.cursor = 0;
                proof {
                    assert(self@.history =~= s0.history);
                }
                ShellAction::Continue
            },
            ShellKey::End => {
                self.cursor = char_count(&self.buffer);
                proof {
                    assert(self@.history =~= s0.history);
                }
                ShellAction::Continue
            },
            ShellKey::Enter => {
                let trimmed = chars_of(str_trim(self.buffer.as_str()));
                if trimmed.len() == 0 {
                    return ShellAction::Continue;
                }
                let line = self.buffer.clone();
                self.history.push(line);
                self.history_index = None;
                self.buffer = String::new();
                self.cursor = 0;
                proof {
                    assert(self@.history =~= s0.history.push(s0.buffer));
                    reveal_strlit("exit");
                    reveal_strlit("quit");
                    reveal_strlit("\\q");
                }
                if chars_eq_str(trimmed.as_slice(), "exit") || chars_eq_str(trimmed.as_slice(), "quit")
                    || chars_eq_str(trimmed.as_slice(), "\\q") {
                    ShellAction::Quit
                } else {
                    ShellAction::Submit(crate::text::string_of(trimmed.as_slice()))
                }
            },
            ShellKey::Other => ShellAction::Continue,
        }
    }
}


/// Walking back into the history and forward again gives back the line that
/// was being typed.
pub proof fn lemma_history_walk_restores(s: ShellInputV, logs_len: int, logs_height: int)
    requires
        input_wf(s),
        s.history_index is None,
        s.history.len() > 0,
    ensures
        after_key(after_key(s, ShellKey::Up, logs_len, logs_height), ShellKey::Down, logs_len, logs_height).buffer
            == s.buffer,
        after_key(after_key(s, ShellKey::Up, logs_len, logs_height), ShellKey::Down, logs_len, logs_height).history_index
            is None,
{
}

/// The end of the word that starts at `i`: the first whitespace at or after
/// `i`, or the end of the text.
pub open spec fn word_end(s: Seq<char>, i: int) -> int
    decreases s.len() - i,
{
    if i < 0 || i >= s.len() || is_unicode_whitespace(s[i]) {
        i
    } else {
        word_end(s, i + 1)
    }
}

/// A word runs from its first character to the next whitespace.
pub proof fn lemma_word_end(s: Seq<char>, i: int)
    requires
        0 <= i <= s.len(),
    ensures
        i <= word_end(s, i) <= s.len(),
        i < s.len() && !is_unicode_whitespace(s[i]) ==> i < word_end(s, i),
        forall|j: int| i <= j < word_end(s, i) ==> !is_unicode_whitespace(#[trigger] s[j]),
        word_end(s, i) < s.len() ==> is_unicode_whitespace(s[word_end(s, i)]),
    decreases s.len() - i,
{
    if i < s.len() && !is_unicode_whitespace(s[i]) {
        lemma_word_end(s, i + 1);
    }
}

/// The words of the text from `i` on: its runs of characters without
/// whitespace, in order (std `split_whitespace`).
pub open spec fn words_from(s: Seq<char>, i: int) -> Seq<Seq<char>>
    decreases s.len() - i,
{
    if i < 0 || i >= s.len() {
        Seq::empty()
    } else if is_unicode_whitespace(s[i]) {
        words_from(s, i + 1)
    } else {
        let e = word_end(s, i);
        proof {
            lemma_word_end(s, i);
        }
        seq![s.subrange(i, e)] + words_from(s, e)
    }
}

/// The words of a text.
pub open spec fn words(s: Seq<char>) -> Seq<Seq<char>> {
    words_from(s, 0)
}

/// Whether `p` occurs in `s` at position `i`.
pub open spec fn occurs_at(s: Seq<char>, i: int, p: Seq<char>) -> bool {
    0 <= i && i + p.len() <= s.len() && s.subrange(i, i + p.len()) == p
}

/// Whether `p` occurs anywhere in `s`.
pub open spec fn occurs_in(s: Seq<char>, p: Seq<char>) -> bool {
    exists|i: int| occurs_at(s, i, p)
}

/// Whether `s` ends with `p`.
pub open spec fn ends_with(s: Seq<char>, p: Seq<char>) -> bool {
    p.len() <= s.len() && occurs_at(s, s.len() - p.len(), p)
}

/// A `tail("…")` or `tail('…')` line.
pub open spec fn is_tail_line(t: Seq<char>) -> bool {
    ||| occurs_at(t, 0, "tail(\""@) && ends_with(t, "\")"@)
    ||| occurs_at(t, 0, "tail('"@) && ends_with(t, "')"@)
}

/// A line that changes data: one naming a mutating call, or a `drop`.
pub open spec fn is_mutation_line(t: Seq<char>) -> bool {
    ||| occurs_in(t, ".insert"@)
    ||| occurs_in(t, ".update"@)
    ||| occurs_in(t, ".upsert"@)
    ||| occurs_in(t, ".delete"@)
    ||| occurs_in(t, ".empty"@)
    ||| occurs_at(t, 0, "drop"@)
}

/// What the shell does with a submitted line.
#[derive(Debug, PartialEq, Eq)]
pub enum ShellCommand {
    /// `\help`: the quick guide.
    Help,
    /// `\d` or `\dt`: the list of streams.
    ListStreams,
    /// `\d <stream>`: a stream's description.
    Describe(String),
    /// `\d` followed by other than one stream name.
    DescribeUsage,
    /// `tail("…")`: follow a stream live.
    Tail(String),
    /// Any other line: a query, with whether it changes data.
    Run { query: String, mutation: bool },
}

/// The model of a [`ShellCommand`].
pub enum ShellCommandV {
    Help,
    ListStreams,
    Describe(Seq<char>),
    DescribeUsage,
    Tail(Seq<char>),
    Run { query: Seq<char>, mutation: bool },
}

impl View for ShellCommand {
    type V = ShellCommandV;

    open spec fn view(&self) -> ShellCommandV {
        match self {
            ShellCommand::Help => ShellCommandV::Help,
            ShellCommand::ListStreams => ShellCommandV::ListStreams,
            ShellCommand::Describe(s) => ShellCommandV::Describe(s@),
            ShellCommand::DescribeUsage => ShellCommandV::DescribeUsage,
            ShellCommand::Tail(s) => ShellCommandV::Tail(s@),
            ShellCommand::Run { query, mutation } => ShellCommandV::Run { query: query@, mutation: *mutation },
        }
    }
}

/// The reading of a submitted line: the trimmed line names the command; a
/// query runs as submitted.
pub open spec fn shell_command_of(line: Seq<char>) -> ShellCommandV {
    let t = trim(line);
    if t == "\\help"@ {
        ShellCommandV::Help
    } else if t == "\\d"@ || t == "\\dt"@ {
        ShellCommandV::ListStreams
    } else if occurs_at(t, 0, "\\d "@) {
        if words(t).len() == 2 {
            ShellCommandV::Describe(words(t)[1])
        } else {
            ShellCommandV::DescribeUsage
        }
    } else if is_tail_line(t) {
        ShellCommandV::Tail(t.subrange(6, t.len() - 2))
    } else {
        ShellCommandV::Run { query: line, mutation: is_mutation_line(line) }
    }
}

/// Whether `p` occurs in `s` at position `i`.
pub(crate) fn occurs_at_exec(s: &[char], i: usize, p: &[char]) -> (r: bool)
    ensures
        r == occurs_at(s@, i as int, p@),
{
    if i > s.len() || p.len() > s.len() - i {
        return false;
    }
    let mut j: usize = 0;
    while j < p.len()
        invariant
            i + p@.len() <= s@.len(),
            j <= p@.len(),
            forall|k: int| 0 <= k < j ==> s@[i + k] == p@[k],
        decreases p.len() - j,
    {
        assert(i + j < s.len());
        if s[i + j] != p[j] {
            proof {
                assert(s@.subrange(i as int, i + p@.len())[j as int] != p@[j as int]);
            }
            return false;
        }
        j += 1;
    }
    assert(s@.subrange(i as int, i + p@.len()) =~= p@);
    true
}

/// Whether `p` occurs anywhere in `s`.
pub(crate) fn occurs_in_exec(s: &[char], p: &[char]) -> (r: bool)
    ensures
        r == occurs_in(s@, p@),
{
    let mut i: usize = 0;
    while i < s.len()
        invariant
            i <= s@.len(),
            forall|k: int| 0 <= k < i ==> !occurs_at(s@, k, p@),
        decreases s.len() - i,
    {
        if occurs_at_exec(s, i, p) {
            return true;
        }
        i += 1;
    }
    if occurs_at_exec(s, s.len(), p) {
        return true;
    }
    assert forall|k: int| !occurs_at(s@, k, p@) by {
        if occurs_at(s@, k, p@) {
            assert(k < i || k == s@.len());
        }
    }
    false
}

pub(crate) fn ends_with_exec(s: &[char], p: &[char]) -> (r: bool)
    ensures
        r == ends_with(s@, p@),
{
    if p.len() > s.len() {
        return false;
    }
    occurs_at_exec(s, s.len() - p.len(), p)
}

/// The words of `s` from `i` on.
fn words_from_exec(s: &[char], i: usize) -> (r: Vec<String>)
    requires
        i <= s.len(),
    ensures
        r@.map_values(|w: String| w@) == words_from(s@, i as int),
    decreases s.len() - i,
{
    let mut out: Vec<String> = Vec::new();
    let mut i = i;
    let ghost i0 = i as int;
    while i < s.len() && is_space(s[i])
        invariant
            i0 <= i <= s.len(),
            words_from(s@, i0) == words_from(s@, i as int),
        decreases s.len() - i,
    {
        i += 1;
    }
    if i >= s.len() {
        assert(out@.map_values(|w: String| w@) =~= Seq::<Seq<char>>::empty());
        return out;
    }
    let start = i;
    while i < s.len() && !is_space(s[i])
        invariant
            start <= i <= s.len(),
            start < s.len(),
            !is_unicode_whitespace(s@[start as int]),
            word_end(s@, start as int) == word_end(s@, i as int),
        decreases s.len() - i,
    {
        i += 1;
    }
    proof {
        lemma_word_end(s@, start as int);
    }
    let mut w: Vec<char> = Vec::new();
    let mut k = start;
    while k < i
        invariant
            start <= k <= i <= s.len(),
            w@ == s@.subrange(start as int, k as int),
        decreases i - k,
    {
        w.push(s[k]);
        k += 1;
        proof {
            assert(w@ =~= s@.subrange(start as int, k as int));
        }
    }
    let mut rest = words_from_exec(s, i);
    out.push(string_of(w.as_slice()));
    out.append(&mut rest);
    proof {
        assert(out@.map_values(|x: String| x@) =~= seq![s@.subrange(start as int, i as int)]
            + words_from(s@, i as int));
    }
    out
}

/// Reads a submitted line as a shell command (see [`shell_command_of`]). A
/// `tail` line whose quotes overlap (such as `tail(")`) is left out.
pub fn shell_command(line: &str) -> (r: ShellCommand)
    requires
        is_tail_line(trim(line@)) ==> trim(line@).len() >= 8,
    ensures
        r@ == shell_command_of(line@),
{
    let t = chars_of(str_trim(line));
    proof {
        reveal_strlit("\\help");
        reveal_strlit("\\d");
        reveal_strlit("\\dt");
        reveal_strlit("\\d ");
        reveal_strlit("tail(\"");
        reveal_strlit("\")");
        reveal_strlit("tail('");
        reveal_strlit("')");
    }
    if chars_eq_str(t.as_slice(), "\\help") {
        return ShellCommand::Help;
    }
    if chars_eq_str(t.as_slice(), "\\d") || chars_eq_str(t.as_slice(), "\\dt") {
        return ShellCommand::ListStreams;
    }
    let dp = chars_of("\\d ");
    if occurs_at_exec(t.as_slice(), 0, dp.as_slice()) {
        let mut ws = words_from_exec(t.as_slice(), 0);
        if ws.len() == 2 {
            let name = ws.pop().unwrap();
            return ShellCommand::Describe(name);
        }
        return ShellCommand::DescribeUsage;
    }
    let dq = chars_of("tail(\"");
    let dqe = chars_of("\")");
    let sq = chars_of("tail('");
    let sqe = chars_of("')");
    let tail = (occurs_at_exec(t.as_slice(), 0, dq.as_slice()) && ends_with_exec(t.as_slice(), dqe.as_slice()))
        || (occurs_at_exec(t.as_slice(), 0, sq.as_slice()) && ends_with_exec(t.as_slice(), sqe.as_slice()));
    if tail {
        let mut name: Vec<char> = Vec::new();
        let end = t.len() - 2;
        let mut k: usize = 6;
        while k < end
            invariant
                6 <= k <= end <= t@.len(),
                name@ == t@.subrange(6, k as int),
            decreases end - k,
        {
            name.push(t[k]);
            k += 1;
            proof {
                assert(name@ =~= t@.subrange(6, k as int));
            }
        }
        return ShellCommand::Tail(string_of(name.as_slice()));
    }
    let l = chars_of(line);
    let mutation = occurs_in_exec(l.as_slice(), chars_of(".insert").as_slice())
        || occurs_in_exec(l.as_slice(), chars_of(".update").as_slice())
        || occurs_in_exec(l.as_slice(), chars_of(".upsert").as_slice())
        || occurs_in_exec(l.as_slice(), chars_of(".delete").as_slice())
        || occurs_in_exec(l.as_slice(), chars_of(".empty").as_slice())
        || occurs_at_exec(l.as_slice(), 0, chars_of("drop").as_slice());
    ShellCommand::Run { query: crate::text::owned(line), mutation }
}

} // verus!

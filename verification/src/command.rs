use vstd::prelude::*;

use crate::color::ExportFormat;
use crate::text::{
    chars_eq, chars_from, chars_of, is_whitespace, lemma_trim_drop_last_space, push_chars,
    push_str_chars, spec_is_whitespace, starts_with_str, string_from_chars, string_pop,
    string_push, trim, trim_chars,
};

verus! {

/// What running a command asks the viewer to do.
pub enum CommandAction {
    /// Nothing more (the command was empty, unknown, or already done).
    Nothing,
    /// Load the point file at this path and add its points.
    Load(String),
    /// Export the current view to this path (or to a generated one), in this format.
    Export(Option<String>, ExportFormat),
    /// Remove all points.
    Clear,
}

/// The state of the command prompt: whether it is open, the text typed so far, and the error
/// or success message to show.
pub struct CommandState {
    pub active: bool,
    pub buffer: String,
    pub error_message: Option<String>,
    pub success_message: Option<String>,
}

/// Whether `s` starts with `p`.
pub open spec fn has_prefix(s: Seq<char>, p: Seq<char>) -> bool {
    p.len() <= s.len() && s.take(p.len() as int) == p
}

/// Whether `rest` ends with the flag `flag`, separated from what comes before by whitespace.
pub open spec fn ends_with_flag(rest: Seq<char>, flag: Seq<char>) -> bool {
    &&& rest.len() > flag.len()
    &&& rest.skip(rest.len() - flag.len()) == flag
    &&& spec_is_whitespace(rest[rest.len() - flag.len() - 1])
}

/// The file name and format that the arguments of `export` give, following
/// `export [filename] [--color|--html]`: a lone flag names only the format, a trailing flag
/// after the file name sets it, and without a flag the whole text is the file name and the
/// format is plain.
pub open spec fn export_arguments(rest: Seq<char>) -> (Option<Seq<char>>, ExportFormat) {
    if rest == "--color"@ {
        (None, ExportFormat::Color)
    } else if rest == "--html"@ {
        (None, ExportFormat::Html)
    } else if ends_with_flag(rest, "--color"@) {
        (Some(trim(rest.take(rest.len() - 7))), ExportFormat::Color)
    } else if ends_with_flag(rest, "--html"@) {
        (Some(trim(rest.take(rest.len() - 6))), ExportFormat::Html)
    } else {
        (Some(rest), ExportFormat::Plain)
    }
}

/// The text of an optional string.
pub open spec fn opt_view(o: Option<String>) -> Option<Seq<char>> {
    match o {
        Some(s) => Some(s@),
        None => None,
    }
}

/// Whether `a` is the action of exporting with the given arguments.
pub open spec fn is_export(a: CommandAction, args: (Option<Seq<char>>, ExportFormat)) -> bool {
    a matches CommandAction::Export(p, f) && opt_view(p) == args.0 && f == args.1
}

impl CommandState {
    /// A closed prompt with nothing typed and no message.
    pub fn new() -> (s: CommandState)
        ensures
            !s.active,
            s.buffer@ == Seq::<char>::empty(),
            s.error_message is None,
            s.success_message is None,
    {
        CommandState { active: false, buffer: String::new(), error_message: None, success_message: None }
    }

    /// Opens the prompt with nothing typed and no message.
    pub fn enter_command_mode(&mut self)
        ensures
            final(self).active,
            final(self).buffer@ == Seq::<char>::empty(),
            final(self).error_message is None,
            final(self).success_message is None,
    {
        self.active = true;
        self.buffer = String::new();
        self.error_message = None;
        self.success_message = None;
    }

    /// Closes the prompt and drops what was typed; messages stay.
    pub fn exit_command_mode(&mut self)
        ensures
            !final(self).active,
            final(self).buffer@ == Seq::<char>::empty(),
            final(self).error_message == old(self).error_message,
            final(self).success_message == old(self).success_message,
    {
        self.active = false;
        self.buffer = String::new();
    }

    /// Types `c` at the end of the command.
    pub fn add_char(&mut self, c: char)
        ensures
            final(self).buffer@ == old(self).buffer@.push(c),
            final(self).active == old(self).active,
            final(self).error_message == old(self).error_message,
            final(self).success_message == old(self).success_message,
    {
        string_push(&mut self.buffer, c);
    }

    /// Deletes the last typed character, if any.
    pub fn backspace(&mut self)
        ensures
            final(self).buffer@ == if old(self).buffer@.len() > 0 {
                old(self).buffer@.drop_last()
            } else {
                old(self).buffer@
            },
            final(self).active == old(self).active,
            final(self).error_message == old(self).error_message,
            final(self).success_message == old(self).success_message,
    {
        string_pop(&mut self.buffer);
    }

    /// Whether there is an error or success message to show.
    pub fn has_message(&self) -> (r: bool)
        ensures
            r == (self.error_message is Some || self.success_message is Some),
    {
        self.error_message.is_some() || self.success_message.is_some()
    }

    /// Drops the error and success messages.
    pub fn clear_messages(&mut self)
        ensures
            final(self).error_message is None,
            final(self).success_message is None,
            final(self).active == old(self).active,
            final(self).buffer == old(self).buffer,
    {
        self.error_message = None;
        self.success_message = None;
    }
}

/// A key press, as the command prompt tells keys apart.
pub enum KeyInput {
    Escape,
    Enter,
    Backspace,
    /// A character key; `control_only` when Control was the only modifier held.
    Char { ch: char, control_only: bool },
    /// Any other key.
    Other,
}

/// What the viewer does after a key press.
#[derive(Clone, Copy, Debug, PartialEq, Eq, Structural)]
pub enum KeyResponse {
    /// Nothing beyond what the key did to the prompt.
    Continue,
    /// Carry out the command typed at the prompt.
    RunCommand,
    /// Close the viewer.
    Quit,
}

/// Whether `key` is Control-C.
pub open spec fn is_quit_key(key: KeyInput) -> bool {
    key == (KeyInput::Char { ch: 'c', control_only: true })
}

/// What the viewer does after `key`, with the prompt open or not: Control-C quits; with the
/// prompt open, Enter runs the command; anything else goes on.
pub open spec fn key_response(active: bool, key: KeyInput) -> KeyResponse {
    if is_quit_key(key) {
        KeyResponse::Quit
    } else if active && key is Enter {
        KeyResponse::RunCommand
    } else {
        KeyResponse::Continue
    }
}

/// The character of a character key (a space for any other key).
pub open spec fn key_char(key: KeyInput) -> char {
    match key {
        KeyInput::Char { ch, control_only } => ch,
        _ => ' ',
    }
}

/// Whether the prompt state `b` is `a`, unchanged.
pub open spec fn same_state(a: CommandState, b: CommandState) -> bool {
    &&& b.active == a.active
    &&& b.buffer@ == a.buffer@
    &&& b.error_message == a.error_message
    &&& b.success_message == a.success_message
}

impl CommandState {
    /// Applies a key press to the prompt and says what the viewer does next. Control-C asks to
    /// quit, with the prompt open or not. With the prompt open: Escape clears the messages when
    /// there are any and closes the prompt otherwise, Backspace deletes the last character,
    /// another character key types its character, and Enter asks for the command to be run.
    /// With the prompt closed, `/` opens it. Other keys change nothing.
    pub fn handle_key(&mut self, key: KeyInput) -> (r: KeyResponse)
        ensures
            r == key_response(old(self).active, key),
            old(self).active && key is Escape && old(self).has_message_spec() ==> ({
                &&& final(self).error_message is None
                &&& final(self).success_message is None
                &&& final(self).active
                &&& final(self).buffer@ == old(self).buffer@
            }),
            old(self).active && key is Escape && !old(self).has_message_spec() ==> ({
                &&& !final(self).active
                &&& final(self).buffer@ == Seq::<char>::empty()
                &&& final(self).error_message == old(self).error_message
                &&& final(self).success_message == old(self).success_message
            }),
            old(self).active && key is Backspace ==> ({
                &&& final(self).buffer@ == if old(self).buffer@.len() > 0 {
                    old(self).buffer@.drop_last()
                } else {
                    old(self).buffer@
                }
                &&& final(self).active
                &&& final(self).error_message == old(self).error_message
                &&& final(self).success_message == old(self).success_message
            }),
            is_quit_key(key) ==> same_state(*old(self), *final(self)),
            old(self).active && key is Char && !is_quit_key(key) ==> ({
                &&& final(self).buffer@ == old(self).buffer@.push(key_char(key))
                &&& final(self).active
                &&& final(self).error_message == old(self).error_message
                &&& final(self).success_message == old(self).success_message
            }),
            old(self).active && (key is Enter || key is Other) ==> same_state(*old(self), *final(self)),
            !old(self).active && key is Char && key_char(key) == '/' ==> ({
                &&& final(self).active
                &&& final(self).buffer@ == Seq::<char>::empty()
                &&& final(self).error_message is None
                &&& final(self).success_message is None
            }),
            !old(self).active && !(key is Char && key_char(key) == '/') ==> same_state(*old(self), *final(self)),
    {
        if let KeyInput::Char { ch, control_only } = key {
            if control_only && ch == 'c' {
                return KeyResponse::Quit;
            }
        }
        if self.active {
            match key {
                KeyInput::Escape => {
                    if self.has_message() {
                        self.clear_messages();
                    } else {
                        self.exit_command_mode();
                    }
                    KeyResponse::Continue
                },
                KeyInput::Enter => KeyResponse::RunCommand,
                KeyInput::Backspace => {
                    self.backspace();
                    KeyResponse::Continue
                },
                KeyInput::Char { ch, control_only: _ } => {
                    self.add_char(ch);
                    KeyResponse::Continue
                },
                KeyInput::Other => KeyResponse::Continue,
            }
        } else {
            if let KeyInput::Char { ch, control_only: _ } = key {
                if ch == '/' {
                    self.enter_command_mode();
                }
            }
            KeyResponse::Continue
        }
    }

    /// Whether there is a message to show.
    pub open spec fn has_message_spec(&self) -> bool {
        self.error_message is Some || self.success_message is Some
    }
}

/// Deleting right after typing a character gives back the command as it was before.
pub proof fn lemma_backspace_undoes_typing(buffer: Seq<char>, c: char)
    ensures
        buffer.push(c).len() > 0,
        buffer.push(c).drop_last() == buffer,
{
    assert(buffer.push(c).drop_last() =~= buffer);
}

/// Whether `rest` ends with `flag` preceded by whitespace.
fn ends_with_flag_exec(rest: &Vec<char>, flag: &str) -> (r: bool)
    ensures
        r == ends_with_flag(rest@, flag@),
{
    let f = chars_of(flag);
    let n = rest.len();
    let m = f.len();
    if n <= m {
        return false;
    }
    let tail = chars_from(rest, n - m);
    let mut same = true;
    for i in 0..m
        invariant
            tail@ == rest@.skip(n - m),
            tail@.len() == m,
            f@ == flag@,
            f@.len() == m,
            same == (forall|j: int| 0 <= j < i ==> tail@[j] == f@[j]),
    {
        if tail[i] != f[i] {
            same = false;
        }
    }
    if same {
        assert(tail@ =~= f@);
    }
    same && is_whitespace(rest[n - m - 1])
}

/// The characters of `s` before position `end`.
fn chars_before(s: &Vec<char>, end: usize) -> (r: Vec<char>)
    requires
        end <= s@.len(),
    ensures
        r@ == s@.take(end as int),
{
    let mut out: Vec<char> = Vec::new();
    for i in 0..end
        invariant
            end <= s@.len(),
            out@ == s@.take(i as int),
    {
        out.push(s[i]);
        assert(s@.take(i + 1) =~= s@.take(i as int).push(s@[i as int]));
    }
    out
}

/// The file name and format given to `export` (see [`export_arguments`]).
pub fn parse_export_arguments(rest: &Vec<char>) -> (r: (Option<String>, ExportFormat))
    ensures
        (opt_view(r.0), r.1) == export_arguments(rest@),
{
    if chars_eq(rest, "--color") {
        (None, ExportFormat::Color)
    } else if chars_eq(rest, "--html") {
        (None, ExportFormat::Html)
    } else if ends_with_flag_exec(rest, "--color") {
        proof {
            reveal_strlit("--color");
        }
        let name = trim_chars(&chars_before(rest, rest.len() - 7));
        (Some(string_from_chars(&name)), ExportFormat::Color)
    } else if ends_with_flag_exec(rest, "--html") {
        proof {
            reveal_strlit("--html");
        }
        let name = trim_chars(&chars_before(rest, rest.len() - 6));
        (Some(string_from_chars(&name)), ExportFormat::Html)
    } else {
        (Some(string_from_chars(rest)), ExportFormat::Plain)
    }
}

impl CommandState {
    /// Runs the typed command. The command is the typed text without surrounding whitespace:
    /// `load <path>` asks to load the file at the (trimmed) path; `export <arguments>` asks to
    /// export with the file name and format of [`export_arguments`]; `export` alone asks to
    /// export in plain text to a generated file name; `clear` closes the prompt and asks to
    /// remove all points; any other non-empty command sets the error message
    /// "Unknown command". The prompt's state is otherwise unchanged.
    pub fn execute_command(&mut self) -> (r: CommandAction)
        ensures
            ({
                let cmd = trim(old(self).buffer@);
                if has_prefix(cmd, "load "@) {
                    &&& r matches CommandAction::Load(p) && p@ == trim(cmd.skip(5))
                    &&& *final(self) == *old(self)
                } else if has_prefix(cmd, "export "@) {
                    &&& is_export(r, export_arguments(trim(cmd.skip(7))))
                    &&& *final(self) == *old(self)
                } else if cmd == "export"@ {
                    &&& is_export(r, (None, ExportFormat::Plain))
                    &&& *final(self) == *old(self)
                } else if cmd == "clear"@ {
                    &&& r == CommandAction::Clear
                    &&& !final(self).active
                    &&& final(self).buffer@ == Seq::<char>::empty()
                    &&& final(self).error_message == old(self).error_message
                    &&& final(self).success_message == old(self).success_message
                } else if cmd.len() > 0 {
                    &&& r == CommandAction::Nothing
                    &&& final(self).error_message matches Some(m) && m@ == "Unknown command"@
                    &&& final(self).active == old(self).active
                    &&& final(self).buffer == old(self).buffer
                    &&& final(self).success_message == old(self).success_message
                } else {
                    &&& r == CommandAction::Nothing
                    &&& *final(self) == *old(self)
                }
            }),
    {
        let command = trim_chars(&chars_of(self.buffer.as_str()));
        proof {
            reveal_strlit("load ");
            reveal_strlit("export ");
        }
        if starts_with_str(&command, "load ") {
            let path = trim_chars(&chars_from(&command, 5));
            CommandAction::Load(string_from_chars(&path))
        } else if starts_with_str(&command, "export ") {
            let rest = trim_chars(&chars_from(&command, 7));
            let (path, format) = parse_export_arguments(&rest);
            CommandAction::Export(path, format)
        } else if chars_eq(&command, "export") {
            CommandAction::Export(None, ExportFormat::Plain)
        } else if chars_eq(&command, "clear") {
            self.exit_command_mode();
            CommandAction::Clear
        } else if command.len() > 0 {
            let message = chars_of("Unknown command");
            self.error_message = Some(string_from_chars(&message));
            CommandAction::Nothing
        } else {
            CommandAction::Nothing
        }
    }

    /// Takes the outcome of loading a file: the number of points it held, or the error text.
    /// An empty file sets the error "No points found in file"; a failure sets
    /// "Failed to load: " followed by the error; otherwise the prompt closes. Returns whether
    /// the loaded points are to be added.
    pub fn load_finished(&mut self, outcome: Result<usize, String>) -> (r: bool)
        ensures
            r == (outcome matches Ok(n) && n > 0),
            outcome matches Ok(n) && n > 0 ==> {
                &&& !final(self).active
                &&& final(self).buffer@ == Seq::<char>::empty()
                &&& final(self).error_message == old(self).error_message
                &&& final(self).success_message == old(self).success_message
            },
            outcome matches Ok(n) && n == 0 ==> {
                &&& final(self).error_message matches Some(m) && m@ == "No points found in file"@
                &&& final(self).active == old(self).active
                &&& final(self).buffer == old(self).buffer
                &&& final(self).success_message == old(self).success_message
            },
            outcome matches Err(e) ==> {
                &&& final(self).error_message matches Some(m) && m@ == "Failed to load: "@ + e@
                &&& final(self).active == old(self).active
                &&& final(self).buffer == old(self).buffer
                &&& final(self).success_message == old(self).success_message
            },
    {
        match outcome {
            Ok(n) => {
                if n == 0 {
                    let message = chars_of("No points found in file");
                    self.error_message = Some(string_from_chars(&message));
                    false
                } else {
                    self.exit_command_mode();
                    true
                }
            },
            Err(e) => {
                let message = join3("Failed to load: ", &chars_of(e.as_str()), "");
                proof {
                    reveal_strlit("");
                    assert("Failed to load: "@ + e@ + ""@ =~= "Failed to load: "@ + e@);
                }
                self.error_message = Some(message);
                false
            },
        }
    }

    /// Takes the outcome of exporting to `path`: on success the message
    /// "Exported to: <path>" and the prompt closes; on failure the error
    /// "Export failed: " followed by the error text.
    pub fn export_finished(&mut self, path: &str, outcome: Result<(), String>)
        ensures
            outcome is Ok ==> {
                &&& final(self).success_message matches Some(m) && m@ == "Exported to: "@ + path@
                &&& !final(self).active
                &&& final(self).buffer@ == Seq::<char>::empty()
                &&& final(self).error_message == old(self).error_message
            },
            outcome matches Err(e) ==> {
                &&& final(self).error_message matches Some(m) && m@ == "Export failed: "@ + e@
                &&& final(self).active == old(self).active
                &&& final(self).buffer == old(self).buffer
                &&& final(self).success_message == old(self).success_message
            },
    {
        proof {
            reveal_strlit("");
        }
        match outcome {
            Ok(()) => {
                let message = join3("Exported to: ", &chars_of(path), "");
                assert("Exported to: "@ + path@ + ""@ =~= "Exported to: "@ + path@);
                self.success_message = Some(message);
                self.exit_command_mode();
            },
            Err(e) => {
                let message = join3("Export failed: ", &chars_of(e.as_str()), "");
                assert("Export failed: "@ + e@ + ""@ =~= "Export failed: "@ + e@);
                self.error_message = Some(message);
            },
        }
    }

    /// The status line text: the error message, else the success message, each with
    /// " (press ESC to continue)", else the typed command after "Command: " and before a `_`
    /// cursor.
    pub fn get_display_text(&self) -> (r: String)
        ensures
            self.error_message matches Some(e) ==> r@ == "ERROR: "@ + e@ + " (press ESC to continue)"@,
            self.error_message is None ==> (self.success_message matches Some(m) ==> r@ == "SUCCESS: "@ + m@
                + " (press ESC to continue)"@),
            self.error_message is None && self.success_message is None ==> r@ == "Command: "@ + self.buffer@
                + "_"@,
    {
        match &self.error_message {
            Some(error) => join3("ERROR: ", &chars_of(error.as_str()), " (press ESC to continue)"),
            None => match &self.success_message {
                Some(success) => join3("SUCCESS: ", &chars_of(success.as_str()), " (press ESC to continue)"),
                None => join3("Command: ", &chars_of(self.buffer.as_str()), "_"),
            },
        }
    }
}

/// The string `prefix` + `middle` + `suffix`.
fn join3(prefix: &str, middle: &Vec<char>, suffix: &str) -> (r: String)
    ensures
        r@ == prefix@ + middle@ + suffix@,
{
    let mut out: Vec<char> = Vec::new();
    push_str_chars(&mut out, prefix);
    push_chars(&mut out, middle);
    push_str_chars(&mut out, suffix);
    string_from_chars(&out)
}

/// Whether `s` ends with `suffix`.
pub open spec fn has_suffix(s: Seq<char>, suffix: Seq<char>) -> bool {
    suffix.len() <= s.len() && s.skip(s.len() - suffix.len()) == suffix
}

/// The export arguments choose the format by their flag: `--html` alone exports HTML and
/// `--color` alone exports with colors, both to a generated file name; a file name, then
/// whitespace, then one of the flags exports in that format to the trimmed file name; and
/// arguments that end with neither flag export plain text to the file they name.
pub proof fn lemma_export_flag_chooses_format(name: Seq<char>, w: char, rest: Seq<char>)
    requires
        spec_is_whitespace(w),
    ensures
        export_arguments("--html"@) == (None::<Seq<char>>, ExportFormat::Html),
        export_arguments("--color"@) == (None::<Seq<char>>, ExportFormat::Color),
        export_arguments(name + seq![w] + "--html"@) == (Some(trim(name)), ExportFormat::Html),
        export_arguments(name + seq![w] + "--color"@) == (Some(trim(name)), ExportFormat::Color),
        !has_suffix(rest, "--html"@) && !has_suffix(rest, "--color"@) ==> export_arguments(rest) == (
            Some(rest),
            ExportFormat::Plain,
        ),
{
    reveal_strlit("--html");
    reveal_strlit("--color");
    assert("--html"@ != "--color"@) by { assert("--html"@.len() != "--color"@.len()); }
    let nw = name + seq![w];
    assert(nw.drop_last() =~= name);
    assert(nw.last() == w);
    lemma_trim_drop_last_space(nw);
    let h = nw + "--html"@;
    assert(h.skip(h.len() - 6) =~= "--html"@);
    assert(h.take(h.len() - 6) =~= nw);
    assert(h[h.len() - 7] == w);
    assert(h != "--color"@) by {
        if h.len() == 7 {
            assert(h[0] == w);
        }
    }
    assert(h != "--html"@) by { assert(h.len() != "--html"@.len()); }
    assert(!ends_with_flag(h, "--color"@)) by {
        assert(h.skip(h.len() - 7)[0] == w);
    }
    let c = nw + "--color"@;
    assert(c.skip(c.len() - 7) =~= "--color"@);
    assert(c.take(c.len() - 7) =~= nw);
    assert(c[c.len() - 8] == w);
    assert(c != "--color"@) by { assert(c.len() != "--color"@.len()); }
    assert(c != "--html"@) by { assert(c.len() != "--html"@.len()); }
    if !has_suffix(rest, "--html"@) && !has_suffix(rest, "--color"@) {
        assert(rest != "--color"@) by {
            if rest == "--color"@ {
                assert(rest.skip(0) =~= rest);
            }
        }
        assert(rest != "--html"@) by {
            if rest == "--html"@ {
                assert(rest.skip(0) =~= rest);
            }
        }
    }
}

} // verus!

//! The decisions of the interactive chat: what a line typed by the operator
//! asks for, which built-in command it names, how an approval prompt was
//! answered, and what the chat prints for each session event it replays.
use vstd::prelude::*;

use crate::text::{
    chars_eq_str, lower, nonempty, nonempty_pieces, sep_pred, split_chars, split_chars_exec, starts_with, starts_with_str,
    string_of, to_lower, trim, trimmed, views, Separator,
};

verus! {

/// A built-in command of the chat, or the answer to a malformed one.
#[derive(Debug, Clone, Copy, PartialEq, Eq, Structural)]
pub enum ChatCommand {
    /// `/command` with nothing after it.
    Usage,
    Status,
    Health,
    Bridge,
    TriggerList,
    /// `/trigger` with a sub-command other than `list`.
    UnsupportedTrigger,
    SessionStatus,
    /// `/session` with a sub-command other than `status`.
    UnsupportedSession,
    /// Any other command word.
    Unsupported,
}

/// What one line read from the operator asks for.
#[derive(Debug)]
pub enum ChatLine {
    /// The input ended.
    Eof,
    /// Nothing but white space: read the next line.
    Blank,
    /// `/exit`, `/quit`, `exit` or `quit`.
    Exit,
    /// `/help`.
    Help,
    /// A built-in command.
    Command(ChatCommand),
    /// A prompt for the assistant: the trimmed line.
    Prompt(String),
}

/// The line without its leading slashes, as `str::trim_start_matches('/')`.
pub open spec fn strip_slashes(s: Seq<char>) -> Seq<char>
    decreases s.len(),
{
    if s.len() > 0 && s[0] == '/' {
        strip_slashes(s.drop_first())
    } else {
        s
    }
}

/// The words of `s`, as `str::split_whitespace`.
pub open spec fn words(s: Seq<char>) -> Seq<Seq<char>> {
    nonempty(split_chars(s, sep_pred(Separator::Whitespace)))
}

/// The command line a chat line carries: what follows `/command`, trimmed,
/// or the line without its leading slashes; none for a line without a slash.
pub open spec fn command_line(raw: Seq<char>) -> Option<Seq<char>> {
    if starts_with(raw, "/command"@) {
        Some(trim(raw.subrange(8, raw.len() as int)))
    } else if raw.len() > 0 && raw[0] == '/' {
        Some(strip_slashes(raw))
    } else {
        None
    }
}

/// The lower-cased word `i` of `ws`, or `default` when there is none.
pub open spec fn word_or(ws: Seq<Seq<char>>, i: int, default: Seq<char>) -> Seq<char> {
    if i < ws.len() {
        lower(ws[i])
    } else {
        default
    }
}

/// The built-in command a command line names (its first word, in any case).
pub open spec fn command_of(line: Seq<char>) -> ChatCommand {
    let ws = words(line);
    if line.len() == 0 {
        ChatCommand::Usage
    } else if ws.len() == 0 {
        ChatCommand::Unsupported
    } else {
        let head = lower(ws[0]);
        if head == "status"@ {
            ChatCommand::Status
        } else if head == "health"@ {
            ChatCommand::Health
        } else if head == "bridge"@ {
            ChatCommand::Bridge
        } else if head == "trigger"@ {
            if word_or(ws, 1, "list"@) == "list"@ {
                ChatCommand::TriggerList
            } else {
                ChatCommand::UnsupportedTrigger
            }
        } else if head == "session"@ {
            if word_or(ws, 1, "status"@) == "status"@ {
                ChatCommand::SessionStatus
            } else {
                ChatCommand::UnsupportedSession
            }
        } else {
            ChatCommand::Unsupported
        }
    }
}

pub open spec fn is_exit_word(t: Seq<char>) -> bool {
    t == "/exit"@ || t == "/quit"@ || t == "exit"@ || t == "quit"@
}

/// The meaning of a line read from the operator (`bytes_read` is what the
/// read returned; 0 is the end of the input).
pub open spec fn chat_line_spec(bytes_read: usize, line: Seq<char>) -> ChatLineView {
    let t = trim(line);
    if bytes_read == 0 {
        ChatLineView::Eof
    } else if t.len() == 0 {
        ChatLineView::Blank
    } else if is_exit_word(t) {
        ChatLineView::Exit
    } else if t == "/help"@ {
        ChatLineView::Help
    } else {
        match command_line(t) {
            Some(c) => ChatLineView::Command(command_of(c)),
            None => ChatLineView::Prompt(t),
        }
    }
}

/// `ChatLine` with its text as a character sequence.
pub enum ChatLineView {
    Eof,
    Blank,
    Exit,
    Help,
    Command(ChatCommand),
    Prompt(Seq<char>),
}

pub open spec fn chat_line_view(l: ChatLine) -> ChatLineView {
    match l {
        ChatLine::Eof => ChatLineView::Eof,
        ChatLine::Blank => ChatLineView::Blank,
        ChatLine::Exit => ChatLineView::Exit,
        ChatLine::Help => ChatLineView::Help,
        ChatLine::Command(c) => ChatLineView::Command(c),
        ChatLine::Prompt(p) => ChatLineView::Prompt(p@),
    }
}

fn strip_slashes_exec(s: &Vec<char>) -> (r: Vec<char>)
    ensures
        r@ == strip_slashes(s@),
{
    let mut i: usize = 0;
    assert(s@.subrange(0, s@.len() as int) =~= s@);
    while i < s.len() && s[i] == '/'
        invariant
            i <= s@.len(),
            strip_slashes(s@) == strip_slashes(s@.subrange(i as int, s@.len() as int)),
        decreases s.len() - i,
    {
        let ghost rest = s@.subrange(i as int, s@.len() as int);
        assert(rest.drop_first() =~= s@.subrange(i + 1, s@.len() as int));
        i = i + 1;
    }
    let mut out: Vec<char> = Vec::new();
    let mut j = i;
    while j < s.len()
        invariant
            i <= j <= s@.len(),
            out@ =~= s@.subrange(i as int, j as int),
        decreases s.len() - j,
    {
        out.push(s[j]);
        j = j + 1;
    }
    out
}

fn words_exec(s: &Vec<char>) -> (r: Vec<Vec<char>>)
    ensures
        views(r@) == words(s@),
{
    let pieces = split_chars_exec(s, Separator::Whitespace);
    nonempty_pieces(&pieces)
}

/// The built-in command a command line names (see `command_of`).
pub fn chat_command(line: &Vec<char>) -> (r: ChatCommand)
    ensures
        r == command_of(line@),
{
    if line.len() == 0 {
        return ChatCommand::Usage;
    }
    let ws = words_exec(line);
    if ws.len() == 0 {
        return ChatCommand::Unsupported;
    }
    let head = to_lower(&ws[0]);
    assert(views(ws@)[0] == ws@[0]@);
    if chars_eq_str(&head, "status") {
        ChatCommand::Status
    } else if chars_eq_str(&head, "health") {
        ChatCommand::Health
    } else if chars_eq_str(&head, "bridge") {
        ChatCommand::Bridge
    } else if chars_eq_str(&head, "trigger") {
        let is_list = if ws.len() > 1 {
            assert(views(ws@)[1] == ws@[1]@);
            chars_eq_str(&to_lower(&ws[1]), "list")
        } else {
            true
        };
        if is_list {
            ChatCommand::TriggerList
        } else {
            ChatCommand::UnsupportedTrigger
        }
    } else if chars_eq_str(&head, "session") {
        let is_status = if ws.len() > 1 {
            assert(views(ws@)[1] == ws@[1]@);
            chars_eq_str(&to_lower(&ws[1]), "status")
        } else {
            true
        };
        if is_status {
            ChatCommand::SessionStatus
        } else {
            ChatCommand::UnsupportedSession
        }
    } else {
        ChatCommand::Unsupported
    }
}

/// What a line read from the operator asks for (see `chat_line_spec`).
pub fn classify_chat_line(bytes_read: usize, line: &str) -> (r: ChatLine)
    ensures
        chat_line_view(r) == chat_line_spec(bytes_read, line@),
{
    if bytes_read == 0 {
        return ChatLine::Eof;
    }
    let t = trimmed(&crate::text::chars_of(line));
    if t.len() == 0 {
        return ChatLine::Blank;
    }
    if chars_eq_str(&t, "/exit") || chars_eq_str(&t, "/quit") || chars_eq_str(&t, "exit") || chars_eq_str(&t, "quit") {
        return ChatLine::Exit;
    }
    if chars_eq_str(&t, "/help") {
        return ChatLine::Help;
    }
    if starts_with_str(&t, "/command") {
        proof {
            reveal_strlit("/command");
        }
        let mut rest: Vec<char> = Vec::new();
        let mut k: usize = 8;
        while k < t.len()
            invariant
                8 <= k <= t@.len(),
                rest@ =~= t@.subrange(8, k as int),
            decreases t.len() - k,
        {
            rest.push(t[k]);
            k = k + 1;
        }
        let cl = trimmed(&rest);
        return ChatLine::Command(chat_command(&cl));
    }
    if t[0] == '/' {
        let cl = strip_slashes_exec(&t);
        return ChatLine::Command(chat_command(&cl));
    }
    ChatLine::Prompt(string_of(&t))
}

/// An answer to an approval prompt approves when, trimmed and lower-cased,
/// it is `y`, `yes`, `approve` or `a`.
pub open spec fn approves_spec(answer: Seq<char>) -> bool {
    let a = lower(trim(answer));
    a == "y"@ || a == "yes"@ || a == "approve"@ || a == "a"@
}

/// Whether the operator's answer to an approval prompt approves.
pub fn approves(answer: &str) -> (r: bool)
    ensures
        r == approves_spec(answer@),
{
    let a = to_lower(&trimmed(&crate::text::chars_of(answer)));
    chars_eq_str(&a, "y") || chars_eq_str(&a, "yes") || chars_eq_str(&a, "approve") || chars_eq_str(&a, "a")
}

/// A session event the chat replays while a prompt runs.
#[derive(Debug)]
pub enum ChatEvent {
    AssistantDelta { delta: Option<String> },
    StateSnapshot { idle: bool },
    ToolStarted { tool_name: Option<String>, call_id: Option<String> },
    ToolCompleted { tool_name: Option<String>, call_id: Option<String>, is_error: bool },
    Other,
}

/// What the chat has printed of the current answer, and the last event seen.
#[derive(Debug, Clone, Copy, PartialEq, Eq, Structural)]
pub struct ChatRender {
    pub printed_prefix: bool,
    pub printed_delta: bool,
    pub last_sequence: u64,
}

pub open spec fn text_or(o: Option<String>, default: Seq<char>) -> Seq<char> {
    match o {
        Some(t) => t@,
        None => default,
    }
}

/// The line printed for a tool event (after closing an open answer line).
pub open spec fn tool_line(label: Seq<char>, tool_name: Option<String>, call_id: Option<String>) -> Seq<char> {
    "tool("@ + label + ")> tool="@ + text_or(tool_name, "unknown_tool"@) + " call_id="@ + text_or(
        call_id,
        "unknown_call"@,
    ) + "\n"@
}

/// What replaying event number `sequence` prints and leaves: an event seen
/// before prints nothing; a delta opens the answer line once and prints its
/// text; an idle snapshot closes an open answer line; a tool event closes it
/// and prints a line of its own.
pub open spec fn render_spec(st: ChatRender, sequence: u64, event: ChatEvent) -> (ChatRender, Seq<char>) {
    if sequence <= st.last_sequence {
        (st, Seq::empty())
    } else {
        let seen = ChatRender { last_sequence: sequence, ..st };
        let close: Seq<char> = if st.printed_prefix { "\n"@ } else { Seq::empty() };
        match event {
            ChatEvent::AssistantDelta { delta } => {
                let open: Seq<char> = if st.printed_prefix { Seq::empty() } else { "assistant> "@ };
                (
                    ChatRender { printed_prefix: true, printed_delta: st.printed_delta || delta is Some, ..seen },
                    open + text_or(delta, Seq::empty()),
                )
            },
            ChatEvent::StateSnapshot { idle } => {
                if idle && st.printed_prefix {
                    (ChatRender { printed_prefix: false, ..seen }, "\n"@)
                } else {
                    (seen, Seq::empty())
                }
            },
            ChatEvent::ToolStarted { tool_name, call_id } => (
                ChatRender { printed_prefix: false, ..seen },
                close + tool_line("started"@, tool_name, call_id),
            ),
            ChatEvent::ToolCompleted { tool_name, call_id, is_error } => (
                ChatRender { printed_prefix: false, ..seen },
                close + tool_line(if is_error { "error"@ } else { "completed"@ }, tool_name, call_id),
            ),
            ChatEvent::Other => (seen, Seq::empty()),
        }
    }
}

fn push_text_or(out: &mut Vec<char>, o: &Option<String>, default: &str)
    ensures
        final(out)@ == old(out)@ + text_or(*o, default@),
{
    match o {
        Some(t) => crate::text::push_str(out, t.as_str()),
        None => crate::text::push_str(out, default),
    }
}

fn tool_line_exec(label: &str, tool_name: &Option<String>, call_id: &Option<String>, out: &mut Vec<char>)
    ensures
        final(out)@ == old(out)@ + tool_line(label@, *tool_name, *call_id),
{
    let ghost o0 = out@;
    crate::text::push_str(out, "tool(");
    crate::text::push_str(out, label);
    crate::text::push_str(out, ")> tool=");
    push_text_or(out, tool_name, "unknown_tool");
    crate::text::push_str(out, " call_id=");
    push_text_or(out, call_id, "unknown_call");
    crate::text::push_str(out, "\n");
    assert(out@ =~= o0 + tool_line(label@, *tool_name, *call_id));
}

/// Replays event number `sequence` (see `render_spec`): returns the new state
/// and the text to print.
pub fn render_chat_event(st: ChatRender, sequence: u64, event: &ChatEvent) -> (r: (ChatRender, String))
    ensures
        (r.0, r.1@) == render_spec(st, sequence, *event),
{
    if sequence <= st.last_sequence {
        return (st, string_of(&Vec::new()));
    }
    let seen = ChatRender { last_sequence: sequence, ..st };
    let mut out: Vec<char> = Vec::new();
    match event {
        ChatEvent::AssistantDelta { delta } => {
            if !st.printed_prefix {
                crate::text::push_str(&mut out, "assistant> ");
            }
            push_text_or(&mut out, delta, "");
            proof {
                reveal_strlit("");
            }
            assert(out@ =~= (if st.printed_prefix { Seq::<char>::empty() } else { "assistant> "@ }) + text_or(*delta, Seq::empty()));
            (ChatRender { printed_prefix: true, printed_delta: st.printed_delta || delta.is_some(), ..seen }, string_of(&out))
        },
        ChatEvent::StateSnapshot { idle } => {
            if *idle && st.printed_prefix {
                crate::text::push_str(&mut out, "\n");
                (ChatRender { printed_prefix: false, ..seen }, string_of(&out))
            } else {
                (seen, string_of(&out))
            }
        },
        ChatEvent::ToolStarted { tool_name, call_id } => {
            if st.printed_prefix {
                crate::text::push_str(&mut out, "\n");
            }
            tool_line_exec("started", tool_name, call_id, &mut out);
            (ChatRender { printed_prefix: false, ..seen }, string_of(&out))
        },
        ChatEvent::ToolCompleted { tool_name, call_id, is_error } => {
            if st.printed_prefix {
                crate::text::push_str(&mut out, "\n");
            }
            if *is_error {
                tool_line_exec("error", tool_name, call_id, &mut out);
            } else {
                tool_line_exec("completed", tool_name, call_id, &mut out);
            }
            (ChatRender { printed_prefix: false, ..seen }, string_of(&out))
        },
        ChatEvent::Other => (seen, string_of(&out)),
    }
}

} // verus!

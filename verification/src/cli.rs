//! The command line's own rules: where a prompt comes from, which parent a
//! subagent listing is for, what git's answers mean, and the text lines that
//! the commands print.
use crate::ids::{hyphenated_hex, id_text};
use crate::bridge::BridgeEvent;
use crate::registry::{Message, Session};
use crate::subagent::SpawnRecord;
use crate::text::{concat, first_line, first_line_spec, trim, trim_spec};
use vstd::prelude::*;
use vstd::string::*;

verus! {

/// Where the text of a bridge prompt comes from.
#[derive(Debug, Clone, PartialEq, Eq)]
pub enum PromptSource {
    Text(String),
    File(String),
    Stdin,
}

/// Why a command cannot go on.
#[derive(Debug, Clone, PartialEq, Eq)]
pub enum CliError {
    MissingPrompt,
    MissingParent,
}

/// The decimal digits of `n`.
pub open spec fn decimal_spec(n: nat) -> Seq<char>
    decreases n,
{
    if n < 10 {
        seq![(('0' as int) + n) as char]
    } else {
        decimal_spec(n / 10) + seq![(('0' as int) + n % 10) as char]
    }
}

/// `text` if present, else `-`.
pub open spec fn or_dash(text: Option<String>) -> Seq<char> {
    match text {
        Some(t) => t@,
        None => "-"@,
    }
}

/// The line that lists a session.
pub open spec fn session_row_spec(s: Session) -> Seq<char> {
    hyphenated_hex(s.id) + "\t"@ + s.name@ + "\t"@ + s.role@ + "\t"@ + s.status@ + "\t"@ + or_dash(
        s.parent_pi_session_id,
    ) + "\t"@ + or_dash(s.branch) + "\t"@ + s.project_root@
}

/// The line that lists a spawn record, with the command that attaches to it.
pub open spec fn spawn_row_spec(r: SpawnRecord) -> Seq<char> {
    hyphenated_hex(r.spawn_id) + "\t"@ + r.name@ + "\t"@ + r.project_root@ + "\t"@
        + first_line_spec(r.task@) + "\ttmux -L paj attach-session -t ="@ + r.tmux_name@
}

/// The line that lists a message.
pub open spec fn message_row_spec(m: Message) -> Seq<char> {
    hyphenated_hex(m.id) + "\t"@ + m.from.name@ + "\t"@ + m.text@
}

/// The source of a bridge prompt: the text given, a file, or standard input;
/// an error when none is given. Giving more than one is refused earlier by
/// the argument parser.
pub fn select_prompt(prompt: Option<String>, prompt_file: Option<String>, prompt_stdin: bool) -> (r:
    Result<PromptSource, CliError>)
    requires
        (prompt is Some) as int + (prompt_file is Some) as int + prompt_stdin as int <= 1,
    ensures
        prompt matches Some(p) ==> r == Ok::<PromptSource, CliError>(PromptSource::Text(p)),
        prompt_file matches Some(f) ==> r == Ok::<PromptSource, CliError>(PromptSource::File(f)),
        prompt_stdin ==> r == Ok::<PromptSource, CliError>(PromptSource::Stdin),
        prompt is None && prompt_file is None && !prompt_stdin ==> r == Err::<
            PromptSource,
            CliError,
        >(CliError::MissingPrompt),
{
    match (prompt, prompt_file) {
        (Some(p), _) => Ok(PromptSource::Text(p)),
        (None, Some(f)) => Ok(PromptSource::File(f)),
        (None, None) => {
            if prompt_stdin {
                Ok(PromptSource::Stdin)
            } else {
                Err(CliError::MissingPrompt)
            }
        },
    }
}

/// The parent whose subagents a listing shows: none with `all`, else the one
/// given, else the one from the environment; an error when there is none.
pub fn list_parent(all: bool, given: Option<String>, from_env: Option<String>) -> (r: Result<
    Option<String>,
    CliError,
>)
    ensures
        all ==> r == Ok::<Option<String>, CliError>(None),
        !all && given is Some ==> r == Ok::<Option<String>, CliError>(given),
        !all && given is None && from_env is Some ==> r == Ok::<Option<String>, CliError>(
            from_env,
        ),
        !all && given is None && from_env is None ==> r == Err::<Option<String>, CliError>(
            CliError::MissingParent,
        ),
{
    if all {
        return Ok(None);
    }
    match given {
        Some(g) => Ok(Some(g)),
        None => match from_env {
            Some(e) => Ok(Some(e)),
            None => Err(CliError::MissingParent),
        },
    }
}

/// The current branch from `git branch --show-current` output: the trimmed
/// output, or none when it is empty (a detached head).
pub fn branch_from_output(output: &str) -> (b: Option<String>)
    ensures
        trim_spec(output@).len() == 0 ==> b is None,
        trim_spec(output@).len() > 0 ==> (b matches Some(x) && x@ == trim_spec(output@)),
{
    let t = trim(output);
    if t.as_str().unicode_len() == 0 {
        None
    } else {
        Some(t)
    }
}

/// The decimal text of `n`.
pub fn decimal(n: u64) -> (s: String)
    ensures
        s@ == decimal_spec(n as nat),
    decreases n,
{
    let digits = "0123456789";
    proof {
        reveal_strlit("0123456789");
    }
    let d = (n % 10) as usize;
    let one = String::from_str(digits.substring_char(d, d + 1));
    proof {
        assert(one@ =~= seq![(('0' as int) + n % 10) as char]);
    }
    if n < 10 {
        one
    } else {
        let head = decimal(n / 10);
        concat(head.as_str(), one.as_str())
    }
}

fn text_or_dash(text: &Option<String>) -> (s: String)
    ensures
        s@ == or_dash(*text),
{
    match text {
        Some(t) => t.clone(),
        None => String::from_str("-"),
    }
}

/// The line that lists a session (see `session_row_spec`).
pub fn session_row(s: &Session) -> (line: String)
    ensures
        line@ == session_row_spec(*s),
{
    let id = id_text(s.id);
    let parent = text_or_dash(&s.parent_pi_session_id);
    let branch = text_or_dash(&s.branch);
    let mut line = concat(id.as_str(), "\t");
    line.append(s.name.as_str());
    line.append("\t");
    line.append(s.role.as_str());
    line.append("\t");
    line.append(s.status.as_str());
    line.append("\t");
    line.append(parent.as_str());
    line.append("\t");
    line.append(branch.as_str());
    line.append("\t");
    line.append(s.project_root.as_str());
    line
}

/// The line that lists a spawn record (see `spawn_row_spec`).
pub fn spawn_row(r: &SpawnRecord) -> (line: String)
    ensures
        line@ == spawn_row_spec(*r),
{
    let id = id_text(r.spawn_id);
    let task = first_line(r.task.as_str());
    let mut line = concat(id.as_str(), "\t");
    line.append(r.name.as_str());
    line.append("\t");
    line.append(r.project_root.as_str());
    line.append("\t");
    line.append(task.as_str());
    line.append("\ttmux -L paj attach-session -t =");
    line.append(r.tmux_name.as_str());
    line
}

/// The line that lists a message (see `message_row_spec`).
pub fn message_row(m: &Message) -> (line: String)
    ensures
        line@ == message_row_spec(*m),
{
    let id = id_text(m.id);
    let mut line = concat(id.as_str(), "\t");
    line.append(m.from.name.as_str());
    line.append("\t");
    line.append(m.text.as_str());
    line
}

/// The lines that show one session in full.
pub fn session_details(s: &Session) -> (lines: Vec<String>)
    ensures
        lines@.len() == 11,
        lines@[0]@ == "id: "@ + hyphenated_hex(s.id),
        lines@[1]@ == "name: "@ + s.name@,
        lines@[2]@ == "pid: "@ + decimal_spec(s.pid as nat),
        lines@[3]@ == "pi session: "@ + or_dash(s.pi_session_id),
        lines@[4]@ == "project: "@ + s.project_root@,
        lines@[5]@ == "cwd: "@ + s.cwd@,
        lines@[6]@ == "branch: "@ + or_dash(s.branch),
        lines@[7]@ == "role: "@ + s.role@,
        lines@[8]@ == "parent Pi session: "@ + or_dash(s.parent_pi_session_id),
        lines@[9]@ == "status: "@ + s.status@,
        lines@[10]@ == "task: "@ + or_dash(s.task),
{
    let mut lines: Vec<String> = Vec::new();
    let id = id_text(s.id);
    lines.push(concat("id: ", id.as_str()));
    lines.push(concat("name: ", s.name.as_str()));
    let pid = decimal(s.pid as u64);
    lines.push(concat("pid: ", pid.as_str()));
    let pi = text_or_dash(&s.pi_session_id);
    lines.push(concat("pi session: ", pi.as_str()));
    lines.push(concat("project: ", s.project_root.as_str()));
    lines.push(concat("cwd: ", s.cwd.as_str()));
    let branch = text_or_dash(&s.branch);
    lines.push(concat("branch: ", branch.as_str()));
    lines.push(concat("role: ", s.role.as_str()));
    let parent = text_or_dash(&s.parent_pi_session_id);
    lines.push(concat("parent Pi session: ", parent.as_str()));
    lines.push(concat("status: ", s.status.as_str()));
    let task = text_or_dash(&s.task);
    lines.push(concat("task: ", task.as_str()));
    lines
}

/// What a streamed prompt prints for an event, and whether a delta has been
/// printed since: a delta prints its text as it comes; the completion prints
/// only a newline after deltas, else its whole text and a newline; other
/// events print nothing.
pub open spec fn rendered(received_delta: bool, event: BridgeEvent) -> (bool, Option<Seq<char>>) {
    match event {
        BridgeEvent::Delta { text, .. } => (true, Some(text@)),
        BridgeEvent::Complete { text, .. } => (received_delta, Some(
            if received_delta {
                seq!['\n']
            } else {
                text@ + seq!['\n']
            },
        )),
        _ => (received_delta, None),
    }
}

/// What a streamed prompt prints for an event (see `rendered`).
pub fn render_event(received_delta: bool, event: &BridgeEvent) -> (r: (bool, Option<String>))
    ensures
        r.0 == rendered(received_delta, *event).0,
        (match r.1 {
            Some(t) => rendered(received_delta, *event).1 == Some(t@),
            None => rendered(received_delta, *event).1 is None,
        }),
{
    match event {
        BridgeEvent::Delta { text, .. } => (true, Some(text.clone())),
        BridgeEvent::Complete { text, .. } => {
            if received_delta {
                let line = String::from_str("\n");
                proof {
                    reveal_strlit("\n");
                    assert(line@ =~= seq!['\n']);
                }
                (true, Some(line))
            } else {
                let line = concat(text.as_str(), "\n");
                proof {
                    reveal_strlit("\n");
                    assert(line@ =~= text@ + seq!['\n']);
                }
                (false, Some(line))
            }
        },
        BridgeEvent::Accepted { .. } => (received_delta, None),
        BridgeEvent::Error { .. } => (received_delta, None),
    }
}

/// The summary that garbage collection prints.
pub fn gc_summary(sessions: u64, subagents: u64) -> (line: String)
    ensures
        line@ == "Removed "@ + decimal_spec(sessions as nat) + " stale session(s) and "@
            + decimal_spec(subagents as nat) + " orphaned subagent(s)"@,
{
    let a = decimal(sessions);
    let b = decimal(subagents);
    let mut line = concat("Removed ", a.as_str());
    line.append(" stale session(s) and ");
    line.append(b.as_str());
    line.append(" orphaned subagent(s)");
    line
}

/// The line that reports a session's bridge.
pub fn bridge_status_row(name: &str, available: bool, socket: &Option<String>) -> (line: String)
    ensures
        line@ == name@ + "\t"@ + (if available {
            "available"@
        } else {
            "unavailable"@
        }) + "\t"@ + or_dash(*socket),
{
    let mut line = concat(name, "\t");
    if available {
        line.append("available");
    } else {
        line.append("unavailable");
    }
    line.append("\t");
    let s = text_or_dash(socket);
    line.append(s.as_str());
    line
}

} // verus!

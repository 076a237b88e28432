//! Foreground agent runs: the request rules, the prompt the agent gets, the
//! command line and environment it runs with, and the run's record.
use crate::ids::{fresh_id, is_v7, hyphenated_hex, id_suffix, id_suffix_spec, id_text};
use crate::paths::{join, join_spec};
use crate::project::Project;
use crate::text::{blank, concat, first_line, first_line_spec, is_blank, string_views};
use vstd::prelude::*;
use vstd::string::*;

verus! {

/// Where a run stands.
#[derive(Debug, Clone, Copy, PartialEq, Eq, Structural)]
pub enum AgentRunState {
    Running,
    Completed,
    Failed,
}

/// The record of a foreground agent run.
#[derive(Debug, Clone, PartialEq, Eq)]
pub struct AgentRun {
    pub id: u128,
    pub role: String,
    pub project_id: String,
    pub project_root: String,
    pub cwd: String,
    pub prompt_path: String,
    pub output_path: String,
    pub stderr_path: String,
    pub artifact_path: Option<String>,
    pub provider: Option<String>,
    pub model: Option<String>,
    pub thinking: Option<String>,
    pub state: AgentRunState,
    pub exit_code: Option<i32>,
    pub started_at_ms: u64,
    pub finished_at_ms: Option<u64>,
}

/// What a caller asks a foreground agent to do.
#[derive(Debug, Clone, PartialEq, Eq)]
pub struct AgentRunRequest {
    pub role: String,
    pub prompt: String,
    pub cwd: String,
    pub artifact_path: Option<String>,
    pub provider: Option<String>,
    pub model: Option<String>,
    pub thinking: Option<String>,
    pub allow_write: bool,
}

/// Runs foreground agents under a runtime directory with a Pi command.
#[derive(Debug, Clone, PartialEq, Eq)]
pub struct AgentRunner {
    pub root: String,
    pub pi_command: String,
}

/// Everything a run needs before the agent starts: its record, the prompt
/// text, the arguments of the Pi command and its environment.
#[derive(Debug, Clone, PartialEq, Eq)]
pub struct AgentRunPlan {
    pub run: AgentRun,
    pub prompt: String,
    pub args: Vec<String>,
    pub env: Vec<(String, String)>,
}

/// Why a run failed.
#[derive(Debug, Clone, PartialEq, Eq)]
pub enum AgentError {
    MissingRuntimeDirectory,
    EmptyRole,
    EmptyPrompt,
    InvalidSystemTime(String),
    TimestampOutOfRange,
    Io(String),
    Json(String),
}

/// The line that tells the agent what it may change.
pub open spec fn access_line(allow_write: bool) -> Seq<char> {
    if allow_write {
        "You may modify files when required by the task."@
    } else {
        "Work read-only. Do not modify files, create commits, or change repository state."@
    }
}

/// The prompt a foreground agent gets.
pub open spec fn effective_prompt_spec(role: Seq<char>, prompt: Seq<char>, allow_write: bool) -> Seq<
    char,
> {
    "You are a foreground "@ + role + " subagent.\n"@ + access_line(allow_write)
        + "\nReturn self-contained findings with concrete file paths and line references.\n\nTask:\n"@
        + prompt
}

/// The name an agent runs under: its role and the last 8 digits of the run id.
pub open spec fn agent_name_spec(role: Seq<char>, id: u128) -> Seq<char> {
    role + "-"@ + id_suffix_spec(id, 8)
}

/// `cwd.join(path)` unless `path` is absolute.
pub open spec fn absolute_path_spec(cwd: Seq<char>, path: Seq<char>) -> Seq<char> {
    if path.len() > 0 && path[0] == '/' {
        path
    } else {
        join_spec(cwd, path)
    }
}

/// Two optional arguments: the flag and the value, or nothing.
pub open spec fn flag_args(flag: Seq<char>, value: Option<String>) -> Seq<Seq<char>> {
    match value {
        Some(v) => seq![flag, v@],
        None => Seq::empty(),
    }
}

/// The arguments of the Pi command for a request.
pub open spec fn pi_args_spec(request: AgentRunRequest, prompt: Seq<char>) -> Seq<Seq<char>> {
    seq!["--print"@, "--no-session"@] + (if request.allow_write {
        Seq::empty()
    } else {
        seq!["--tools"@, "read,bash"@]
    }) + flag_args("--provider"@, request.provider) + flag_args("--model"@, request.model)
        + flag_args("--thinking"@, request.thinking) + seq![prompt]
}

/// The directory of a run.
pub open spec fn run_dir_spec(root: Seq<char>, project_id: Seq<char>, id: u128) -> Seq<char> {
    join_spec(
        join_spec(join_spec(join_spec(root, "projects"@), project_id), "agents"@),
        hyphenated_hex(id),
    )
}

/// The plan of a run with identifier `id` started at `now`.
pub open spec fn planned_run(
    root: Seq<char>,
    project: Project,
    request: AgentRunRequest,
    id: u128,
    now: u64,
    p: AgentRunPlan,
) -> bool {
    let dir = run_dir_spec(root, project.id@, id);
    let prompt = effective_prompt_spec(request.role@, request.prompt@, request.allow_write);
    &&& p.run.id == id
    &&& p.run.role == request.role
    &&& p.run.project_id == project.id
    &&& p.run.project_root == project.root
    &&& p.run.cwd == request.cwd
    &&& p.run.prompt_path@ == join_spec(dir, "prompt.md"@)
    &&& p.run.output_path@ == join_spec(dir, "output.md"@)
    &&& p.run.stderr_path@ == join_spec(dir, "stderr.log"@)
    &&& (match request.artifact_path {
        Some(a) => p.run.artifact_path matches Some(b) && b@ == absolute_path_spec(
            request.cwd@,
            a@,
        ),
        None => p.run.artifact_path is None,
    })
    &&& p.run.provider == request.provider
    &&& p.run.model == request.model
    &&& p.run.thinking == request.thinking
    &&& p.run.state == AgentRunState::Running
    &&& p.run.exit_code is None
    &&& p.run.started_at_ms == now
    &&& p.run.finished_at_ms is None
    &&& p.prompt@ == prompt
    &&& string_views(p.args@) == pi_args_spec(request, prompt)
    &&& p.env@.len() == 3
    &&& p.env@[0].0@ == "PAJ_ROLE"@ && p.env@[0].1@ == request.role@
    &&& p.env@[1].0@ == "PAJ_TASK"@ && p.env@[1].1@ == first_line_spec(request.prompt@)
    &&& p.env@[2].0@ == "PAJ_AGENT_NAME"@ && p.env@[2].1@ == agent_name_spec(request.role@, id)
}

/// Refuses a blank role, then a blank prompt.
pub fn check_request(request: &AgentRunRequest) -> (r: Result<(), AgentError>)
    ensures
        blank(request.role@) ==> r == Err::<(), AgentError>(AgentError::EmptyRole),
        !blank(request.role@) && blank(request.prompt@) ==> r == Err::<(), AgentError>(
            AgentError::EmptyPrompt,
        ),
        !blank(request.role@) && !blank(request.prompt@) ==> r is Ok,
{
    if is_blank(request.role.as_str()) {
        return Err(AgentError::EmptyRole);
    }
    if is_blank(request.prompt.as_str()) {
        return Err(AgentError::EmptyPrompt);
    }
    Ok(())
}

/// The prompt a foreground agent gets (see `effective_prompt_spec`).
pub fn effective_prompt(role: &str, prompt: &str, allow_write: bool) -> (s: String)
    ensures
        s@ == effective_prompt_spec(role@, prompt@, allow_write),
{
    let access = if allow_write {
        "You may modify files when required by the task."
    } else {
        "Work read-only. Do not modify files, create commits, or change repository state."
    };
    let a = concat("You are a foreground ", role);
    let b = concat(a.as_str(), " subagent.\n");
    let c = concat(b.as_str(), access);
    let d = concat(
        c.as_str(),
        "\nReturn self-contained findings with concrete file paths and line references.\n\nTask:\n",
    );
    concat(d.as_str(), prompt)
}

/// The name an agent runs under (see `agent_name_spec`).
pub fn agent_name(role: &str, id: u128) -> (s: String)
    ensures
        s@ == agent_name_spec(role@, id),
{
    let short = id_suffix(id, 8);
    let a = concat(role, "-");
    concat(a.as_str(), short.as_str())
}

/// `path` made absolute against `cwd`.
pub fn absolute_path(cwd: &str, path: String) -> (p: String)
    ensures
        p@ == absolute_path_spec(cwd@, path@),
{
    if path.as_str().unicode_len() > 0 && path.as_str().get_char(0) == '/' {
        path
    } else {
        join(cwd, path.as_str())
    }
}

fn push_flag(args: &mut Vec<String>, flag: &str, value: &Option<String>)
    ensures
        string_views(final(args)@) == string_views(old(args)@) + flag_args(flag@, *value),
{
    match value {
        Some(v) => {
            let ghost prev = args@;
            args.push(String::from_str(flag));
            args.push(v.clone());
            proof {
                assert(string_views(args@) =~= string_views(prev) + seq![flag@, v@]);
            }
        },
        None => {
            proof {
                assert(string_views(args@) =~= string_views(args@) + Seq::<Seq<char>>::empty());
            }
        },
    }
}

/// The arguments of the Pi command (see `pi_args_spec`).
pub fn pi_args(request: &AgentRunRequest, prompt: &str) -> (args: Vec<String>)
    ensures
        string_views(args@) == pi_args_spec(*request, prompt@),
{
    let mut args: Vec<String> = Vec::new();
    args.push(String::from_str("--print"));
    args.push(String::from_str("--no-session"));
    let ghost base = string_views(args@);
    proof {
        assert(base =~= seq!["--print"@, "--no-session"@]);
    }
    if !request.allow_write {
        args.push(String::from_str("--tools"));
        args.push(String::from_str("read,bash"));
    }
    let ghost tools = string_views(args@);
    proof {
        if request.allow_write {
            assert(tools =~= base + Seq::<Seq<char>>::empty());
        } else {
            assert(tools =~= base + seq!["--tools"@, "read,bash"@]);
        }
    }
    push_flag(&mut args, "--provider", &request.provider);
    push_flag(&mut args, "--model", &request.model);
    push_flag(&mut args, "--thinking", &request.thinking);
    let ghost prev = args@;
    args.push(String::from_str(prompt));
    proof {
        assert(string_views(args@) =~= string_views(prev).push(prompt@));
        assert(string_views(args@) =~= pi_args_spec(*request, prompt@));
    }
    args
}

fn copy_opt(o: &Option<String>) -> (r: Option<String>)
    ensures
        r == *o,
{
    match o {
        Some(s) => Some(s.clone()),
        None => None,
    }
}

impl AgentRunner {
    /// A runner rooted at `root` that starts agents with `pi_command` (its
    /// directories are made by the caller).
    pub fn new(root: String, pi_command: String) -> (r: AgentRunner)
        ensures
            r.root@ == root@,
            r.pi_command@ == pi_command@,
    {
        AgentRunner { root, pi_command }
    }

    /// The directory of a run.
    pub fn run_dir(&self, project_id: &str, run_id: u128) -> (p: String)
        ensures
            p@ == run_dir_spec(self.root@, project_id@, run_id),
    {
        let projects = join(self.root.as_str(), "projects");
        let project = join(projects.as_str(), project_id);
        let agents = join(project.as_str(), "agents");
        let id = id_text(run_id);
        join(agents.as_str(), id.as_str())
    }

    /// The plan of a run with identifier `id` at `now`, unless its role or
    /// prompt is blank.
    pub fn plan_with_id(&self, project: &Project, request: AgentRunRequest, id: u128, now: u64) -> (r:
        Result<AgentRunPlan, AgentError>)
        ensures
            blank(request.role@) ==> r == Err::<AgentRunPlan, AgentError>(AgentError::EmptyRole),
            !blank(request.role@) && blank(request.prompt@) ==> r == Err::<AgentRunPlan, AgentError>(
                AgentError::EmptyPrompt,
            ),
            !blank(request.role@) && !blank(request.prompt@) ==> (r matches Ok(p) && planned_run(
                self.root@,
                *project,
                request,
                id,
                now,
                p,
            )),
    {
        check_request(&request)?;
        let dir = self.run_dir(project.id.as_str(), id);
        let prompt_path = join(dir.as_str(), "prompt.md");
        let output_path = join(dir.as_str(), "output.md");
        let stderr_path = join(dir.as_str(), "stderr.log");
        let prompt = effective_prompt(
            request.role.as_str(),
            request.prompt.as_str(),
            request.allow_write,
        );
        let artifact_path = match &request.artifact_path {
            Some(a) => Some(absolute_path(request.cwd.as_str(), a.clone())),
            None => None,
        };
        let args = pi_args(&request, prompt.as_str());
        let mut env: Vec<(String, String)> = Vec::new();
        env.push((String::from_str("PAJ_ROLE"), request.role.clone()));
        env.push((String::from_str("PAJ_TASK"), first_line(request.prompt.as_str())));
        env.push((String::from_str("PAJ_AGENT_NAME"), agent_name(request.role.as_str(), id)));
        let run = AgentRun {
            id,
            role: request.role.clone(),
            project_id: project.id.clone(),
            project_root: project.root.clone(),
            cwd: request.cwd.clone(),
            prompt_path,
            output_path,
            stderr_path,
            artifact_path,
            provider: copy_opt(&request.provider),
            model: copy_opt(&request.model),
            thinking: copy_opt(&request.thinking),
            state: AgentRunState::Running,
            exit_code: None,
            started_at_ms: now,
            finished_at_ms: None,
        };
        Ok(AgentRunPlan { run, prompt, args, env })
    }

    /// The plan of a new run at `now` under a fresh identifier, unless its
    /// role or prompt is blank.
    pub fn plan(&self, project: &Project, request: AgentRunRequest, now: u64) -> (r: Result<
        AgentRunPlan,
        AgentError,
    >)
        ensures
            r matches Ok(p) ==> is_v7(p.run.id),
            blank(request.role@) ==> r == Err::<AgentRunPlan, AgentError>(AgentError::EmptyRole),
            !blank(request.role@) && blank(request.prompt@) ==> r == Err::<AgentRunPlan, AgentError>(
                AgentError::EmptyPrompt,
            ),
            !blank(request.role@) && !blank(request.prompt@) ==> (r matches Ok(p) && planned_run(
                self.root@,
                *project,
                request,
                p.run.id,
                now,
                p,
            )),
    {
        check_request(&request)?;
        let id = fresh_id();
        self.plan_with_id(project, request, id, now)
    }
}

/// A run after its agent exited at `now`: completed on success, failed
/// otherwise, with the exit code recorded.
pub fn finish_run(run: AgentRun, success: bool, exit_code: Option<i32>, now: u64) -> (r: AgentRun)
    ensures
        r == (AgentRun {
            state: if success {
                AgentRunState::Completed
            } else {
                AgentRunState::Failed
            },
            exit_code,
            finished_at_ms: Some(now),
            ..run
        }),
{
    AgentRun {
        state: if success {
            AgentRunState::Completed
        } else {
            AgentRunState::Failed
        },
        exit_code,
        finished_at_ms: Some(now),
        ..run
    }
}

/// A run whose agent could not be started, failed at `now`.
pub fn fail_run(run: AgentRun, now: u64) -> (r: AgentRun)
    ensures
        r == (AgentRun { state: AgentRunState::Failed, finished_at_ms: Some(now), ..run }),
{
    AgentRun { state: AgentRunState::Failed, finished_at_ms: Some(now), ..run }
}

} // verus!

//! Background implementation agents: each works in its own git worktree and
//! runs as a job. This module holds their request rules, names, prompts,
//! command lines, git calls, records and lookup.
use crate::ids::{fresh_id, is_v7, hyphenated_hex, id_has_prefix, id_suffix, id_suffix_spec, id_text};
use crate::jobs::{Job, JobError, JobManager, JobState};
use crate::paths::{join, join_spec};
use crate::project::Project;
use crate::seqs::{sort_by_stamp, sort_by_stamp_vec, Stamped};
use crate::text::{blank, concat, first_line_prefix, first_line_prefix_of, is_blank, str_eq, string_views};
use vstd::prelude::*;
use vstd::string::*;

verus! {

/// The record of a background agent.
#[derive(Debug, Clone, PartialEq, Eq)]
pub struct BackgroundAgent {
    pub id: u128,
    pub name: String,
    pub role: String,
    pub parent_session_id: Option<u128>,
    pub project_id: String,
    pub project_root: String,
    pub branch: String,
    pub worktree: String,
    pub job_id: u128,
    pub job_name: String,
    pub state: JobState,
    pub prompt_path: String,
    pub created_at_ms: u64,
}

/// What a caller asks a background agent to do.
#[derive(Debug, Clone, PartialEq, Eq)]
pub struct SpawnRequest {
    pub name: Option<String>,
    pub role: String,
    pub parent_session_id: Option<u128>,
    pub branch: String,
    pub worktree: Option<String>,
    pub prompt: String,
    pub model: Option<String>,
    pub thinking: Option<String>,
}

/// Manages background agents under a state directory, through jobs.
#[derive(Debug, Clone, PartialEq, Eq)]
pub struct BackgroundAgentManager {
    pub state_root: String,
    pub jobs: JobManager,
    pub pi_command: String,
}

/// Everything a spawn needs before its worktree and job exist.
#[derive(Debug, Clone, PartialEq, Eq)]
pub struct SpawnPlan {
    pub id: u128,
    pub name: String,
    pub role: String,
    pub parent_session_id: Option<u128>,
    pub branch: String,
    pub worktree: String,
    pub agent_dir: String,
    pub prompt_path: String,
    pub prompt: String,
    pub job_name: String,
    pub command: Vec<String>,
}

/// Why a background agent operation failed.
#[derive(Debug, Clone, PartialEq, Eq)]
pub enum BackgroundAgentError {
    MissingRuntimeDirectory,
    MissingHomeDirectory,
    EmptyRole,
    EmptyBranch,
    EmptyPrompt,
    WorktreeExists(String),
    NotFound(String),
    Ambiguous(String),
    Git(String),
    InvalidSystemTime(String),
    TimestampOutOfRange,
    Job(JobError),
    Io(String),
    Json(String),
}

impl Stamped for BackgroundAgent {
    open spec fn stamp_spec(&self) -> u64 {
        self.created_at_ms
    }

    fn stamp(&self) -> (r: u64) {
        self.created_at_ms
    }
}

/// How an agent's final report reaches its parent.
pub open spec fn completion_line(parent: Option<u128>) -> Seq<char> {
    match parent {
        Some(id) => "When finished, send a concise completion message to parent session "@
            + hyphenated_hex(id) + "."@,
        None => "Report completion in your final response."@,
    }
}

/// The prompt a background agent gets.
pub open spec fn implementation_prompt_spec(
    name: Seq<char>,
    branch: Seq<char>,
    worktree: Seq<char>,
    parent: Option<u128>,
    task: Seq<char>,
) -> Seq<char> {
    "You are background implementation agent "@ + name + ".\nWork only in "@ + worktree
        + " on branch "@ + branch
        + ".\nImplement the task end-to-end, run relevant checks, and commit coherent chunks.\nNever modify the parent worktree.\n"@
        + completion_line(parent) + "\n\nTask:\n"@ + task
}

/// The command line of a background agent's job.
pub open spec fn spawn_command_spec(
    pi_command: Seq<char>,
    request: SpawnRequest,
    name: Seq<char>,
    prompt: Seq<char>,
) -> Seq<Seq<char>> {
    seq![
        "env"@,
        "PAJ_ROLE="@ + request.role@,
        "PAJ_AGENT_NAME="@ + name,
        "PAJ_TASK="@ + first_line_prefix(request.prompt@, 200),
        pi_command,
        "--name"@,
        name,
    ] + (match request.model {
        Some(m) => seq!["--model"@, m@],
        None => Seq::empty(),
    }) + (match request.thinking {
        Some(t) => seq!["--thinking"@, t@],
        None => Seq::empty(),
    }) + seq![prompt]
}

/// A background agent answers to its exact name or a prefix of its id.
pub open spec fn agent_matches(a: BackgroundAgent, reference: Seq<char>) -> bool {
    a.name@ == reference || reference.is_prefix_of(hyphenated_hex(a.id))
}

/// The plan of a spawn with identifier `id`.
pub open spec fn planned_spawn(
    m: BackgroundAgentManager,
    project: Project,
    request: SpawnRequest,
    id: u128,
    p: SpawnPlan,
) -> bool {
    let name = match request.name {
        Some(n) => n@,
        None => request.role@ + "-"@ + id_suffix_spec(id, 8),
    };
    let worktree = match request.worktree {
        Some(w) => w@,
        None => join_spec(
            join_spec(join_spec(m.state_root@, "worktrees"@), project.id@),
            id_suffix_spec(id, 8),
        ),
    };
    let dir = join_spec(
        join_spec(join_spec(m.state_root@, "agents"@), project.id@),
        hyphenated_hex(id),
    );
    let prompt = implementation_prompt_spec(
        name,
        request.branch@,
        worktree,
        request.parent_session_id,
        request.prompt@,
    );
    &&& p.id == id
    &&& p.name@ == name
    &&& p.role == request.role
    &&& p.parent_session_id == request.parent_session_id
    &&& p.branch == request.branch
    &&& p.worktree@ == worktree
    &&& p.agent_dir@ == dir
    &&& p.prompt_path@ == join_spec(dir, "prompt.md"@)
    &&& p.prompt@ == prompt
    &&& p.job_name@ == "agent-"@ + name
    &&& string_views(p.command@) == spawn_command_spec(m.pi_command@, request, name, prompt)
}

/// Refuses a blank role, branch or prompt, in that order.
pub fn check_request(request: &SpawnRequest) -> (r: Result<(), BackgroundAgentError>)
    ensures
        blank(request.role@) ==> r == Err::<(), BackgroundAgentError>(
            BackgroundAgentError::EmptyRole,
        ),
        !blank(request.role@) && blank(request.branch@) ==> r == Err::<(), BackgroundAgentError>(
            BackgroundAgentError::EmptyBranch,
        ),
        !blank(request.role@) && !blank(request.branch@) && blank(request.prompt@) ==> r == Err::<
            (),
            BackgroundAgentError,
        >(BackgroundAgentError::EmptyPrompt),
        !blank(request.role@) && !blank(request.branch@) && !blank(request.prompt@) ==> r is Ok,
{
    if is_blank(request.role.as_str()) {
        return Err(BackgroundAgentError::EmptyRole);
    }
    if is_blank(request.branch.as_str()) {
        return Err(BackgroundAgentError::EmptyBranch);
    }
    if is_blank(request.prompt.as_str()) {
        return Err(BackgroundAgentError::EmptyPrompt);
    }
    Ok(())
}

/// The prompt a background agent gets (see `implementation_prompt_spec`).
pub fn implementation_prompt(
    name: &str,
    branch: &str,
    worktree: &str,
    parent: Option<u128>,
    task: &str,
) -> (s: String)
    ensures
        s@ == implementation_prompt_spec(name@, branch@, worktree@, parent, task@),
{
    let completion = match parent {
        Some(id) => {
            let text = id_text(id);
            let a = concat(
                "When finished, send a concise completion message to parent session ",
                text.as_str(),
            );
            concat(a.as_str(), ".")
        },
        None => String::from_str("Report completion in your final response."),
    };
    let a = concat("You are background implementation agent ", name);
    let b = concat(a.as_str(), ".\nWork only in ");
    let c = concat(b.as_str(), worktree);
    let d = concat(c.as_str(), " on branch ");
    let e = concat(d.as_str(), branch);
    let f = concat(
        e.as_str(),
        ".\nImplement the task end-to-end, run relevant checks, and commit coherent chunks.\nNever modify the parent worktree.\n",
    );
    let g = concat(f.as_str(), completion.as_str());
    let h = concat(g.as_str(), "\n\nTask:\n");
    concat(h.as_str(), task)
}

/// The first line of a task, cut to 200 characters.
pub fn first_line(text: &str) -> (s: String)
    ensures
        s@ == first_line_prefix(text@, 200),
{
    first_line_prefix_of(text, 200)
}

/// The last 8 digits of an identifier.
pub fn short_id(id: u128) -> (s: String)
    ensures
        s@ == id_suffix_spec(id, 8),
{
    id_suffix(id, 8)
}

fn push_pair(args: &mut Vec<String>, flag: &str, value: &Option<String>)
    ensures
        string_views(final(args)@) == string_views(old(args)@) + (match *value {
            Some(v) => seq![flag@, v@],
            None => Seq::<Seq<char>>::empty(),
        }),
{
    match value {
        Some(v) => {
            let ghost prev = args@;
            args.push(String::from_str(flag));
            args.push(v.clone());
            proof {
                assert(string_views(args@) =~= string_views(prev) + seq![flag@, v@]);
            }
        },
        None => {
            proof {
                assert(string_views(args@) =~= string_views(args@) + Seq::<Seq<char>>::empty());
            }
        },
    }
}

/// The command line of a background agent's job (see `spawn_command_spec`).
pub fn spawn_command(pi_command: &str, request: &SpawnRequest, name: &str, prompt: &str) -> (c: Vec<
    String,
>)
    ensures
        string_views(c@) == spawn_command_spec(pi_command@, *request, name@, prompt@),
{
    let task = first_line(request.prompt.as_str());
    let mut c: Vec<String> = Vec::new();
    c.push(String::from_str("env"));
    c.push(concat("PAJ_ROLE=", request.role.as_str()));
    c.push(concat("PAJ_AGENT_NAME=", name));
    c.push(concat("PAJ_TASK=", task.as_str()));
    c.push(String::from_str(pi_command));
    c.push(String::from_str("--name"));
    c.push(String::from_str(name));
    push_pair(&mut c, "--model", &request.model);
    push_pair(&mut c, "--thinking", &request.thinking);
    let ghost prev = c@;
    c.push(String::from_str(prompt));
    proof {
        assert(string_views(c@) =~= string_views(prev).push(prompt@));
        assert(string_views(c@) =~= spawn_command_spec(pi_command@, *request, name@, prompt@));
    }
    c
}

/// The git calls that check a request before a spawn: the branch name is
/// valid, and the project is a git repository.
pub fn request_checks(branch: &str) -> (calls: Vec<Vec<String>>)
    ensures
        calls@.len() == 2,
        string_views(calls@[0]@) == seq!["check-ref-format"@, "--branch"@, branch@],
        string_views(calls@[1]@) == seq!["rev-parse"@, "--show-toplevel"@],
{
    let mut first: Vec<String> = Vec::new();
    first.push(String::from_str("check-ref-format"));
    first.push(String::from_str("--branch"));
    first.push(String::from_str(branch));
    let mut second: Vec<String> = Vec::new();
    second.push(String::from_str("rev-parse"));
    second.push(String::from_str("--show-toplevel"));
    let mut calls: Vec<Vec<String>> = Vec::new();
    calls.push(first);
    calls.push(second);
    proof {
        assert(string_views(calls@[0]@) =~= seq!["check-ref-format"@, "--branch"@, branch@]);
        assert(string_views(calls@[1]@) =~= seq!["rev-parse"@, "--show-toplevel"@]);
    }
    calls
}

/// The git call that tells whether a branch exists.
pub fn branch_exists_args(branch: &str) -> (args: Vec<String>)
    ensures
        string_views(args@) == seq!["show-ref"@, "--verify"@, "--quiet"@, "refs/heads/"@ + branch@],
{
    let mut args: Vec<String> = Vec::new();
    args.push(String::from_str("show-ref"));
    args.push(String::from_str("--verify"));
    args.push(String::from_str("--quiet"));
    args.push(concat("refs/heads/", branch));
    proof {
        assert(string_views(args@) =~= seq![
            "show-ref"@,
            "--verify"@,
            "--quiet"@,
            "refs/heads/"@ + branch@,
        ]);
    }
    args
}

/// The git call that creates a worktree: on the existing branch, or on a new
/// branch from `HEAD`.
pub fn worktree_add_args(branch: &str, worktree: &str, branch_exists: bool) -> (args: Vec<String>)
    ensures
        branch_exists ==> string_views(args@) == seq!["worktree"@, "add"@, worktree@, branch@],
        !branch_exists ==> string_views(args@) == seq![
            "worktree"@,
            "add"@,
            "-b"@,
            branch@,
            worktree@,
            "HEAD"@,
        ],
{
    let mut args: Vec<String> = Vec::new();
    args.push(String::from_str("worktree"));
    args.push(String::from_str("add"));
    if branch_exists {
        args.push(String::from_str(worktree));
        args.push(String::from_str(branch));
        proof {
            assert(string_views(args@) =~= seq!["worktree"@, "add"@, worktree@, branch@]);
        }
    } else {
        args.push(String::from_str("-b"));
        args.push(String::from_str(branch));
        args.push(String::from_str(worktree));
        args.push(String::from_str("HEAD"));
        proof {
            assert(string_views(args@) =~= seq![
                "worktree"@,
                "add"@,
                "-b"@,
                branch@,
                worktree@,
                "HEAD"@,
            ]);
        }
    }
    args
}

/// The git call that removes a worktree, forced or not.
pub fn worktree_remove_args(worktree: &str, force: bool) -> (args: Vec<String>)
    ensures
        force ==> string_views(args@) == seq!["worktree"@, "remove"@, "--force"@, worktree@],
        !force ==> string_views(args@) == seq!["worktree"@, "remove"@, worktree@],
{
    let mut args: Vec<String> = Vec::new();
    args.push(String::from_str("worktree"));
    args.push(String::from_str("remove"));
    if force {
        args.push(String::from_str("--force"));
    }
    args.push(String::from_str(worktree));
    proof {
        if force {
            assert(string_views(args@) =~= seq!["worktree"@, "remove"@, "--force"@, worktree@]);
        } else {
            assert(string_views(args@) =~= seq!["worktree"@, "remove"@, worktree@]);
        }
    }
    args
}

impl BackgroundAgent {
    /// A copy of this record.
    pub fn copied(&self) -> (r: BackgroundAgent)
        ensures
            r == *self,
    {
        BackgroundAgent {
            id: self.id,
            name: self.name.clone(),
            role: self.role.clone(),
            parent_session_id: self.parent_session_id,
            project_id: self.project_id.clone(),
            project_root: self.project_root.clone(),
            branch: self.branch.clone(),
            worktree: self.worktree.clone(),
            job_id: self.job_id,
            job_name: self.job_name.clone(),
            state: self.state,
            prompt_path: self.prompt_path.clone(),
            created_at_ms: self.created_at_ms,
        }
    }

    /// The project this agent works for.
    pub fn project(&self) -> (p: Project)
        ensures
            p.id == self.project_id,
            p.root == self.project_root,
    {
        Project { id: self.project_id.clone(), root: self.project_root.clone() }
    }
}

impl BackgroundAgentManager {
    /// A manager keeping its records under `state_root`, running jobs under
    /// `runtime_root` on the tmux server `tmux_socket` (the directories are
    /// made by the caller).
    pub fn new(runtime_root: String, state_root: String, tmux_socket: String, pi_command: String) -> (m:
        BackgroundAgentManager)
        ensures
            m.state_root@ == state_root@,
            m.jobs.root@ == runtime_root@,
            m.jobs.tmux_socket@ == tmux_socket@,
            m.pi_command@ == pi_command@,
    {
        BackgroundAgentManager {
            state_root,
            jobs: JobManager::new(runtime_root, tmux_socket),
            pi_command,
        }
    }

    /// The directory of an agent's record.
    pub fn agent_dir(&self, project_id: &str, id: u128) -> (p: String)
        ensures
            p@ == join_spec(
                join_spec(join_spec(self.state_root@, "agents"@), project_id@),
                hyphenated_hex(id),
            ),
    {
        let agents = join(self.state_root.as_str(), "agents");
        let project = join(agents.as_str(), project_id);
        let text = id_text(id);
        join(project.as_str(), text.as_str())
    }

    /// The directory of an agent's records for one project.
    pub fn project_agents_dir(&self, project_id: &str) -> (p: String)
        ensures
            p@ == join_spec(join_spec(self.state_root@, "agents"@), project_id@),
    {
        let agents = join(self.state_root.as_str(), "agents");
        join(agents.as_str(), project_id)
    }

    /// The worktree an agent gets when the request names none.
    pub fn auto_worktree(&self, project: &Project, id: u128) -> (p: String)
        ensures
            p@ == join_spec(
                join_spec(join_spec(self.state_root@, "worktrees"@), project.id@),
                id_suffix_spec(id, 8),
            ),
    {
        let worktrees = join(self.state_root.as_str(), "worktrees");
        let project_dir = join(worktrees.as_str(), project.id.as_str());
        let short = short_id(id);
        join(project_dir.as_str(), short.as_str())
    }

    /// The plan of a spawn with identifier `id`, unless its role, branch or
    /// prompt is blank.
    pub fn plan_spawn(&self, project: &Project, request: SpawnRequest, id: u128) -> (r: Result<
        SpawnPlan,
        BackgroundAgentError,
    >)
        ensures
            blank(request.role@) ==> r == Err::<SpawnPlan, BackgroundAgentError>(
                BackgroundAgentError::EmptyRole,
            ),
            !blank(request.role@) && blank(request.branch@) ==> r == Err::<
                SpawnPlan,
                BackgroundAgentError,
            >(BackgroundAgentError::EmptyBranch),
            !blank(request.role@) && !blank(request.branch@) && blank(request.prompt@) ==> r
                == Err::<SpawnPlan, BackgroundAgentError>(BackgroundAgentError::EmptyPrompt),
            !blank(request.role@) && !blank(request.branch@) && !blank(request.prompt@) ==> (r matches Ok(
                p,
            ) && planned_spawn(*self, *project, request, id, p)),
    {
        check_request(&request)?;
        let name = match &request.name {
            Some(n) => n.clone(),
            None => {
                let a = concat(request.role.as_str(), "-");
                let short = short_id(id);
                concat(a.as_str(), short.as_str())
            },
        };
        let worktree = match &request.worktree {
            Some(w) => w.clone(),
            None => self.auto_worktree(project, id),
        };
        let agent_dir = self.agent_dir(project.id.as_str(), id);
        let prompt_path = join(agent_dir.as_str(), "prompt.md");
        let prompt = implementation_prompt(
            name.as_str(),
            request.branch.as_str(),
            worktree.as_str(),
            request.parent_session_id,
            request.prompt.as_str(),
        );
        let command = spawn_command(
            self.pi_command.as_str(),
            &request,
            name.as_str(),
            prompt.as_str(),
        );
        let job_name = concat("agent-", name.as_str());
        Ok(
            SpawnPlan {
                id,
                name,
                role: request.role,
                parent_session_id: request.parent_session_id,
                branch: request.branch,
                worktree,
                agent_dir,
                prompt_path,
                prompt,
                job_name,
                command,
            },
        )
    }

    /// The plan of a spawn under a fresh identifier, unless its role, branch
    /// or prompt is blank.
    pub fn plan_new_spawn(&self, project: &Project, request: SpawnRequest) -> (r: Result<
        SpawnPlan,
        BackgroundAgentError,
    >)
        ensures
            r matches Ok(p) ==> is_v7(p.id),
            blank(request.role@) ==> r == Err::<SpawnPlan, BackgroundAgentError>(
                BackgroundAgentError::EmptyRole,
            ),
            !blank(request.role@) && blank(request.branch@) ==> r == Err::<
                SpawnPlan,
                BackgroundAgentError,
            >(BackgroundAgentError::EmptyBranch),
            !blank(request.role@) && !blank(request.branch@) && blank(request.prompt@) ==> r
                == Err::<SpawnPlan, BackgroundAgentError>(BackgroundAgentError::EmptyPrompt),
            !blank(request.role@) && !blank(request.branch@) && !blank(request.prompt@) ==> (r matches Ok(
                p,
            ) && planned_spawn(*self, *project, request, p.id, p)),
    {
        check_request(&request)?;
        let id = fresh_id();
        self.plan_spawn(project, request, id)
    }
}

/// The record of a spawned agent whose job started, made at `now`.
pub fn record_spawn(plan: SpawnPlan, project: &Project, job: &Job, now: u64) -> (a: BackgroundAgent)
    ensures
        a.id == plan.id,
        a.name == plan.name,
        a.role == plan.role,
        a.parent_session_id == plan.parent_session_id,
        a.project_id == project.id,
        a.project_root == project.root,
        a.branch == plan.branch,
        a.worktree == plan.worktree,
        a.job_id == job.id,
        a.job_name == job.name,
        a.state == job.state,
        a.prompt_path == plan.prompt_path,
        a.created_at_ms == now,
{
    BackgroundAgent {
        id: plan.id,
        name: plan.name,
        role: plan.role,
        parent_session_id: plan.parent_session_id,
        project_id: project.id.clone(),
        project_root: project.root.clone(),
        branch: plan.branch,
        worktree: plan.worktree,
        job_id: job.id,
        job_name: job.name.clone(),
        state: job.state,
        prompt_path: plan.prompt_path,
        created_at_ms: now,
    }
}

/// An agent's state after its job was looked up: the job's state, `Lost` when
/// the job is gone, and any other failure passed on.
pub fn with_job_state(agent: BackgroundAgent, lookup: &Result<Job, JobError>) -> (r: Result<
    BackgroundAgent,
    BackgroundAgentError,
>)
    ensures
        *lookup matches Ok(j) ==> r == Ok::<BackgroundAgent, BackgroundAgentError>(
            BackgroundAgent { state: j.state, ..agent },
        ),
        *lookup matches Err(JobError::NotFound(_)) ==> r == Ok::<
            BackgroundAgent,
            BackgroundAgentError,
        >(BackgroundAgent { state: JobState::Lost, ..agent }),
        *lookup matches Err(e) ==> (e is NotFound || r == Err::<
            BackgroundAgent,
            BackgroundAgentError,
        >(BackgroundAgentError::Job(e))),
{
    match lookup {
        Ok(job) => Ok(BackgroundAgent { state: job.state, ..agent }),
        Err(JobError::NotFound(_)) => Ok(BackgroundAgent { state: JobState::Lost, ..agent }),
        Err(e) => Err(BackgroundAgentError::Job(e.copied())),
    }
}

/// Agents in the order they were created, ties kept in the order given.
pub fn order_agents(agents: Vec<BackgroundAgent>) -> (r: Vec<BackgroundAgent>)
    ensures
        r@ == sort_by_stamp(agents@),
{
    sort_by_stamp_vec(agents)
}

/// The one agent of a project that answers to `reference`.
pub fn resolve(agents: &Vec<BackgroundAgent>, reference: &str) -> (r: Result<
    BackgroundAgent,
    BackgroundAgentError,
>)
    ensures
        ({
            let m = agents@.filter(|a: BackgroundAgent| agent_matches(a, reference@));
            &&& m.len() == 0 <==> (r matches Err(BackgroundAgentError::NotFound(x)) && x@
                == reference@)
            &&& m.len() == 1 <==> r == Ok::<BackgroundAgent, BackgroundAgentError>(m[0])
            &&& m.len() > 1 <==> (r matches Err(BackgroundAgentError::Ambiguous(x)) && x@
                == reference@)
        }),
{
    let ghost pred = |a: BackgroundAgent| agent_matches(a, reference@);
    let mut found: Vec<BackgroundAgent> = Vec::new();
    let mut i: usize = 0;
    while i < agents.len()
        invariant
            i <= agents@.len(),
            pred == (|a: BackgroundAgent| agent_matches(a, reference@)),
            found@ == agents@.take(i as int).filter(pred),
        decreases agents.len() - i,
    {
        let a = &agents[i];
        let hit = str_eq(a.name.as_str(), reference) || id_has_prefix(a.id, reference);
        proof {
            assert(agents@.take(i + 1) =~= agents@.take(i as int).push(*a));
            crate::seqs::lemma_filter_push(agents@.take(i as int), pred, *a);
        }
        if hit {
            found.push(a.copied());
        }
        i = i + 1;
    }
    proof {
        assert(agents@.take(agents@.len() as int) =~= agents@);
    }
    if found.len() == 0 {
        Err(BackgroundAgentError::NotFound(String::from_str(reference)))
    } else if found.len() == 1 {
        Ok(found[0].copied())
    } else {
        Err(BackgroundAgentError::Ambiguous(String::from_str(reference)))
    }
}

/// Whether stopping an agent goes on to stop its job: yes when the job was
/// found, no (and no error) when it is gone, and any other failure passed on.
pub fn stop_decision(lookup: &Result<Job, JobError>) -> (r: Result<bool, BackgroundAgentError>)
    ensures
        *lookup is Ok ==> r == Ok::<bool, BackgroundAgentError>(true),
        *lookup matches Err(JobError::NotFound(_)) ==> r == Ok::<bool, BackgroundAgentError>(false),
        *lookup matches Err(e) ==> (e is NotFound || r == Err::<bool, BackgroundAgentError>(
            BackgroundAgentError::Job(e),
        )),
{
    match lookup {
        Ok(_) => Ok(true),
        Err(JobError::NotFound(_)) => Ok(false),
        Err(e) => Err(BackgroundAgentError::Job(e.copied())),
    }
}

} // verus!

//! Jobs: commands run in private tmux sessions, their records, and the rules
//! for starting, refreshing, stopping and finding them.
use crate::ids::{fresh_id, is_v7, hyphenated_hex, id_has_prefix, id_simple_text, id_text, simple_hex};
use crate::paths::{join, join_spec};
use crate::project::Project;
use crate::seqs::{sort_by_stamp, sort_by_stamp_vec, Stamped};
use crate::text::{
    blank, concat, copy_strings, is_blank, parse_i32, parse_i32_spec, parse_u32, parse_u32_spec,
    split_on, split_spec, str_eq, string_views, trim, trim_spec,
};
use vstd::prelude::*;
use vstd::string::*;

verus! {

/// Where a job stands.
#[derive(Debug, Clone, Copy, PartialEq, Eq, Structural)]
pub enum JobState {
    Running,
    Exited,
    Stopped,
    Lost,
}

/// The record of a job.
#[derive(Debug, Clone, PartialEq, Eq)]
pub struct Job {
    pub id: u128,
    pub name: String,
    pub owner_session_id: Option<u128>,
    pub project_id: String,
    pub project_root: String,
    pub cwd: String,
    pub command: Vec<String>,
    pub tmux_session: String,
    pub state: JobState,
    pub exit_code: Option<i32>,
    pub pid: Option<u32>,
    pub created_at_ms: u64,
    pub finished_at_ms: Option<u64>,
}

/// Runs jobs under a runtime directory and a private tmux server.
#[derive(Debug, Clone, PartialEq, Eq)]
pub struct JobManager {
    pub root: String,
    pub tmux_socket: String,
}

/// What tmux reports of a job's pane.
#[derive(Debug, Clone, Copy, PartialEq, Eq)]
pub struct PaneState {
    pub exists: bool,
    pub dead: bool,
    pub exit_code: Option<i32>,
    pub pid: Option<u32>,
}

/// Why a job operation failed.
#[derive(Debug, Clone, PartialEq, Eq)]
pub enum JobError {
    MissingRuntimeDirectory,
    EmptyName,
    EmptyCommand,
    DuplicateName(String),
    NotFound(String),
    Ambiguous(String),
    Tmux(String),
    InvalidMetadataPath(String),
    InvalidSystemTime(String),
    TimestampOutOfRange,
    Io(String),
    Json(String),
}

impl JobError {
    /// A copy of this error.
    pub fn copied(&self) -> (r: JobError)
        ensures
            r == *self,
    {
        match self {
            JobError::MissingRuntimeDirectory => JobError::MissingRuntimeDirectory,
            JobError::EmptyName => JobError::EmptyName,
            JobError::EmptyCommand => JobError::EmptyCommand,
            JobError::DuplicateName(s) => JobError::DuplicateName(s.clone()),
            JobError::NotFound(s) => JobError::NotFound(s.clone()),
            JobError::Ambiguous(s) => JobError::Ambiguous(s.clone()),
            JobError::Tmux(s) => JobError::Tmux(s.clone()),
            JobError::InvalidMetadataPath(s) => JobError::InvalidMetadataPath(s.clone()),
            JobError::InvalidSystemTime(s) => JobError::InvalidSystemTime(s.clone()),
            JobError::TimestampOutOfRange => JobError::TimestampOutOfRange,
            JobError::Io(s) => JobError::Io(s.clone()),
            JobError::Json(s) => JobError::Json(s.clone()),
        }
    }
}

impl Stamped for Job {
    open spec fn stamp_spec(&self) -> u64 {
        self.created_at_ms
    }

    fn stamp(&self) -> (r: u64) {
        self.created_at_ms
    }
}

/// The format that `display-message` is given to report a pane.
pub open spec fn pane_format() -> Seq<char> {
    "#{pane_dead}\t#{pane_dead_status}\t#{pane_pid}"@
}

/// The pane state that `display-message` output describes: its fields are the
/// trimmed output split at tabs; the pane is dead when the first is `1`.
pub open spec fn pane_from_output(out: Seq<char>) -> PaneState {
    let f = split_spec(trim_spec(out), '\t');
    PaneState {
        exists: true,
        dead: f[0] == "1"@,
        exit_code: if f.len() > 1 {
            parse_i32_spec(f[1])
        } else {
            None
        },
        pid: if f.len() > 2 {
            parse_u32_spec(f[2])
        } else {
            None
        },
    }
}

/// A job after its pane has been inspected at `now`. Only a running job
/// changes: it is lost when its pane is gone, exited when its pane is dead,
/// and otherwise takes the pane's pid.
pub open spec fn refreshed(job: Job, pane: PaneState, now: u64) -> Job {
    if job.state != JobState::Running {
        job
    } else if !pane.exists {
        Job { state: JobState::Lost, pid: None, finished_at_ms: Some(now), ..job }
    } else if pane.dead {
        Job {
            state: JobState::Exited,
            exit_code: pane.exit_code,
            pid: None,
            finished_at_ms: Some(now),
            ..job
        }
    } else {
        Job { pid: pane.pid, ..job }
    }
}

/// A job after it was stopped at `now`: only a running job changes.
pub open spec fn stopped(job: Job, now: u64) -> Job {
    if job.state == JobState::Running {
        Job { state: JobState::Stopped, finished_at_ms: Some(now), pid: None, ..job }
    } else {
        job
    }
}

/// Some running job of `jobs` has this name.
pub open spec fn running_named(jobs: Seq<Job>, name: Seq<char>) -> bool {
    exists|i: int| 0 <= i < jobs.len() && jobs[i].name@ == name && jobs[i].state == JobState::Running
}

/// The index of the last job of `jobs` with this name.
pub open spec fn last_named(jobs: Seq<Job>, name: Seq<char>) -> Option<int>
    decreases jobs.len(),
{
    if jobs.len() == 0 {
        None
    } else if jobs.last().name@ == name {
        Some(jobs.len() - 1)
    } else {
        last_named(jobs.drop_last(), name)
    }
}

/// The jobs whose hyphenated id starts with `reference`.
pub open spec fn jobs_with_prefix(jobs: Seq<Job>, reference: Seq<char>) -> Seq<Job> {
    jobs.filter(|j: Job| reference.is_prefix_of(hyphenated_hex(j.id)))
}

/// The directory of a job under the runtime root.
pub open spec fn job_dir_spec(root: Seq<char>, project_id: Seq<char>, id: u128) -> Seq<char> {
    join_spec(
        join_spec(join_spec(join_spec(root, "projects"@), project_id), "jobs"@),
        hyphenated_hex(id),
    )
}

/// `path` quoted for a POSIX shell: in single quotes, each `'` written `'\''`.
pub open spec fn shell_quote_spec(path: Seq<char>) -> Seq<char> {
    "'"@ + path.flat_map(|c: char| if c == '\'' {
        "'\\''"@
    } else {
        seq![c]
    }) + "'"@
}

/// Two records of the same job: equal fields, and commands with equal contents.
pub open spec fn same_job(a: Job, b: Job) -> bool {
    a == (Job { command: a.command, ..b }) && a.command@ == b.command@
}

impl Job {
    /// A copy of this job.
    pub fn copied(&self) -> (r: Job)
        ensures
            same_job(r, *self),
    {
        Job {
            id: self.id,
            name: self.name.clone(),
            owner_session_id: self.owner_session_id,
            project_id: self.project_id.clone(),
            project_root: self.project_root.clone(),
            cwd: self.cwd.clone(),
            command: copy_strings(&self.command),
            tmux_session: self.tmux_session.clone(),
            state: self.state,
            exit_code: self.exit_code,
            pid: self.pid,
            created_at_ms: self.created_at_ms,
            finished_at_ms: self.finished_at_ms,
        }
    }
}

impl JobManager {
    /// A manager rooted at `root` using the tmux server `tmux_socket` (its
    /// directories are made by the caller).
    pub fn new(root: String, tmux_socket: String) -> (m: JobManager)
        ensures
            m.root@ == root@,
            m.tmux_socket@ == tmux_socket@,
    {
        JobManager { root, tmux_socket }
    }

    /// The directory of a job.
    pub fn job_dir(&self, project_id: &str, job_id: u128) -> (p: String)
        ensures
            p@ == job_dir_spec(self.root@, project_id@, job_id),
    {
        let projects = join(self.root.as_str(), "projects");
        let project = join(projects.as_str(), project_id);
        let jobs = join(project.as_str(), "jobs");
        let id = id_text(job_id);
        join(jobs.as_str(), id.as_str())
    }

    /// The file that a job's output is copied to.
    pub fn log_path(&self, job: &Job) -> (p: String)
        ensures
            p@ == join_spec(job_dir_spec(self.root@, job.project_id@, job.id), "output.log"@),
    {
        let dir = self.job_dir(job.project_id.as_str(), job.id);
        join(dir.as_str(), "output.log")
    }

    /// The arguments of a tmux call on this manager's server.
    pub fn tmux_args(&self, args: Vec<String>) -> (r: Vec<String>)
        ensures
            string_views(r@) == seq!["-L"@, self.tmux_socket@] + string_views(args@),
    {
        let mut r: Vec<String> = Vec::new();
        r.push(String::from_str("-L"));
        r.push(self.tmux_socket.clone());
        let mut i: usize = 0;
        while i < args.len()
            invariant
                i <= args@.len(),
                string_views(r@) == seq!["-L"@, self.tmux_socket@] + string_views(args@).take(
                    i as int,
                ),
            decreases args.len() - i,
        {
            let ghost prev = r@;
            r.push(args[i].clone());
            proof {
                assert(string_views(r@) =~= string_views(prev).push(args@[i as int]@));
                assert(string_views(args@).take(i + 1) =~= string_views(args@).take(
                    i as int,
                ).push(args@[i as int]@));
            }
            i = i + 1;
        }
        proof {
            assert(string_views(args@).take(args@.len() as int) =~= string_views(args@));
        }
        r
    }

    /// The record of a job to start, unless its name is blank, its command is
    /// empty, or a running job of the project (`existing`) has the same name.
    /// The job gets a fresh identifier and runs in tmux session
    /// `paj-job-<compact id>`.
    pub fn start(
        &self,
        project: &Project,
        name: String,
        owner_session_id: Option<u128>,
        cwd: String,
        command: Vec<String>,
        existing: &Vec<Job>,
        now: u64,
    ) -> (r: Result<Job, JobError>)
        ensures
            r matches Ok(job) ==> is_v7(job.id),
            blank(name@) ==> r == Err::<Job, JobError>(JobError::EmptyName),
            !blank(name@) && command@.len() == 0 ==> r == Err::<Job, JobError>(
                JobError::EmptyCommand,
            ),
            !blank(name@) && command@.len() > 0 && running_named(existing@, name@) ==> (r matches Err(
                JobError::DuplicateName(n),
            ) && n@ == name@),
            !blank(name@) && command@.len() > 0 && !running_named(existing@, name@) ==> (r matches Ok(
                job,
            ) && job.name == name && job.owner_session_id == owner_session_id && job.project_id
                == project.id && job.project_root == project.root && job.cwd == cwd
                && job.command == command && job.tmux_session@ == "paj-job-"@ + simple_hex(job.id)
                && job.state == JobState::Running && job.exit_code is None && job.pid is None
                && job.created_at_ms == now && job.finished_at_ms is None),
    {
        check_start(name.as_str(), &command, existing)?;
        let id = fresh_id();
        let compact = id_simple_text(id);
        let tmux_session = concat("paj-job-", compact.as_str());
        Ok(
            Job {
                id,
                name,
                owner_session_id,
                project_id: project.id.clone(),
                project_root: project.root.clone(),
                cwd,
                command,
                tmux_session,
                state: JobState::Running,
                exit_code: None,
                pid: None,
                created_at_ms: now,
                finished_at_ms: None,
            },
        )
    }

    /// The tmux calls that prepare a job's session: a detached session in the
    /// job's directory, kept open after its command exits.
    pub fn setup_commands(&self, job: &Job) -> (r: Vec<Vec<String>>)
        ensures
            r@.len() == 2,
            string_views(r@[0]@) == seq![
                "new-session"@,
                "-d"@,
                "-s"@,
                job.tmux_session@,
                "-c"@,
                job.cwd@,
            ],
            string_views(r@[1]@) == seq![
                "set-option"@,
                "-w"@,
                "-t"@,
                job.tmux_session@,
                "remain-on-exit"@,
                "on"@,
            ],
    {
        let mut first: Vec<String> = Vec::new();
        first.push(String::from_str("new-session"));
        first.push(String::from_str("-d"));
        first.push(String::from_str("-s"));
        first.push(job.tmux_session.clone());
        first.push(String::from_str("-c"));
        first.push(job.cwd.clone());
        let mut second: Vec<String> = Vec::new();
        second.push(String::from_str("set-option"));
        second.push(String::from_str("-w"));
        second.push(String::from_str("-t"));
        second.push(job.tmux_session.clone());
        second.push(String::from_str("remain-on-exit"));
        second.push(String::from_str("on"));
        let mut r: Vec<Vec<String>> = Vec::new();
        r.push(first);
        r.push(second);
        proof {
            assert(string_views(r@[0]@) =~= seq![
                "new-session"@,
                "-d"@,
                "-s"@,
                job.tmux_session@,
                "-c"@,
                job.cwd@,
            ]);
            assert(string_views(r@[1]@) =~= seq![
                "set-option"@,
                "-w"@,
                "-t"@,
                job.tmux_session@,
                "remain-on-exit"@,
                "on"@,
            ]);
        }
        r
    }

    /// The tmux calls that launch a job once its log file exists: the pane's
    /// output appended to the log, then the pane respawned with the command.
    pub fn launch_commands(&self, job: &Job, log_path: &str) -> (r: Vec<Vec<String>>)
        ensures
            r@.len() == 2,
            string_views(r@[0]@) == seq![
                "pipe-pane"@,
                "-t"@,
                job.tmux_session@,
                "-o"@,
                "cat >> "@ + shell_quote_spec(log_path@),
            ],
            string_views(r@[1]@) == seq!["respawn-pane"@, "-k"@, "-t"@, job.tmux_session@, "--"@]
                + string_views(job.command@),
    {
        let quoted = shell_quote(log_path);
        let pipe = concat("cat >> ", quoted.as_str());
        let mut first: Vec<String> = Vec::new();
        first.push(String::from_str("pipe-pane"));
        first.push(String::from_str("-t"));
        first.push(job.tmux_session.clone());
        first.push(String::from_str("-o"));
        first.push(pipe);
        let mut second: Vec<String> = Vec::new();
        second.push(String::from_str("respawn-pane"));
        second.push(String::from_str("-k"));
        second.push(String::from_str("-t"));
        second.push(job.tmux_session.clone());
        second.push(String::from_str("--"));
        let ghost head = string_views(second@);
        proof {
            assert(head =~= seq!["respawn-pane"@, "-k"@, "-t"@, job.tmux_session@, "--"@]);
        }
        let mut i: usize = 0;
        while i < job.command.len()
            invariant
                i <= job.command@.len(),
                string_views(second@) == head + string_views(job.command@).take(i as int),
            decreases job.command.len() - i,
        {
            let ghost prev = second@;
            second.push(job.command[i].clone());
            proof {
                assert(string_views(second@) =~= string_views(prev).push(job.command@[i as int]@));
                assert(string_views(job.command@).take(i + 1) =~= string_views(job.command@).take(
                    i as int,
                ).push(job.command@[i as int]@));
            }
            i = i + 1;
        }
        proof {
            assert(string_views(job.command@).take(job.command@.len() as int) =~= string_views(
                job.command@,
            ));
        }
        let mut r: Vec<Vec<String>> = Vec::new();
        r.push(first);
        r.push(second);
        proof {
            assert(string_views(r@[0]@) =~= seq![
                "pipe-pane"@,
                "-t"@,
                job.tmux_session@,
                "-o"@,
                "cat >> "@ + shell_quote_spec(log_path@),
            ]);
        }
        r
    }

    /// The tmux commands that type `input` into a job's pane, literally, and
    /// then press Enter when `enter` is set.
    pub fn send(&self, job: &Job, input: &str, enter: bool) -> (r: Vec<Vec<String>>)
        ensures
            r@.len() == (if enter { 2int } else { 1int }),
            string_views(r@[0]@) == seq![
                "send-keys"@,
                "-t"@,
                job.tmux_session@,
                "-l"@,
                "--"@,
                input@,
            ],
            enter ==> string_views(r@[1]@) == seq![
                "send-keys"@,
                "-t"@,
                job.tmux_session@,
                "Enter"@,
            ],
    {
        let mut typed: Vec<String> = Vec::new();
        typed.push(String::from_str("send-keys"));
        typed.push(String::from_str("-t"));
        typed.push(job.tmux_session.clone());
        typed.push(String::from_str("-l"));
        typed.push(String::from_str("--"));
        typed.push(String::from_str(input));
        let mut r: Vec<Vec<String>> = Vec::new();
        r.push(typed);
        proof {
            assert(string_views(r@[0]@) =~= seq![
                "send-keys"@,
                "-t"@,
                job.tmux_session@,
                "-l"@,
                "--"@,
                input@,
            ]);
        }
        if enter {
            let mut press: Vec<String> = Vec::new();
            press.push(String::from_str("send-keys"));
            press.push(String::from_str("-t"));
            press.push(job.tmux_session.clone());
            press.push(String::from_str("Enter"));
            r.push(press);
            proof {
                assert(string_views(r@[1]@) =~= seq![
                    "send-keys"@,
                    "-t"@,
                    job.tmux_session@,
                    "Enter"@,
                ]);
            }
        }
        r
    }

    /// The tmux command that sends Ctrl-C to a job's pane.
    pub fn interrupt(&self, job: &Job) -> (r: Vec<String>)
        ensures
            string_views(r@) == seq!["send-keys"@, "-t"@, job.tmux_session@, "C-c"@],
    {
        let mut r: Vec<String> = Vec::new();
        r.push(String::from_str("send-keys"));
        r.push(String::from_str("-t"));
        r.push(job.tmux_session.clone());
        r.push(String::from_str("C-c"));
        proof {
            assert(string_views(r@) =~= seq!["send-keys"@, "-t"@, job.tmux_session@, "C-c"@]);
        }
        r
    }

    /// The tmux command that ends a job's session.
    pub fn kill_command(&self, job: &Job) -> (r: Vec<String>)
        ensures
            string_views(r@) == seq!["kill-session"@, "-t"@, job.tmux_session@],
    {
        let mut r: Vec<String> = Vec::new();
        r.push(String::from_str("kill-session"));
        r.push(String::from_str("-t"));
        r.push(job.tmux_session.clone());
        proof {
            assert(string_views(r@) =~= seq!["kill-session"@, "-t"@, job.tmux_session@]);
        }
        r
    }

    /// The full tmux argument list that attaches the terminal to a job.
    pub fn attach(&self, job: &Job) -> (r: Vec<String>)
        ensures
            string_views(r@) == seq![
                "-L"@,
                self.tmux_socket@,
                "attach-session"@,
                "-t"@,
                job.tmux_session@,
            ],
    {
        let mut args: Vec<String> = Vec::new();
        args.push(String::from_str("attach-session"));
        args.push(String::from_str("-t"));
        args.push(job.tmux_session.clone());
        proof {
            assert(string_views(args@) =~= seq!["attach-session"@, "-t"@, job.tmux_session@]);
        }
        let r = self.tmux_args(args);
        proof {
            assert(string_views(r@) =~= seq![
                "-L"@,
                self.tmux_socket@,
                "attach-session"@,
                "-t"@,
                job.tmux_session@,
            ]);
        }
        r
    }

    /// The tmux commands that inspect a pane: whether its session exists, and
    /// the line that `parse_pane_output` reads.
    pub fn pane_queries(&self, session: &str) -> (r: Vec<Vec<String>>)
        ensures
            r@.len() == 2,
            string_views(r@[0]@) == seq!["has-session"@, "-t"@, session@],
            string_views(r@[1]@) == seq!["display-message"@, "-p"@, "-t"@, session@, pane_format()],
    {
        let mut has: Vec<String> = Vec::new();
        has.push(String::from_str("has-session"));
        has.push(String::from_str("-t"));
        has.push(String::from_str(session));
        let mut show: Vec<String> = Vec::new();
        show.push(String::from_str("display-message"));
        show.push(String::from_str("-p"));
        show.push(String::from_str("-t"));
        show.push(String::from_str(session));
        show.push(String::from_str("#{pane_dead}\t#{pane_dead_status}\t#{pane_pid}"));
        let mut r: Vec<Vec<String>> = Vec::new();
        r.push(has);
        r.push(show);
        proof {
            assert(string_views(r@[0]@) =~= seq!["has-session"@, "-t"@, session@]);
            assert(string_views(r@[1]@) =~= seq![
                "display-message"@,
                "-p"@,
                "-t"@,
                session@,
                pane_format(),
            ]);
        }
        r
    }
}

/// The error for a tmux command that failed with `stderr`: its trimmed text.
pub fn tmux_failure(stderr: &str) -> (e: JobError)
    ensures
        e matches JobError::Tmux(m) && m@ == trim_spec(stderr@),
{
    JobError::Tmux(trim(stderr))
}

/// Refuses a blank name, an empty command, or the name of a running job.
pub fn check_start(name: &str, command: &Vec<String>, existing: &Vec<Job>) -> (r: Result<(), JobError>)
    ensures
        blank(name@) ==> r == Err::<(), JobError>(JobError::EmptyName),
        !blank(name@) && command@.len() == 0 ==> r == Err::<(), JobError>(JobError::EmptyCommand),
        !blank(name@) && command@.len() > 0 && running_named(existing@, name@) ==> (r matches Err(
            JobError::DuplicateName(n),
        ) && n@ == name@),
        !blank(name@) && command@.len() > 0 && !running_named(existing@, name@) ==> r is Ok,
{
    if is_blank(name) {
        return Err(JobError::EmptyName);
    }
    if command.len() == 0 {
        return Err(JobError::EmptyCommand);
    }
    let mut i: usize = 0;
    while i < existing.len()
        invariant
            i <= existing@.len(),
            !blank(name@),
            command@.len() > 0,
            !running_named(existing@.take(i as int), name@),
        decreases existing.len() - i,
    {
        let job = &existing[i];
        if str_eq(job.name.as_str(), name) && job.state == JobState::Running {
            proof {
                assert(existing@[i as int] == *job);
            }
            return Err(JobError::DuplicateName(String::from_str(name)));
        }
        proof {
            let t = existing@.take(i as int);
            let u = existing@.take(i + 1);
            assert(u =~= t.push(*job));
            assert forall|k: int| 0 <= k < u.len() && #[trigger] u[k].name@ == name@ implies u[k].state
                != JobState::Running by {
                if k < i {
                    assert(u[k] == t[k]);
                }
            }
        }
        i = i + 1;
    }
    proof {
        assert(existing@.take(existing@.len() as int) =~= existing@);
    }
    Ok(())
}

/// `path` quoted for a POSIX shell (see `shell_quote_spec`).
pub fn shell_quote(path: &str) -> (q: String)
    ensures
        q@ == shell_quote_spec(path@),
{
    let ghost f = |c: char| if c == '\'' {
        "'\\''"@
    } else {
        seq![c]
    };
    let n = path.unicode_len();
    let mut body = String::new();
    let mut i: usize = 0;
    while i < n
        invariant
            n == path@.len(),
            i <= n,
            f == (|c: char| if c == '\'' {
                "'\\''"@
            } else {
                seq![c]
            }),
            body@ == path@.take(i as int).flat_map(f),
        decreases n - i,
    {
        let c = path.get_char(i);
        proof {
            crate::seqs::lemma_flat_map_push(path@.take(i as int), f, c);
            assert(path@.take(i + 1) =~= path@.take(i as int).push(c));
        }
        if c == '\'' {
            body.append("'\\''");
        } else {
            let one = path.substring_char(i, i + 1);
            proof {
                assert(one@ =~= seq![c]);
            }
            body.append(one);
        }
        i = i + 1;
    }
    proof {
        assert(path@.take(n as int) =~= path@);
    }
    let opened = concat("'", body.as_str());
    concat(opened.as_str(), "'")
}

/// The pane state that `display-message` output describes.
pub fn parse_pane_output(output: &str) -> (p: PaneState)
    ensures
        p == pane_from_output(output@),
{
    let trimmed = trim(output);
    let fields = split_on(trimmed.as_str(), '\t');
    proof {
        crate::paths::lemma_split_nonempty(trimmed@, '\t');
        reveal_strlit("1");
    }
    let dead = str_eq(fields[0].as_str(), "1");
    let exit_code = if fields.len() > 1 {
        parse_i32(fields[1].as_str())
    } else {
        None
    };
    let pid = if fields.len() > 2 {
        parse_u32(fields[2].as_str())
    } else {
        None
    };
    proof {
        assert(string_views(fields@)[0] == fields@[0]@);
        if fields.len() > 1 {
            assert(string_views(fields@)[1] == fields@[1]@);
        }
        if fields.len() > 2 {
            assert(string_views(fields@)[2] == fields@[2]@);
        }
    }
    PaneState { exists: true, dead, exit_code, pid }
}

/// The pane state of a session that tmux does not know.
pub fn missing_pane() -> (p: PaneState)
    ensures
        p == (PaneState { exists: false, dead: false, exit_code: None, pid: None }),
{
    PaneState { exists: false, dead: false, exit_code: None, pid: None }
}

/// `job` after its pane has been inspected at `now` (see `refreshed`).
pub fn refresh(job: Job, pane: PaneState, now: u64) -> (r: Job)
    ensures
        r == refreshed(job, pane, now),
{
    if job.state != JobState::Running {
        job
    } else if !pane.exists {
        Job { state: JobState::Lost, pid: None, finished_at_ms: Some(now), ..job }
    } else if pane.dead {
        Job {
            state: JobState::Exited,
            exit_code: pane.exit_code,
            pid: None,
            finished_at_ms: Some(now),
            ..job
        }
    } else {
        Job { pid: pane.pid, ..job }
    }
}

/// `job` after it was stopped at `now` (see `stopped`).
pub fn stop(job: Job, now: u64) -> (r: Job)
    ensures
        r == stopped(job, now),
{
    if job.state == JobState::Running {
        Job { state: JobState::Stopped, finished_at_ms: Some(now), pid: None, ..job }
    } else {
        job
    }
}

/// Jobs in the order they were created, ties kept in the order given.
pub fn order_jobs(jobs: Vec<Job>) -> (r: Vec<Job>)
    ensures
        r@ == sort_by_stamp(jobs@),
{
    sort_by_stamp_vec(jobs)
}

/// The job that `reference` names among a project's jobs: the last one with
/// that exact name, else the only one whose id starts with it.
pub fn resolve(jobs: &Vec<Job>, reference: &str) -> (r: Result<Job, JobError>)
    ensures
        ({
            let named = last_named(jobs@, reference@);
            let m = jobs_with_prefix(jobs@, reference@);
            &&& named matches Some(i) ==> (r matches Ok(j) && same_job(j, jobs@[i]))
            &&& named is None && m.len() == 0 ==> (r matches Err(JobError::NotFound(x)) && x@
                == reference@)
            &&& named is None && m.len() == 1 ==> (r matches Ok(j) && same_job(j, m[0]))
            &&& named is None && m.len() > 1 ==> (r matches Err(JobError::Ambiguous(x)) && x@
                == reference@)
        }),
{
    let mut k: usize = jobs.len();
    proof {
        assert(jobs@.take(jobs@.len() as int) =~= jobs@);
    }
    while k > 0 && !str_eq(jobs[k - 1].name.as_str(), reference)
        invariant
            k <= jobs@.len(),
            last_named(jobs@, reference@) == last_named(jobs@.take(k as int), reference@),
        decreases k,
    {
        proof {
            assert(jobs@.take(k as int).drop_last() =~= jobs@.take(k - 1));
        }
        k = k - 1;
    }
    proof {
        assert(jobs@.take(jobs@.len() as int) =~= jobs@);
    }
    if k > 0 {
        proof {
            assert(jobs@.take(k as int).last() == jobs@[k - 1]);
        }
        return Ok(jobs[k - 1].copied());
    }
    let ghost pred = |j: Job| reference@.is_prefix_of(hyphenated_hex(j.id));
    let mut count: usize = 0;
    let mut first: usize = 0;
    let mut i: usize = 0;
    while i < jobs.len()
        invariant
            i <= jobs@.len(),
            pred == (|j: Job| reference@.is_prefix_of(hyphenated_hex(j.id))),
            count == jobs@.take(i as int).filter(pred).len(),
            count > 0 ==> first < jobs@.len() && jobs@[first as int] == jobs@.take(i as int).filter(
                pred,
            )[0],
        decreases jobs.len() - i,
    {
        let job = &jobs[i];
        let hit = id_has_prefix(job.id, reference);
        proof {
            assert(jobs@.take(i + 1) =~= jobs@.take(i as int).push(*job));
            crate::seqs::lemma_filter_push(jobs@.take(i as int), pred, *job);
        }
        if hit {
            if count == 0 {
                first = i;
            }
            count = count + 1;
        }
        i = i + 1;
    }
    proof {
        assert(jobs@.take(jobs@.len() as int) =~= jobs@);
    }
    if count == 0 {
        Err(JobError::NotFound(String::from_str(reference)))
    } else if count == 1 {
        Ok(jobs[first].copied())
    } else {
        Err(JobError::Ambiguous(String::from_str(reference)))
    }
}

/// Law: a start is refused as a duplicate exactly when some existing job has
/// the requested name and is running; running jobs of other names, and
/// finished jobs of the same name, never block it.
pub proof fn law_only_a_running_namesake_blocks_a_start(jobs: Seq<Job>, name: Seq<char>)
    ensures
        running_named(jobs, name) ==> exists|i: int|
            0 <= i < jobs.len() && jobs[i].name@ == name && jobs[i].state == JobState::Running,
        (forall|i: int| 0 <= i < jobs.len() ==> jobs[i].name@ != name || jobs[i].state
            != JobState::Running) ==> !running_named(jobs, name),
        forall|i: int|
            0 <= i < jobs.len() && jobs[i].name@ == name && jobs[i].state == JobState::Running
                ==> running_named(jobs, name),
{
}

/// Law: a job that is no longer running keeps its record through refreshes
/// and stops.
pub proof fn law_settled_job_unchanged(job: Job, pane: PaneState, now: u64)
    requires
        job.state != JobState::Running,
    ensures
        refreshed(job, pane, now) == job,
        stopped(job, now) == job,
{
}

/// Law: a refresh or a stop only ever moves a job out of `Running`, and a job
/// that leaves `Running` gets its finishing time and loses its pid.
pub proof fn law_refresh_and_stop_finish(job: Job, pane: PaneState, now: u64, later: u64)
    requires
        job.state == JobState::Running,
    ensures
        refreshed(job, pane, now).state != JobState::Running ==> refreshed(job, pane, now).pid is None
            && refreshed(job, pane, now).finished_at_ms == Some(now),
        stopped(job, now).state == JobState::Stopped,
        stopped(job, now).pid is None,
        stopped(stopped(job, now), later) == stopped(job, now),
        refreshed(stopped(job, now), pane, later) == stopped(job, now),
{
}

} // verus!

use paj::background_agents::{
    branch_exists_args, check_request, first_line, implementation_prompt, order_agents,
    record_spawn, request_checks, resolve, short_id, spawn_command, stop_decision,
    with_job_state, worktree_add_args, worktree_remove_args, BackgroundAgent,
    BackgroundAgentError, BackgroundAgentManager, SpawnRequest,
};
use paj::jobs::{Job, JobError, JobState};
use paj::project::Project;

const ID: u128 = 0x0190_a1b2_c3d4_7e5f_8a9b_0c1d_2e3f_4a5b;
const PARENT: u128 = 0x0190_0000_0000_7000_8000_0000_0000_0001;

fn project() -> Project {
    Project {
        id: "project-id".to_owned(),
        root: "/project".to_owned(),
    }
}

fn manager() -> BackgroundAgentManager {
    BackgroundAgentManager::new(
        "/runtime/paj".to_owned(),
        "/state/paj".to_owned(),
        "paj-test".to_owned(),
        "pi".to_owned(),
    )
}

fn request() -> SpawnRequest {
    SpawnRequest {
        name: None,
        role: "implementation".to_owned(),
        parent_session_id: None,
        branch: "feature/test".to_owned(),
        worktree: None,
        prompt: "Implement the test\nwith care".to_owned(),
        model: None,
        thinking: None,
    }
}

fn job(id: u128, state: JobState) -> Job {
    Job {
        id,
        name: "agent-x".to_owned(),
        owner_session_id: None,
        project_id: "project-id".to_owned(),
        project_root: "/project".to_owned(),
        cwd: "/w".to_owned(),
        command: vec!["pi".to_owned()],
        tmux_session: "paj-job-x".to_owned(),
        state,
        exit_code: None,
        pid: None,
        created_at_ms: 1,
        finished_at_ms: None,
    }
}

fn agent(id: u128, name: &str, created_at_ms: u64) -> BackgroundAgent {
    BackgroundAgent {
        id,
        name: name.to_owned(),
        role: "implementation".to_owned(),
        parent_session_id: None,
        project_id: "project-id".to_owned(),
        project_root: "/project".to_owned(),
        branch: "b".to_owned(),
        worktree: "/w".to_owned(),
        job_id: 9,
        job_name: format!("agent-{name}"),
        state: JobState::Running,
        prompt_path: "/p".to_owned(),
        created_at_ms,
    }
}

#[test]
fn requests_need_role_branch_and_prompt() {
    let no_role = SpawnRequest {
        role: "".to_owned(),
        branch: "".to_owned(),
        ..request()
    };
    let no_branch = SpawnRequest {
        branch: " ".to_owned(),
        ..request()
    };
    let no_prompt = SpawnRequest {
        prompt: "\n".to_owned(),
        ..request()
    };

    assert_eq!(check_request(&no_role), Err(BackgroundAgentError::EmptyRole));
    assert_eq!(check_request(&no_branch), Err(BackgroundAgentError::EmptyBranch));
    assert_eq!(check_request(&no_prompt), Err(BackgroundAgentError::EmptyPrompt));
    assert_eq!(check_request(&request()), Ok(()));
    assert_eq!(
        manager().plan_spawn(&project(), no_branch, ID),
        Err(BackgroundAgentError::EmptyBranch)
    );
}

#[test]
fn implementation_prompt_names_worktree_branch_and_parent() {
    assert_eq!(
        implementation_prompt("a1", "main", "/w", None, "Do it"),
        "You are background implementation agent a1.\nWork only in /w on branch main.\nImplement the task end-to-end, run relevant checks, and commit coherent chunks.\nNever modify the parent worktree.\nReport completion in your final response.\n\nTask:\nDo it"
    );
    assert_eq!(
        implementation_prompt("a1", "main", "/w", Some(PARENT), "Do it"),
        "You are background implementation agent a1.\nWork only in /w on branch main.\nImplement the task end-to-end, run relevant checks, and commit coherent chunks.\nNever modify the parent worktree.\nWhen finished, send a concise completion message to parent session 01900000-0000-7000-8000-000000000001.\n\nTask:\nDo it"
    );
}

#[test]
fn task_summaries_take_the_first_line_up_to_two_hundred_characters() {
    assert_eq!(first_line("one\ntwo"), "one");
    assert_eq!(first_line(""), "");
    let long = "x".repeat(250);
    assert_eq!(first_line(&long), "x".repeat(200));
    assert_eq!(short_id(ID), "2e3f4a5b");
}

#[test]
fn spawn_command_runs_pi_with_the_agent_environment() {
    let with_model = SpawnRequest {
        model: Some("big".to_owned()),
        thinking: Some("low".to_owned()),
        ..request()
    };

    assert_eq!(
        spawn_command("pi", &with_model, "implementation-2e3f4a5b", "PROMPT"),
        vec![
            "env",
            "PAJ_ROLE=implementation",
            "PAJ_AGENT_NAME=implementation-2e3f4a5b",
            "PAJ_TASK=Implement the test",
            "pi",
            "--name",
            "implementation-2e3f4a5b",
            "--model",
            "big",
            "--thinking",
            "low",
            "PROMPT",
        ]
    );
}

#[test]
fn plan_spawn_derives_names_and_paths_from_the_identifier() {
    let plan = manager()
        .plan_spawn(&project(), request(), ID)
        .expect("spawn should be planned");

    assert_eq!(plan.id, ID);
    assert_eq!(plan.name, "implementation-2e3f4a5b");
    assert_eq!(plan.worktree, "/state/paj/worktrees/project-id/2e3f4a5b");
    assert_eq!(
        plan.agent_dir,
        "/state/paj/agents/project-id/0190a1b2-c3d4-7e5f-8a9b-0c1d2e3f4a5b"
    );
    assert_eq!(
        plan.prompt_path,
        "/state/paj/agents/project-id/0190a1b2-c3d4-7e5f-8a9b-0c1d2e3f4a5b/prompt.md"
    );
    assert_eq!(plan.job_name, "agent-implementation-2e3f4a5b");
    assert_eq!(
        plan.prompt,
        implementation_prompt(
            "implementation-2e3f4a5b",
            "feature/test",
            "/state/paj/worktrees/project-id/2e3f4a5b",
            None,
            "Implement the test\nwith care"
        )
    );
    assert_eq!(plan.command.last(), Some(&plan.prompt));

    let named = SpawnRequest {
        name: Some("helper".to_owned()),
        worktree: Some("/elsewhere".to_owned()),
        ..request()
    };
    let plan = manager()
        .plan_spawn(&project(), named, ID)
        .expect("spawn should be planned");
    assert_eq!(plan.name, "helper");
    assert_eq!(plan.worktree, "/elsewhere");
    assert_eq!(plan.job_name, "agent-helper");
}

#[test]
fn git_arguments_for_worktrees() {
    assert_eq!(
        request_checks("feature/x"),
        vec![
            vec!["check-ref-format", "--branch", "feature/x"],
            vec!["rev-parse", "--show-toplevel"],
        ]
    );
    assert_eq!(
        branch_exists_args("feature/x"),
        vec!["show-ref", "--verify", "--quiet", "refs/heads/feature/x"]
    );
    assert_eq!(
        worktree_add_args("b", "/w", true),
        vec!["worktree", "add", "/w", "b"]
    );
    assert_eq!(
        worktree_add_args("b", "/w", false),
        vec!["worktree", "add", "-b", "b", "/w", "HEAD"]
    );
    assert_eq!(
        worktree_remove_args("/w", true),
        vec!["worktree", "remove", "--force", "/w"]
    );
    assert_eq!(worktree_remove_args("/w", false), vec!["worktree", "remove", "/w"]);
}

#[test]
fn spawned_agents_record_their_job() {
    let plan = manager()
        .plan_spawn(&project(), request(), ID)
        .expect("spawn should be planned");
    let started = job(77, JobState::Running);

    let recorded = record_spawn(plan, &project(), &started, 12);

    assert_eq!(recorded.id, ID);
    assert_eq!(recorded.job_id, 77);
    assert_eq!(recorded.job_name, "agent-x");
    assert_eq!(recorded.state, JobState::Running);
    assert_eq!(recorded.created_at_ms, 12);
    assert_eq!(recorded.project(), project());
}

#[test]
fn agent_state_follows_its_job() {
    let a = agent(1, "a", 1);

    assert_eq!(
        with_job_state(a.clone(), &Ok(job(9, JobState::Exited))).map(|a| a.state),
        Ok(JobState::Exited)
    );
    assert_eq!(
        with_job_state(a.clone(), &Err(JobError::NotFound("x".to_owned()))).map(|a| a.state),
        Ok(JobState::Lost)
    );
    assert_eq!(
        with_job_state(a, &Err(JobError::Tmux("boom".to_owned()))),
        Err(BackgroundAgentError::Job(JobError::Tmux("boom".to_owned())))
    );
    assert_eq!(stop_decision(&Ok(job(9, JobState::Running))), Ok(true));
    assert_eq!(
        stop_decision(&Err(JobError::NotFound("x".to_owned()))),
        Ok(false)
    );
    assert_eq!(
        stop_decision(&Err(JobError::EmptyName)),
        Err(BackgroundAgentError::Job(JobError::EmptyName))
    );
}

#[test]
fn agents_resolve_by_name_or_id_prefix() {
    let first = agent(0xaaa0 << 112, "helper", 1);
    let second = agent(0xaaa1 << 112, "other", 2);
    let agents = vec![first.clone(), second.clone()];

    assert_eq!(resolve(&agents, "helper"), Ok(first));
    assert_eq!(resolve(&agents, "aaa1"), Ok(second));
    assert_eq!(
        resolve(&agents, "aaa"),
        Err(BackgroundAgentError::Ambiguous("aaa".to_owned()))
    );
    assert_eq!(
        resolve(&agents, "zzz"),
        Err(BackgroundAgentError::NotFound("zzz".to_owned()))
    );
}

#[test]
fn agents_are_listed_by_creation_time() {
    let a = agent(1, "a", 5);
    let b = agent(2, "b", 1);
    let c = agent(3, "c", 5);

    assert_eq!(order_agents(vec![a.clone(), b.clone(), c.clone()]), vec![b, a, c]);
}

#[test]
fn manager_paths_live_under_the_state_directory() {
    let m = manager();

    assert_eq!(m.jobs.root, "/runtime/paj");
    assert_eq!(m.jobs.tmux_socket, "paj-test");
    assert_eq!(m.project_agents_dir("p"), "/state/paj/agents/p");
    assert_eq!(m.auto_worktree(&project(), ID), "/state/paj/worktrees/project-id/2e3f4a5b");
}

#[test]
fn fresh_spawns_get_a_time_ordered_identifier() {
    let plan = manager()
        .plan_new_spawn(&project(), request())
        .expect("spawn should be planned");

    assert_eq!(uuid::Uuid::from_u128(plan.id).get_version_num(), 7);
    assert_eq!(plan.name, format!("implementation-{}", short_id(plan.id)));
    assert_eq!(
        manager().plan_new_spawn(&project(), SpawnRequest { role: " ".to_owned(), ..request() }),
        Err(BackgroundAgentError::EmptyRole)
    );
}

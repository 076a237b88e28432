use paj::jobs::{
    check_start, missing_pane, order_jobs, parse_pane_output, refresh, resolve, shell_quote, stop,
    tmux_failure,
    Job, JobError, JobManager, JobState, PaneState,
};
use paj::project::Project;
use uuid::Uuid;

fn project() -> Project {
    Project {
        id: "project-id".to_owned(),
        root: "/project".to_owned(),
    }
}

fn strings(items: &[&str]) -> Vec<String> {
    items.iter().map(|item| item.to_string()).collect()
}

fn job(id: u128, name: &str, state: JobState, created_at_ms: u64) -> Job {
    Job {
        id,
        name: name.to_owned(),
        owner_session_id: None,
        project_id: "project-id".to_owned(),
        project_root: "/project".to_owned(),
        cwd: "/project".to_owned(),
        command: strings(&["sleep", "60"]),
        tmux_session: format!("paj-job-{:032x}", id),
        state,
        exit_code: None,
        pid: None,
        created_at_ms,
        finished_at_ms: None,
    }
}

fn manager() -> JobManager {
    JobManager::new("/runtime/paj".to_owned(), "paj-test".to_owned())
}

#[test]
fn start_records_a_running_job_with_a_private_session_name() {
    let started = manager()
        .start(
            &project(),
            "echo".to_owned(),
            Some(7),
            "/project/sub".to_owned(),
            strings(&["printf", "hello"]),
            &Vec::new(),
            42,
        )
        .expect("job should start");

    assert_eq!(started.name, "echo");
    assert_eq!(started.owner_session_id, Some(7));
    assert_eq!(started.project_id, "project-id");
    assert_eq!(started.cwd, "/project/sub");
    assert_eq!(started.command, strings(&["printf", "hello"]));
    assert_eq!(started.state, JobState::Running);
    assert_eq!(started.created_at_ms, 42);
    assert_eq!(started.finished_at_ms, None);
    assert_eq!(
        started.tmux_session,
        format!("paj-job-{}", Uuid::from_u128(started.id).simple())
    );
    assert_eq!(Uuid::from_u128(started.id).get_version_num(), 7);
}

#[test]
fn start_rejects_blank_names_empty_commands_and_running_duplicates() {
    let existing = vec![job(1, "server", JobState::Running, 1)];

    assert_eq!(
        check_start(" \t", &strings(&["ls"]), &existing),
        Err(JobError::EmptyName)
    );
    assert_eq!(
        check_start("build", &Vec::new(), &existing),
        Err(JobError::EmptyCommand)
    );
    assert_eq!(
        check_start("server", &strings(&["ls"]), &existing),
        Err(JobError::DuplicateName("server".to_owned()))
    );
    let finished = vec![job(1, "server", JobState::Exited, 1)];
    assert_eq!(check_start("server", &strings(&["ls"]), &finished), Ok(()));
}

#[test]
fn job_paths_are_nested_under_the_project() {
    let job = job(1, "echo", JobState::Running, 1);

    assert_eq!(
        manager().job_dir("project-id", 1),
        "/runtime/paj/projects/project-id/jobs/00000000-0000-0000-0000-000000000001"
    );
    assert_eq!(
        manager().log_path(&job),
        "/runtime/paj/projects/project-id/jobs/00000000-0000-0000-0000-000000000001/output.log"
    );
}

#[test]
fn tmux_commands_use_the_private_socket() {
    let manager = manager();
    let job = job(1, "echo", JobState::Running, 1);

    assert_eq!(
        manager.tmux_args(strings(&["kill-session", "-t", "x"])),
        strings(&["-L", "paj-test", "kill-session", "-t", "x"])
    );
    let setup = manager.setup_commands(&job);
    assert_eq!(
        setup[0],
        strings(&["new-session", "-d", "-s", &job.tmux_session, "-c", "/project"])
    );
    assert_eq!(
        setup[1],
        strings(&["set-option", "-w", "-t", &job.tmux_session, "remain-on-exit", "on"])
    );
    let launch = manager.launch_commands(&job, "/tmp/it's.log");
    assert_eq!(
        launch[0],
        strings(&["pipe-pane", "-t", &job.tmux_session, "-o", "cat >> '/tmp/it'\\''s.log'"])
    );
    assert_eq!(
        launch[1],
        strings(&["respawn-pane", "-k", "-t", &job.tmux_session, "--", "sleep", "60"])
    );
}

#[test]
fn shell_quote_escapes_single_quotes() {
    assert_eq!(shell_quote("plain"), "'plain'");
    assert_eq!(shell_quote("it's"), "'it'\\''s'");
    assert_eq!(shell_quote(""), "''");
}

#[test]
fn pane_output_is_parsed_into_state() {
    assert_eq!(
        parse_pane_output("0\t\t123\n"),
        PaneState {
            exists: true,
            dead: false,
            exit_code: None,
            pid: Some(123)
        }
    );
    assert_eq!(
        parse_pane_output("1\t-2\t77"),
        PaneState {
            exists: true,
            dead: true,
            exit_code: Some(-2),
            pid: Some(77)
        }
    );
    assert_eq!(
        parse_pane_output("1"),
        PaneState {
            exists: true,
            dead: true,
            exit_code: None,
            pid: None
        }
    );
}

#[test]
fn refresh_moves_running_jobs_to_their_final_state() {
    let running = job(1, "echo", JobState::Running, 1);

    let lost = refresh(running.clone(), missing_pane(), 9);
    assert_eq!(lost.state, JobState::Lost);
    assert_eq!(lost.finished_at_ms, Some(9));

    let exited = refresh(running.clone(), parse_pane_output("1\t3\t10"), 9);
    assert_eq!(exited.state, JobState::Exited);
    assert_eq!(exited.exit_code, Some(3));
    assert_eq!(exited.pid, None);
    assert_eq!(exited.finished_at_ms, Some(9));

    let alive = refresh(running, parse_pane_output("0\t\t55"), 9);
    assert_eq!(alive.state, JobState::Running);
    assert_eq!(alive.pid, Some(55));
    assert_eq!(alive.finished_at_ms, None);
}

#[test]
fn stop_terminates_running_job() {
    let stopped = stop(job(1, "sleep", JobState::Running, 1), 5);

    assert_eq!(stopped.state, JobState::Stopped);
    assert_eq!(stopped.finished_at_ms, Some(5));
    assert_eq!(stopped.pid, None);
}

#[test]
fn settled_jobs_are_left_alone() {
    let exited = Job {
        exit_code: Some(0),
        finished_at_ms: Some(3),
        ..job(1, "echo", JobState::Exited, 1)
    };

    assert_eq!(refresh(exited.clone(), missing_pane(), 9), exited);
    assert_eq!(stop(exited.clone(), 9), exited);
    let stopped = stop(job(2, "sleep", JobState::Running, 1), 5);
    assert_eq!(stop(stopped.clone(), 8), stopped);
}

#[test]
fn resolve_prefers_the_last_exact_name_then_an_id_prefix() {
    let first = job(0xabc0 << 112, "echo", JobState::Exited, 1);
    let second = job(0xabc1 << 112, "echo", JobState::Running, 2);
    let other = job(0xdef0 << 112, "server", JobState::Running, 3);
    let jobs = vec![first.clone(), second.clone(), other.clone()];

    assert_eq!(resolve(&jobs, "echo"), Ok(second));
    assert_eq!(resolve(&jobs, "def"), Ok(other));
    assert_eq!(
        resolve(&jobs, "abc"),
        Err(JobError::Ambiguous("abc".to_owned()))
    );
    assert_eq!(
        resolve(&jobs, "missing"),
        Err(JobError::NotFound("missing".to_owned()))
    );
    assert_eq!(resolve(&jobs, "abc0"), Ok(first));
}

#[test]
fn jobs_are_listed_by_creation_time() {
    let a = job(1, "a", JobState::Running, 30);
    let b = job(2, "b", JobState::Running, 10);
    let c = job(3, "c", JobState::Running, 30);

    let ordered = order_jobs(vec![a.clone(), b.clone(), c.clone()]);

    assert_eq!(ordered, vec![b, a, c]);
}

#[test]
fn send_interrupt_and_attach_address_the_job_session() {
    let manager = manager();
    let job = job(1, "shell", JobState::Running, 1);

    assert_eq!(
        manager.send(&job, "ls -la", true),
        vec![
            strings(&["send-keys", "-t", &job.tmux_session, "-l", "--", "ls -la"]),
            strings(&["send-keys", "-t", &job.tmux_session, "Enter"]),
        ]
    );
    assert_eq!(
        manager.send(&job, "y", false),
        vec![strings(&["send-keys", "-t", &job.tmux_session, "-l", "--", "y"])]
    );
    assert_eq!(
        manager.interrupt(&job),
        strings(&["send-keys", "-t", &job.tmux_session, "C-c"])
    );
    assert_eq!(
        manager.attach(&job),
        strings(&["-L", "paj-test", "attach-session", "-t", &job.tmux_session])
    );
}

#[test]
fn pane_queries_ask_for_existence_then_state() {
    assert_eq!(
        manager().pane_queries("s"),
        vec![
            strings(&["has-session", "-t", "s"]),
            strings(&[
                "display-message",
                "-p",
                "-t",
                "s",
                "#{pane_dead}\t#{pane_dead_status}\t#{pane_pid}"
            ]),
        ]
    );
}

#[test]
fn tmux_failures_carry_the_trimmed_error_text() {
    assert_eq!(
        tmux_failure("  no server running\n"),
        JobError::Tmux("no server running".to_owned())
    );
}

#[test]
fn kill_command_names_the_job_session() {
    let job = job(1, "shell", JobState::Running, 1);

    assert_eq!(
        manager().kill_command(&job),
        strings(&["kill-session", "-t", &job.tmux_session])
    );
}

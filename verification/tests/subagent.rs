use paj::subagent::{
    gc_after_kill, gc_first_step, gc_removed, has_session_args, is_listed, kill_session_args, order_records,
    GcStep, SpawnError, SpawnRecord,
    SpawnStore,
};
use uuid::Uuid;

fn process_is_alive(pid: u32) -> bool {
    std::path::Path::new("/proc").join(pid.to_string()).exists()
}

fn store() -> SpawnStore {
    SpawnStore::new("/runtime/paj".to_owned())
}

fn create(parent: &str, pid: u32, task: &str) -> Result<SpawnRecord, SpawnError> {
    store().create(
        parent.to_owned(),
        pid,
        "/project".to_owned(),
        "/project".to_owned(),
        task.to_owned(),
        1_000,
    )
}

const ID: u128 = 0x0190_a1b2_c3d4_7e5f_8a9b_0c1d_2e3f_4a5b;

#[test]
fn gc_removes_records_owned_by_a_dead_parent() {
    let record = create("dead-parent", u32::MAX, "task").expect("record should be created");
    let parent_alive = process_is_alive(record.parent_pid);

    assert_eq!(gc_first_step(true, parent_alive), GcStep::Kill);
    assert_eq!(gc_after_kill(true, false), GcStep::Remove);
    assert_eq!(
        gc_removed(vec![record.clone()], &vec![true], &vec![parent_alive], &vec![true], &vec![false]),
        vec![record]
    );
}

#[test]
fn gc_removes_a_missing_tmux_session_even_with_a_live_parent() {
    let record = create("parent", 1, "task").expect("record should be created");

    assert!(process_is_alive(record.parent_pid));
    assert_eq!(gc_first_step(false, true), GcStep::Remove);
    assert_eq!(gc_first_step(false, false), GcStep::Remove);
    assert_eq!(
        gc_removed(vec![record.clone()], &vec![false], &vec![true], &vec![false], &vec![false]),
        vec![record]
    );
}

#[test]
fn gc_keeps_live_parents_and_sessions_that_survive_a_kill() {
    let live = create("parent", 1, "a").expect("record should be created");
    let orphan = create("gone", u32::MAX, "b").expect("record should be created");
    let stubborn = create("gone", u32::MAX, "c").expect("record should be created");
    let missing = create("parent", 1, "d").expect("record should be created");

    let removed = gc_removed(
        vec![live, orphan.clone(), stubborn, missing.clone()],
        &vec![true, true, true, false],
        &vec![true, false, false, true],
        &vec![false, true, false, false],
        &vec![true, false, true, false],
    );

    assert_eq!(removed, vec![orphan, missing]);
}

#[test]
fn gc_keeps_a_running_session_with_a_live_parent() {
    assert_eq!(gc_first_step(true, true), GcStep::Keep);
    assert_eq!(gc_after_kill(false, true), GcStep::Keep);
    assert_eq!(gc_after_kill(false, false), GcStep::Remove);
}

#[test]
fn create_rejects_an_empty_task() {
    assert_eq!(create("parent", 1, "  \n"), Err(SpawnError::EmptyTask));
}

#[test]
fn created_records_are_named_from_their_identifier() {
    let record = store()
        .record_for(
            "parent".to_owned(),
            12,
            "/project/sub".to_owned(),
            "/project".to_owned(),
            "task".to_owned(),
            ID,
            5,
        )
        .expect("record should be created");

    assert_eq!(record.spawn_id, ID);
    assert_eq!(record.name, "agent-2e3f4a5b");
    assert_eq!(record.tmux_name, "paj-0c1d2e3f4a5b");
    assert_eq!(record.parent_pi_session_id, "parent");
    assert_eq!(record.parent_pid, 12);
    assert_eq!(record.cwd, "/project/sub");
    assert_eq!(record.project_root, "/project");
    assert_eq!(record.task, "task");
    assert_eq!(record.created_at_ms, 5);
    assert_eq!(record.child_pi_session_id, None);
    assert_eq!(record.registered_at_ms, None);
}

#[test]
fn fresh_records_get_a_time_ordered_identifier() {
    let record = create("parent", 1, "task").expect("record should be created");
    let compact = Uuid::from_u128(record.spawn_id).simple().to_string();

    assert_eq!(Uuid::from_u128(record.spawn_id).get_version_num(), 7);
    assert_eq!(record.name, format!("agent-{}", &compact[24..]));
    assert_eq!(record.tmux_name, format!("paj-{}", &compact[20..]));
}

#[test]
fn bind_records_child_identity_and_name() {
    let record = create("parent", 1, "task").expect("record should be created");
    let paj_id = Uuid::now_v7().as_u128();

    let bound = store().bind(record.clone(), "child-pi".to_owned(), paj_id, "planner".to_owned(), 9);

    assert_eq!(bound.child_pi_session_id.as_deref(), Some("child-pi"));
    assert_eq!(bound.child_paj_session_id, Some(paj_id));
    assert_eq!(bound.name, "planner");
    assert_eq!(bound.registered_at_ms, Some(9));
    assert_eq!(bound.spawn_id, record.spawn_id);
    assert_eq!(bound.task, record.task);
}

#[test]
fn records_are_scoped_by_stable_parent_pi_session_id() {
    let first = create("parent-one", 1, "first task").expect("first record should be created");
    let second = create("parent-two", 1, "second task").expect("second record should be created");

    let listed: Vec<SpawnRecord> = vec![first.clone(), second]
        .into_iter()
        .filter(|record| is_listed(record, Some("parent-one"), false, false))
        .collect();

    assert_eq!(listed, vec![first.clone()]);
    assert!(is_listed(&first, None, false, false));
    assert!(!is_listed(&first, None, true, false));
    assert!(is_listed(&first, Some("parent-one"), true, true));
}

#[test]
fn record_paths_live_under_the_runtime_directory() {
    assert_eq!(store().records_dir(), "/runtime/paj/subagents");
    assert_eq!(
        store().path(ID),
        "/runtime/paj/subagents/0190a1b2-c3d4-7e5f-8a9b-0c1d2e3f4a5b.json"
    );
    assert_eq!(
        store().launcher_dir(ID),
        "/runtime/paj/subagent-launchers/0190a1b2-c3d4-7e5f-8a9b-0c1d2e3f4a5b"
    );
}

#[test]
fn records_are_listed_by_creation_time() {
    let make = |id: u128, at: u64| {
        store()
            .record_for(
                "p".to_owned(),
                1,
                "/c".to_owned(),
                "/c".to_owned(),
                "t".to_owned(),
                id,
                at,
            )
            .expect("record should be created")
    };
    let a = make(1, 20);
    let b = make(2, 10);
    let c = make(3, 20);

    assert_eq!(order_records(vec![a.clone(), b.clone(), c.clone()]), vec![b, a, c]);
}

#[test]
fn tmux_calls_use_the_private_server_and_exact_names() {
    assert_eq!(
        has_session_args("paj-0c1d2e3f4a5b"),
        vec!["-L", "paj", "has-session", "-t", "=paj-0c1d2e3f4a5b"]
    );
    assert_eq!(
        kill_session_args("paj-0c1d2e3f4a5b"),
        vec!["-L", "paj", "kill-session", "-t", "=paj-0c1d2e3f4a5b"]
    );
}

use paj::project::Project;
use paj::registry::{
    check_agent_name, duration_ms, gc_candidates, is_message_file, list_live, message_for,
    order_messages, order_sessions, project_selected, resolve_live_session, session_is_stale,
    acknowledge, Registration, Registry, RegistryError, Session, SessionChange,
};
use uuid::Uuid;

fn project() -> Project {
    Project {
        id: "project-id".to_owned(),
        root: "/project".to_owned(),
    }
}

fn registration(pid: u32) -> Registration {
    Registration {
        pid,
        pi_session_id: Some("pi-session-id".to_owned()),
        name: Some("primary".to_owned()),
        role: "primary".to_owned(),
        parent_pi_session_id: None,
        task: None,
        cwd: "/project".to_owned(),
        branch: Some("master".to_owned()),
    }
}

fn process_is_alive(pid: u32) -> bool {
    std::path::Path::new("/proc").join(pid.to_string()).exists()
}

const ID: u128 = 0x0190_a1b2_c3d4_7e5f_8a9b_0c1d_2e3f_4a5b;

#[test]
fn list_live_excludes_session_with_dead_process() {
    let registry = Registry::new("/runtime/paj".to_owned());
    let session = registry.register(&project(), registration(u32::MAX), 1_000);
    let alive = vec![process_is_alive(session.pid)];

    let sessions = list_live(vec![session], &alive, 1_000, duration_ms(60_000));

    assert!(sessions.is_empty());
}

#[test]
fn gc_removes_session_with_dead_process() {
    let registry = Registry::new("/runtime/paj".to_owned());
    let registered = registry.register(&project(), registration(u32::MAX), 1_000);
    let alive = vec![process_is_alive(registered.pid)];

    let removed = gc_candidates(vec![registered.clone()], &alive, 2_000, u64::MAX);

    assert_eq!(removed, vec![registered]);
}

#[test]
fn registered_session_has_defaults_and_bridge_socket() {
    let registry = Registry::new("/runtime/paj".to_owned());
    let mut unnamed = registration(42);
    unnamed.name = None;

    let session = registry.session_for(&project(), unnamed, ID, 7);

    assert_eq!(session.name, "agent-2e3f4a5b");
    assert_eq!(session.status, "idle");
    assert_eq!(session.started_at_ms, 7);
    assert_eq!(session.last_heartbeat_ms, 7);
    assert_eq!(
        session.bridge_socket.as_deref(),
        Some("/runtime/paj/projects/project-id/sessions/0190a1b2-c3d4-7e5f-8a9b-0c1d2e3f4a5b/bridge.sock")
    );
    assert_eq!(session.project_root, "/project");
}

#[test]
fn register_gives_distinct_default_names() {
    let registry = Registry::new("/runtime/paj".to_owned());
    let mut first_registration = registration(1);
    first_registration.name = None;
    let mut second_registration = registration(1);
    second_registration.name = None;

    let first = registry.register(&project(), first_registration, 1);
    let second = registry.register(&project(), second_registration, 1);

    assert_ne!(first.name, second.name);
    assert!(first.name.starts_with("agent-"));
    assert_eq!(Uuid::from_u128(first.id).get_version_num(), 7);
    assert_eq!(Uuid::from_u128(first.id).get_variant(), uuid::Variant::RFC4122);
}

#[test]
fn session_directories_are_nested_under_the_project() {
    let registry = Registry::new("/runtime/paj/".to_owned());

    assert_eq!(registry.projects_dir(), "/runtime/paj/projects");
    assert_eq!(
        registry.session_dir("p", ID),
        "/runtime/paj/projects/p/sessions/0190a1b2-c3d4-7e5f-8a9b-0c1d2e3f4a5b"
    );
    assert_eq!(
        registry.message_path("p", ID, 1),
        "/runtime/paj/projects/p/sessions/0190a1b2-c3d4-7e5f-8a9b-0c1d2e3f4a5b/inbox/00000000-0000-0000-0000-000000000001.json"
    );
}

#[test]
fn rename_updates_name_and_rejects_blank_names() {
    let registry = Registry::new("/r".to_owned());
    let session = registry.session_for(&project(), registration(1), ID, 1);

    let renamed = registry
        .rename(session.clone(), "planner".to_owned())
        .expect("session should be renamed");
    assert_eq!(renamed.name, "planner");
    assert_eq!(renamed.id, session.id);

    assert_eq!(
        registry.rename(session, "  ".to_owned()),
        Err(RegistryError::InvalidAgentName)
    );
    assert_eq!(check_agent_name(" \n\t"), Err(RegistryError::InvalidAgentName));
    assert_eq!(check_agent_name(" x "), Ok(()));
}

#[test]
fn status_accepts_idle_and_busy_only() {
    let registry = Registry::new("/r".to_owned());
    let session = registry.session_for(&project(), registration(1), ID, 1);

    let busy = registry
        .set_status(session.clone(), "busy".to_owned())
        .expect("status should update");
    assert_eq!(busy.status, "busy");

    assert_eq!(
        registry.set_status(session, "working".to_owned()),
        Err(RegistryError::InvalidSessionStatus("working".to_owned()))
    );
}

#[test]
fn heartbeat_moves_only_the_heartbeat() {
    let registry = Registry::new("/r".to_owned());
    let session = registry.session_for(&project(), registration(1), ID, 1);

    let updated = registry.heartbeat(session.clone(), 99);

    assert_eq!(updated.last_heartbeat_ms, 99);
    assert_eq!(updated.started_at_ms, 1);
    assert_eq!(Session { last_heartbeat_ms: 1, ..updated }, session);
}

#[test]
fn staleness_follows_heartbeat_age_and_liveness() {
    let registry = Registry::new("/r".to_owned());
    let session = registry.session_for(&project(), registration(1), ID, 1_000);

    assert!(!session_is_stale(&session, 61_000, 60_000, true));
    assert!(session_is_stale(&session, 61_001, 60_000, true));
    assert!(session_is_stale(&session, 1_000, 60_000, false));
    assert!(!session_is_stale(&session, 500, 0, true));
}

#[test]
fn duration_saturates_at_u64_max() {
    assert_eq!(duration_ms(60_000), 60_000);
    assert_eq!(duration_ms(u64::MAX as u128 + 1), u64::MAX);
}

#[test]
fn live_and_stale_sessions_partition_the_list() {
    let registry = Registry::new("/r".to_owned());
    let a = registry.session_for(&project(), registration(1), 1, 1_000);
    let b = registry.session_for(&project(), registration(2), 2, 1_000);
    let c = registry.session_for(&project(), registration(3), 3, 1_000);
    let sessions = vec![a.clone(), b.clone(), c.clone()];
    let alive = vec![true, false, true];

    let live = list_live(sessions.clone(), &alive, 2_000, 60_000);
    let gone = gc_candidates(sessions, &alive, 2_000, 60_000);

    assert_eq!(live, vec![a, c]);
    assert_eq!(gone, vec![b]);
}

#[test]
fn sessions_and_messages_sort_stably_by_time() {
    let registry = Registry::new("/r".to_owned());
    let a = registry.session_for(&project(), registration(1), 1, 30);
    let b = registry.session_for(&project(), registration(2), 2, 10);
    let c = registry.session_for(&project(), registration(3), 3, 30);
    let d = registry.session_for(&project(), registration(4), 4, 20);

    let sorted = order_sessions(vec![a.clone(), b.clone(), c.clone(), d.clone()]);
    assert_eq!(sorted, vec![b.clone(), d, a.clone(), c]);

    let m1 = message_for(&a, &b, "one".to_owned(), 11, 5);
    let m2 = message_for(&a, &b, "two".to_owned(), 12, 3);
    let m3 = message_for(&b, &a, "three".to_owned(), 13, 5);
    assert_eq!(
        order_messages(vec![m1.clone(), m2.clone(), m3.clone()]),
        vec![m2, m1, m3]
    );
}

#[test]
fn send_message_resolves_recipient_by_name_pi_id_or_id_prefix() {
    let registry = Registry::new("/r".to_owned());
    let mut named = registration(1);
    named.name = Some("recipient".to_owned());
    named.pi_session_id = Some("stable-pi-session".to_owned());
    let recipient = registry.session_for(&project(), named, ID, 1);
    let other = registry.session_for(&project(), registration(2), 5, 1);
    let live = vec![other.clone(), recipient.clone()];

    assert_eq!(resolve_live_session(&live, "recipient"), Ok(recipient.clone()));
    assert_eq!(
        resolve_live_session(&live, "stable-pi-session"),
        Ok(recipient.clone())
    );
    let reference = &Uuid::from_u128(ID).to_string()[..35];
    assert_eq!(resolve_live_session(&live, reference), Ok(recipient.clone()));
    assert_eq!(
        resolve_live_session(&live, "nobody"),
        Err(RegistryError::RecipientNotFound("nobody".to_owned()))
    );
}

#[test]
fn send_message_rejects_ambiguous_recipient_name() {
    let registry = Registry::new("/r".to_owned());
    let mut first = registration(1);
    first.name = Some("duplicate".to_owned());
    let mut second = registration(2);
    second.name = Some("duplicate".to_owned());
    let live = vec![
        registry.session_for(&project(), first, 1, 1),
        registry.session_for(&project(), second, 2, 1),
    ];

    assert_eq!(
        resolve_live_session(&live, "duplicate"),
        Err(RegistryError::AmbiguousRecipient("duplicate".to_owned()))
    );
    assert_eq!(
        resolve_live_session(&live, "0"),
        Err(RegistryError::AmbiguousRecipient("0".to_owned()))
    );
}

#[test]
fn messages_carry_sender_and_recipient() {
    let registry = Registry::new("/r".to_owned());
    let sender = registry.session_for(&project(), registration(1), 1, 1);
    let recipient = registry.session_for(&project(), registration(2), 2, 1);

    let message = message_for(&sender, &recipient, "hello".to_owned(), 9, 44);

    assert_eq!(message.from.id, 1);
    assert_eq!(message.from.name, "primary");
    assert_eq!(message.to, 2);
    assert_eq!(message.text, "hello");
    assert_eq!(message.created_at_ms, 44);
}

#[test]
fn inbox_entries_are_json_files() {
    assert!(is_message_file("0190a1b2.json"));
    assert!(is_message_file("a.b.json"));
    assert!(!is_message_file(".json"));
    assert!(!is_message_file("message.json.tmp"));
    assert!(!is_message_file("json"));
}

#[test]
fn listings_select_project_directories() {
    assert!(project_selected("project-id", Some("project-id")));
    assert!(!project_selected("other-project", Some("project-id")));
    assert!(project_selected("anything", None));
}

#[test]
fn show_returns_not_found_for_unknown_session() {
    let registry = Registry::new("/runtime/paj".to_owned());
    let id = Uuid::now_v7().as_u128();

    let result = registry.show(&Vec::new(), id);

    assert!(matches!(result, Err(RegistryError::SessionNotFound(_))));
}

#[test]
fn show_finds_a_stored_session_by_id() {
    let registry = Registry::new("/r".to_owned());
    let first = registry.session_for(&project(), registration(1), 1, 1);
    let second = registry.session_for(&project(), registration(2), 2, 1);

    let shown = registry.show(&vec![first, second.clone()], 2);

    assert_eq!(shown, Ok(second));
    assert_eq!(
        registry.show(&Vec::new(), 9),
        Err(RegistryError::SessionNotFound(9))
    );
}

#[test]
fn a_registered_session_reads_back_after_updates() {
    let registry = Registry::new("/r".to_owned());
    let older = registry.session_for(&project(), registration(1), 1, 1);
    let session = registry.session_for(&project(), registration(2), ID, 2);
    let mut stored = vec![older, session.clone()];

    assert_eq!(registry.show(&stored, ID), Ok(session.clone()));

    let beat = registry.heartbeat(session, 50);
    stored[1] = beat.clone();
    assert_eq!(registry.show(&stored, ID), Ok(beat.clone()));

    let busy = registry
        .set_status(beat, "busy".to_owned())
        .expect("status should change");
    stored[1] = busy.clone();
    assert_eq!(registry.show(&stored, ID).map(|s| s.status), Ok("busy".to_owned()));
    assert_eq!(registry.show(&stored, ID), Ok(busy));
}

#[test]
fn heartbeat_updates_last_heartbeat() {
    let registry = Registry::new("/r".to_owned());
    let session = registry.session_for(&project(), registration(1), ID, 10);
    let stored = vec![registry.session_for(&project(), registration(2), 5, 1), session.clone()];

    let (index, updated) = registry
        .update_session(&stored, ID, SessionChange::Heartbeat(40))
        .expect("heartbeat should succeed");

    assert_eq!(index, 1);
    assert_eq!(updated, Session { last_heartbeat_ms: 40, ..session });
    assert_eq!(
        registry.update_session(&stored, 99, SessionChange::Heartbeat(40)),
        Err(RegistryError::SessionNotFound(99))
    );
}

#[test]
fn rename_rejects_an_empty_name() {
    let registry = Registry::new("/r".to_owned());
    let session = registry.session_for(&project(), registration(1), ID, 10);
    let stored = vec![session.clone()];

    assert_eq!(
        registry.update_session(&stored, ID, SessionChange::Rename("  ".to_owned())),
        Err(RegistryError::InvalidAgentName)
    );
    assert_eq!(
        registry.update_session(&Vec::new(), ID, SessionChange::Rename("  ".to_owned())),
        Err(RegistryError::InvalidAgentName)
    );
    let (_, renamed) = registry
        .update_session(&stored, ID, SessionChange::Rename("planner".to_owned()))
        .expect("rename should succeed");
    assert_eq!(renamed, Session { name: "planner".to_owned(), ..session });
}

#[test]
fn status_rejects_unknown_values() {
    let registry = Registry::new("/r".to_owned());
    let session = registry.session_for(&project(), registration(1), ID, 10);
    let stored = vec![session.clone()];

    assert_eq!(
        registry.update_session(&stored, ID, SessionChange::Status("working".to_owned())),
        Err(RegistryError::InvalidSessionStatus("working".to_owned()))
    );
    let (_, busy) = registry
        .update_session(&stored, ID, SessionChange::Status("busy".to_owned()))
        .expect("status should change");
    assert_eq!(busy, Session { status: "busy".to_owned(), ..session });
}

#[test]
fn acknowledge_message_removes_pending_message() {
    let registry = Registry::new("/r".to_owned());
    let sender = registry.session_for(&project(), registration(1), 1, 1);
    let recipient = registry.session_for(&project(), registration(2), 2, 1);
    let first = message_for(&sender, &recipient, "one".to_owned(), 10, 5);
    let second = message_for(&sender, &recipient, "two".to_owned(), 11, 3);
    let inbox = vec![first.clone(), second.clone()];

    let left = acknowledge(&inbox, 10).expect("message should be acknowledged");
    assert_eq!(left, vec![second.clone()]);
    assert_eq!(order_messages(inbox), vec![second.clone(), first]);

    let empty = acknowledge(&left, 11).expect("message should be acknowledged");
    assert!(order_messages(empty).is_empty());
    assert_eq!(
        acknowledge(&left, 10),
        Err(RegistryError::MessageNotFound(10))
    );
}

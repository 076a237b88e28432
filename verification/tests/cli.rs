use std::io::{Cursor, Read};

use paj::bridge::BridgeEvent;
use paj::cli::{
    branch_from_output, bridge_status_row, render_event, decimal, gc_summary, list_parent, message_row,
    select_prompt, session_details, session_row, spawn_row, CliError, PromptSource,
};
use paj::registry::{Message, MessageSender, Session};
use paj::subagent::SpawnRecord;

const ID: u128 = 0x0190_a1b2_c3d4_7e5f_8a9b_0c1d_2e3f_4a5b;

fn session() -> Session {
    Session {
        id: ID,
        name: "primary".to_owned(),
        pid: 4242,
        pi_session_id: Some("pi-1".to_owned()),
        project_id: "project-id".to_owned(),
        project_root: "/project".to_owned(),
        cwd: "/project/sub".to_owned(),
        branch: None,
        role: "primary".to_owned(),
        parent_pi_session_id: None,
        task: Some("do things".to_owned()),
        status: "idle".to_owned(),
        bridge_socket: None,
        started_at_ms: 1,
        last_heartbeat_ms: 1,
    }
}

#[test]
fn prompt_can_be_read_from_stdin() {
    let source = select_prompt(None, None, true).expect("stdin prompt should be selected");
    assert_eq!(source, PromptSource::Stdin);

    let mut prompt = String::new();
    Cursor::new("from stdin")
        .read_to_string(&mut prompt)
        .expect("stdin prompt should be read");
    assert_eq!(prompt, "from stdin");
}

#[test]
fn prompt_sources_are_text_file_or_nothing() {
    assert_eq!(
        select_prompt(Some("hi".to_owned()), None, false),
        Ok(PromptSource::Text("hi".to_owned()))
    );
    assert_eq!(
        select_prompt(None, Some("/p.md".to_owned()), false),
        Ok(PromptSource::File("/p.md".to_owned()))
    );
    assert_eq!(select_prompt(None, None, false), Err(CliError::MissingPrompt));
}

#[test]
fn subagent_listings_need_a_parent_unless_all() {
    assert_eq!(list_parent(true, Some("p".to_owned()), None), Ok(None));
    assert_eq!(
        list_parent(false, Some("p".to_owned()), Some("e".to_owned())),
        Ok(Some("p".to_owned()))
    );
    assert_eq!(
        list_parent(false, None, Some("e".to_owned())),
        Ok(Some("e".to_owned()))
    );
    assert_eq!(list_parent(false, None, None), Err(CliError::MissingParent));
}

#[test]
fn branch_output_is_trimmed_and_empty_means_detached() {
    assert_eq!(branch_from_output("main\n"), Some("main".to_owned()));
    assert_eq!(branch_from_output("\n"), None);
    assert_eq!(branch_from_output(""), None);
}

#[test]
fn decimal_matches_to_string() {
    for n in [0u64, 7, 10, 99, 100, 4242, u64::MAX] {
        assert_eq!(decimal(n), n.to_string());
    }
}

#[test]
fn rows_are_tab_separated() {
    assert_eq!(
        session_row(&session()),
        "0190a1b2-c3d4-7e5f-8a9b-0c1d2e3f4a5b\tprimary\tprimary\tidle\t-\t-\t/project"
    );
    let record = SpawnRecord {
        spawn_id: ID,
        parent_pi_session_id: "parent".to_owned(),
        parent_pid: 1,
        child_pi_session_id: None,
        child_paj_session_id: None,
        name: "agent-2e3f4a5b".to_owned(),
        tmux_name: "paj-0c1d2e3f4a5b".to_owned(),
        cwd: "/project".to_owned(),
        project_root: "/project".to_owned(),
        task: "first line\nsecond".to_owned(),
        created_at_ms: 1,
        registered_at_ms: None,
    };
    assert_eq!(
        spawn_row(&record),
        "0190a1b2-c3d4-7e5f-8a9b-0c1d2e3f4a5b\tagent-2e3f4a5b\t/project\tfirst line\ttmux -L paj attach-session -t =paj-0c1d2e3f4a5b"
    );
    let message = Message {
        id: 1,
        from: MessageSender {
            id: ID,
            name: "sender".to_owned(),
        },
        to: 2,
        text: "hello".to_owned(),
        created_at_ms: 3,
    };
    assert_eq!(
        message_row(&message),
        "00000000-0000-0000-0000-000000000001\tsender\thello"
    );
    assert_eq!(
        bridge_status_row("primary", true, &Some("/b.sock".to_owned())),
        "primary\tavailable\t/b.sock"
    );
    assert_eq!(
        bridge_status_row("other", false, &None),
        "other\tunavailable\t-"
    );
}

#[test]
fn session_details_list_every_field() {
    assert_eq!(
        session_details(&session()),
        vec![
            "id: 0190a1b2-c3d4-7e5f-8a9b-0c1d2e3f4a5b",
            "name: primary",
            "pid: 4242",
            "pi session: pi-1",
            "project: /project",
            "cwd: /project/sub",
            "branch: -",
            "role: primary",
            "parent Pi session: -",
            "status: idle",
            "task: do things",
        ]
    );
}

#[test]
fn gc_summary_counts_both_kinds() {
    assert_eq!(
        gc_summary(2, 0),
        "Removed 2 stale session(s) and 0 orphaned subagent(s)"
    );
}

#[test]
fn streamed_prompts_print_deltas_then_a_newline() {
    let delta = BridgeEvent::Delta {
        id: 1,
        text: "hel".to_owned(),
    };
    let complete = BridgeEvent::Complete {
        id: 1,
        text: "hello".to_owned(),
        actions: Vec::new(),
    };

    assert_eq!(render_event(false, &BridgeEvent::Accepted { id: 1 }), (false, None));
    assert_eq!(render_event(false, &delta), (true, Some("hel".to_owned())));
    assert_eq!(render_event(true, &complete), (true, Some("\n".to_owned())));
    assert_eq!(render_event(false, &complete), (false, Some("hello\n".to_owned())));
}

use mbulet::daemon::{handle_client, Connection, Daemon, Effect};
use mbulet::protocol::{ClientMsg, DaemonMsg, SessionInfo};

fn daemon(names: &[&str]) -> Daemon {
    let mut d = Daemon::new("/s".to_string());
    for n in names {
        let id = new_id(&mut d, n);
        d.take_in(id, n.to_string(), 80, 24);
    }
    d
}

fn new_id(d: &mut Daemon, name: &str) -> usize {
    let msg = ClientMsg::NewSession {
        name: name.to_string(),
        cols: 80,
        rows: 24,
        startup_cmds: vec!["ls".to_string()],
    };
    let done = handle_client(d, &mut Connection::new(), msg, 0);
    assert_eq!(done.len(), 1);
    match &done[0] {
        Effect::Open { id, name: n, cols: 80, rows: 24, startup_cmds } => {
            assert_eq!(n, name);
            assert_eq!(startup_cmds, &vec!["ls".to_string()]);
            *id
        }
        other => panic!("{:?}", other),
    }
}

fn ids(d: &Daemon) -> Vec<usize> {
    d.sessions.iter().map(|s| s.id).collect()
}

fn attached(id: usize) -> Connection {
    Connection { attached_id: Some(id), channel: Some(9) }
}

fn error(msg: &str) -> Vec<Effect> {
    vec![Effect::Reply(DaemonMsg::Error { msg: msg.to_string() })]
}

fn refused(d: &mut Daemon, msg: ClientMsg, why: &str) {
    let before = (ids(d), d.next_id);
    let mut c = attached(1);
    assert_eq!(handle_client(d, &mut c, msg, 77), error(why));
    assert_eq!((ids(d), d.next_id), before);
    assert_eq!(c, attached(1));
}

#[test]
fn daemon_starts_with_a_session_of_its_own() {
    let mut d = Daemon::new("/s".to_string());
    assert_eq!((d.sessions.len(), d.next_id, d.socket_path.as_str()), (0, 1, "/s"));
    assert_eq!(
        d.first_session(),
        Effect::Open { id: 1, name: "main".to_string(), cols: 220, rows: 50, startup_cmds: vec![] }
    );
    assert_eq!(d.next_id, 2);
    d.take_in(1, "main".to_string(), 220, 50);
    assert_eq!(d.sessions[0].parser.screen().size(), (50, 220));
}

#[test]
fn sessions_are_listed_with_their_directories() {
    let mut d = daemon(&["a", "b"]);
    d.sessions[1].ingest(b"\x1b]7;/srv\x07");
    let done = handle_client(&mut d, &mut Connection::new(), ClientMsg::ListSessions, 0);
    let sessions = vec![
        SessionInfo { id: 1, name: "a".to_string(), cwd: None },
        SessionInfo { id: 2, name: "b".to_string(), cwd: Some("/srv".to_string()) },
    ];
    assert_eq!(done, vec![Effect::Reply(DaemonMsg::SessionList { sessions })]);
}

#[test]
fn new_session_is_told_once_it_is_taken_in() {
    let mut d = daemon(&["a"]);
    let id = new_id(&mut d, "b");
    assert_eq!(id, 2);
    assert_eq!(ids(&d), vec![1]);
    let reply = d.take_in(id, "b".to_string(), 0, 24);
    assert_eq!(reply, DaemonMsg::SessionCreated { id: 2, name: "b".to_string() });
    assert_eq!(ids(&d), vec![1, 2]);
    assert_eq!(d.sessions[1].parser.screen().size(), (24, 1));
}

#[test]
fn numbers_are_not_given_out_again() {
    let mut d = daemon(&["a", "b"]);
    handle_client(&mut d, &mut Connection::new(), ClientMsg::DeleteSession { id: 2 }, 0);
    assert_eq!(new_id(&mut d, "c"), 3);
}

#[test]
fn last_session_cannot_be_deleted() {
    let mut d = daemon(&["a"]);
    refused(&mut d, ClientMsg::DeleteSession { id: 1 }, "cannot delete last session");
    refused(&mut d, ClientMsg::DeleteSession { id: 5 }, "cannot delete last session");
}

#[test]
fn unknown_sessions_are_refused() {
    let mut d = daemon(&["a", "b"]);
    refused(&mut d, ClientMsg::DeleteSession { id: 42 }, "session 42 not found");
    let name = "x".to_string();
    refused(&mut d, ClientMsg::RenameSession { id: 7, name }, "session 7 not found");
    refused(&mut d, ClientMsg::ReorderSession { id: 7, new_index: 0 }, "session 7 not found");
    refused(&mut d, ClientMsg::Attach { id: 10, cols: 1, rows: 1 }, "session 10 not found");
}

#[test]
fn place_outside_the_list_is_refused() {
    let mut d = daemon(&["a", "b"]);
    refused(&mut d, ClientMsg::ReorderSession { id: 1, new_index: 2 }, "invalid index 2");
}

#[test]
fn deleted_session_is_closed_and_told() {
    let mut d = daemon(&["a", "b", "c"]);
    let mut c = attached(1);
    let done = handle_client(&mut d, &mut c, ClientMsg::DeleteSession { id: 2 }, 0);
    assert_eq!(
        done,
        vec![Effect::Close { id: 2 }, Effect::Reply(DaemonMsg::SessionDeleted { id: 2 })]
    );
    assert_eq!(ids(&d), vec![1, 3]);
    assert_eq!(c, attached(1));
}

#[test]
fn client_of_a_deleted_session_is_detached() {
    let mut d = daemon(&["a", "b"]);
    let mut c = attached(2);
    let done = handle_client(&mut d, &mut c, ClientMsg::DeleteSession { id: 2 }, 0);
    assert_eq!(done[2], Effect::Reply(DaemonMsg::Detached));
    assert_eq!(c, Connection::new());
    let typed = handle_client(&mut d, &mut c, ClientMsg::Input { data: vec![1] }, 0);
    assert!(typed.is_empty());
    assert_eq!(c.output_message(vec![1]), None);
}

#[test]
fn renamed_session_is_told() {
    let mut d = daemon(&["a", "b"]);
    let msg = ClientMsg::RenameSession { id: 2, name: "new".to_string() };
    let done = handle_client(&mut d, &mut Connection::new(), msg, 0);
    let name = "new".to_string();
    assert_eq!(done, vec![Effect::Reply(DaemonMsg::SessionRenamed { id: 2, name })]);
    assert_eq!(d.sessions[1].name, "new");
    assert_eq!(d.sessions[0].name, "a");
}

#[test]
fn moved_session_can_be_moved_back() {
    let mut d = daemon(&["a", "b", "c", "d"]);
    let mut c = Connection::new();
    let msg = ClientMsg::ReorderSession { id: 4, new_index: 1 };
    let done = handle_client(&mut d, &mut c, msg, 0);
    assert_eq!(
        done,
        vec![Effect::Reply(DaemonMsg::SessionReordered { id: 4, new_index: 1 })]
    );
    assert_eq!(ids(&d), vec![1, 4, 2, 3]);
    handle_client(&mut d, &mut c, ClientMsg::ReorderSession { id: 4, new_index: 3 }, 0);
    assert_eq!(ids(&d), vec![1, 2, 3, 4]);
}

#[test]
fn reattach_of_the_same_size_gets_output_and_directory() {
    let mut d = daemon(&["a", "b"]);
    d.sessions[1].ingest(b"hi\x1b]7;/w\x07");
    let mut c = Connection::new();
    let done = handle_client(&mut d, &mut c, ClientMsg::Attach { id: 2, cols: 80, rows: 24 }, 5);
    assert_eq!(
        done,
        vec![
            Effect::Reply(DaemonMsg::PtyOutput { id: 2, data: b"hi".to_vec() }),
            Effect::Reply(DaemonMsg::CwdUpdate { id: 2, cwd: "/w".to_string() }),
            Effect::Reply(DaemonMsg::Attached { id: 2, cleared: false }),
        ]
    );
    assert_eq!(c, Connection { attached_id: Some(2), channel: Some(5) });
    assert_eq!(d.sessions[1].subscribers, vec![5]);
    assert_eq!(d.sessions[1].cwd_subscribers, vec![5]);
}

#[test]
fn attach_to_a_silent_session_sends_no_output() {
    let mut d = daemon(&["a"]);
    let msg = ClientMsg::Attach { id: 1, cols: 80, rows: 24 };
    let done = handle_client(&mut d, &mut Connection::new(), msg, 5);
    assert_eq!(done, vec![Effect::Reply(DaemonMsg::Attached { id: 1, cleared: false })]);
}

#[test]
fn attach_of_another_size_wipes_and_tells_the_shell() {
    let mut d = daemon(&["a"]);
    d.sessions[0].ingest(b"hi");
    let msg = || ClientMsg::Attach { id: 1, cols: 0, rows: 30 };
    let done = handle_client(&mut d, &mut Connection::new(), msg(), 5);
    assert_eq!(
        done,
        vec![
            Effect::ResizeShell { id: 1, cols: 1, rows: 30 },
            Effect::Reply(DaemonMsg::Attached { id: 1, cleared: true }),
        ]
    );
    assert!(d.sessions[0].buffered_output().is_empty());
    assert_eq!(d.sessions[0].parser.screen().size(), (30, 1));
    d.sessions[0].ingest(b"again");
    let second = handle_client(&mut d, &mut Connection::new(), msg(), 6);
    assert_eq!(
        second,
        vec![
            Effect::Reply(DaemonMsg::PtyOutput { id: 1, data: b"again".to_vec() }),
            Effect::Reply(DaemonMsg::Attached { id: 1, cleared: false }),
        ]
    );
}

#[test]
fn other_sessions_are_left_alone() {
    let mut d = daemon(&["a", "b"]);
    d.sessions[0].ingest(b"mine");
    let msg = ClientMsg::Attach { id: 2, cols: 10, rows: 10 };
    handle_client(&mut d, &mut Connection::new(), msg, 5);
    assert_eq!(d.sessions[0].parser.screen().size(), (24, 80));
    assert_eq!(d.sessions[0].buffered_output(), b"mine".to_vec());
    assert!(d.sessions[0].subscribers.is_empty());
}

#[test]
fn input_and_size_go_to_the_session_shown() {
    let mut d = daemon(&["a", "b"]);
    let mut c = attached(2);
    let typed = handle_client(&mut d, &mut c, ClientMsg::Input { data: b"ls\r".to_vec() }, 0);
    assert_eq!(typed, vec![Effect::Write { id: 2, data: b"ls\r".to_vec() }]);
    let sized = handle_client(&mut d, &mut c, ClientMsg::Resize { cols: 50, rows: 0 }, 0);
    assert_eq!(sized, vec![Effect::ResizeShell { id: 2, cols: 50, rows: 1 }]);
    assert_eq!(d.sessions[1].parser.screen().size(), (1, 50));
    let mut nobody = Connection::new();
    assert!(handle_client(&mut d, &mut nobody, ClientMsg::Resize { cols: 5, rows: 5 }, 0).is_empty());
    assert!(handle_client(&mut d, &mut nobody, ClientMsg::Input { data: vec![] }, 0).is_empty());
}

#[test]
fn detached_client_gets_no_more() {
    let mut d = daemon(&["a"]);
    let mut c = attached(1);
    assert_eq!(
        c.output_message(b"x".to_vec()),
        Some(DaemonMsg::PtyOutput { id: 1, data: b"x".to_vec() })
    );
    assert_eq!(
        c.cwd_message("/d".to_string()),
        Some(DaemonMsg::CwdUpdate { id: 1, cwd: "/d".to_string() })
    );
    let done = handle_client(&mut d, &mut c, ClientMsg::Detach, 0);
    assert_eq!(done, vec![Effect::Reply(DaemonMsg::Detached)]);
    assert_eq!(c, Connection::new());
    assert_eq!(c.output_message(b"x".to_vec()), None);
    assert_eq!(c.cwd_message("/d".to_string()), None);
}

#[test]
fn shutdown_ends_every_session() {
    let mut d = daemon(&["a", "b"]);
    let done = handle_client(&mut d, &mut attached(1), ClientMsg::Shutdown, 0);
    assert_eq!(
        done,
        vec![
            Effect::Close { id: 1 },
            Effect::Close { id: 2 },
            Effect::Reply(DaemonMsg::Done),
            Effect::Exit,
        ]
    );
    assert!(d.sessions.is_empty());
}

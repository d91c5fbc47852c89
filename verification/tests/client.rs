use mbulet::client::{
    farewell, quote_cwd, session_list_reply, worktree_command, Action, App, Focus, PrefixMode,
    Reaction,
};
use mbulet::keys::{no_modifiers, prefix_modifiers, Event, KeyCode, KeyEvent, KeyEventKind, KeyModifiers};
use mbulet::protocol::{ClientMsg, DaemonMsg, SessionInfo};

fn info(id: usize, name: &str) -> SessionInfo {
    SessionInfo { id, name: name.to_string(), cwd: None }
}

fn app(names: &[&str]) -> App {
    let list = names.iter().enumerate().map(|(i, n)| info(i + 1, n)).collect();
    App::new(list, 56, 20)
}

fn press(a: &mut App, code: KeyCode, modifiers: KeyModifiers) -> Action {
    a.handle_event(Event::Key(KeyEvent { code, modifiers, kind: KeyEventKind::Press }))
}

fn key(a: &mut App, code: KeyCode) -> Action {
    press(a, code, no_modifiers())
}

fn prefix(a: &mut App) -> Action {
    press(a, KeyCode::Char('b'), prefix_modifiers())
}

fn command(a: &mut App, code: KeyCode) -> Action {
    assert_eq!(prefix(a), Action::Idle);
    assert_eq!(a.prefix_mode, PrefixMode::Pending);
    let done = key(a, code);
    assert_eq!(a.prefix_mode, PrefixMode::Normal);
    done
}

fn text(a: &mut App, s: &str) {
    for c in s.chars() {
        assert_eq!(key(a, KeyCode::Char(c)), Action::Idle);
    }
}

fn ids(a: &App) -> Vec<usize> {
    a.sessions.iter().map(|s| s.id).collect()
}

fn attach(id: usize) -> Action {
    Action::SendMsg(ClientMsg::Attach { id, cols: 56, rows: 20 })
}

fn shown(a: &App, i: usize) -> String {
    a.sessions[i].parser.screen().contents()
}

#[test]
fn client_starts_on_the_first_session() {
    let a = app(&["a", "b"]);
    assert_eq!((a.selected, a.list_selected, a.current_id()), (0, Some(0), Some(1)));
    assert_eq!(a.focus, Focus::Sidebar);
    assert_eq!(a.sessions[1].parser.screen().size(), (20, 56));
    assert_eq!(a.sessions[1].name, "b");
    let none = app(&[]);
    assert_eq!((none.selected, none.list_selected, none.current_id()), (0, None, None));
    let tiny = App::new(vec![info(1, "a")], 0, 0);
    assert_eq!(tiny.sessions[0].parser.screen().size(), (1, 1));
}

#[test]
fn first_attach_wipes_the_screen() {
    let mut a = app(&["a"]);
    a.sessions[0].parser.process(b"old");
    assert_eq!(a.attach_selected(), attach(1));
    assert_eq!(shown(&a, 0), "");
    assert_eq!(app(&[]).attach_selected(), Action::Idle);
}

#[test]
fn next_and_prev_wrap_and_undo_each_other() {
    let mut a = app(&["a", "b", "c"]);
    for n in [1, 2, 0] {
        a.next();
        assert_eq!((a.selected, a.list_selected), (n, Some(n)));
    }
    for n in [2, 1, 0] {
        a.prev();
        assert_eq!((a.selected, a.list_selected), (n, Some(n)));
    }
    let mut none = app(&[]);
    none.next();
    none.prev();
    assert_eq!((none.selected, none.list_selected), (0, None));
}

#[test]
fn moving_past_the_ends_does_nothing() {
    let mut a = app(&["a", "b"]);
    assert_eq!(a.move_session_up(), None);
    assert_eq!(a.move_session_down(), Some((1, 1)));
    assert_eq!(ids(&a), vec![2, 1]);
    assert_eq!(a.move_session_down(), None);
    assert_eq!(a.move_session_up(), Some((1, 0)));
    assert_eq!(ids(&a), vec![1, 2]);
    assert_eq!(app(&[]).move_session_up(), None);
    assert_eq!(app(&[]).move_session_down(), None);
}

#[test]
fn sidebar_navigation_attaches_on_a_blank_screen() {
    let mut a = app(&["a", "b", "c"]);
    for i in 0..3 {
        a.sessions[i].parser.process(b"old");
    }
    assert_eq!(key(&mut a, KeyCode::Char('j')), attach(2));
    assert_eq!(shown(&a, 1), "");
    assert_eq!(shown(&a, 2), "old");
    assert_eq!(key(&mut a, KeyCode::Down), attach(3));
    assert_eq!(key(&mut a, KeyCode::Char('k')), attach(2));
    assert_eq!(key(&mut a, KeyCode::Up), attach(1));
    assert_eq!(shown(&a, 0), "");
    assert_eq!(key(&mut app(&[]), KeyCode::Down), Action::Idle);
}

#[test]
fn new_session_is_named_by_what_is_typed() {
    let mut a = app(&["a", "b"]);
    assert_eq!(key(&mut a, KeyCode::Char('n')), Action::Idle);
    assert!(a.new_mode && a.new_input.is_empty());
    text(&mut a, " jn dx");
    key(&mut a, KeyCode::Backspace);
    text(&mut a, " ");
    assert_eq!(a.new_input, " jn d ");
    assert_eq!(key(&mut a, KeyCode::Up), Action::Idle);
    assert_eq!(
        key(&mut a, KeyCode::Enter),
        Action::SendMsg(ClientMsg::NewSession {
            name: "jn d".to_string(),
            cols: 56,
            rows: 20,
            startup_cmds: vec![],
        })
    );
    assert!(!a.new_mode && a.new_input.is_empty());
    assert_eq!(ids(&a), vec![1, 2]);
}

#[test]
fn new_session_can_be_given_up() {
    let mut a = app(&["a"]);
    key(&mut a, KeyCode::Char('n'));
    text(&mut a, "x");
    assert_eq!(key(&mut a, KeyCode::Esc), Action::Idle);
    assert!(!a.new_mode && a.new_input.is_empty());
    key(&mut a, KeyCode::Char('n'));
    text(&mut a, "  ");
    assert_eq!(key(&mut a, KeyCode::Enter), Action::Idle);
    assert!(!a.new_mode && a.new_input.is_empty());
    key(&mut a, KeyCode::Char('n'));
    key(&mut a, KeyCode::Backspace);
    assert_eq!(key(&mut a, KeyCode::Enter), Action::Idle);
}

#[test]
fn sidebar_keys_delete_and_open() {
    let mut a = app(&["a", "b"]);
    assert_eq!(
        key(&mut a, KeyCode::Char('d')),
        Action::SendMsg(ClientMsg::DeleteSession { id: 1 })
    );
    assert_eq!(key(&mut app(&[]), KeyCode::Char('d')), Action::Idle);
    assert_eq!(key(&mut a, KeyCode::Char('x')), Action::Idle);
    assert_eq!(key(&mut a, KeyCode::Enter), Action::Idle);
    assert_eq!(a.focus, Focus::Terminal);
    a.focus = Focus::Sidebar;
    key(&mut a, KeyCode::Tab);
    assert_eq!(a.focus, Focus::Terminal);
}

#[test]
fn rename_shows_the_name_at_once_and_tells_the_daemon() {
    let mut a = app(&["a", "b"]);
    key(&mut a, KeyCode::Char('r'));
    assert!(a.rename_mode);
    assert_eq!(a.rename_input, "a");
    key(&mut a, KeyCode::Backspace);
    key(&mut a, KeyCode::Backspace);
    text(&mut a, "  jkd  ");
    let done = key(&mut a, KeyCode::Enter);
    let name = "jkd".to_string();
    assert_eq!(done, Action::SendMsg(ClientMsg::RenameSession { id: 1, name }));
    assert_eq!(a.sessions[0].name, "jkd");
    assert!(!a.rename_mode && a.rename_input.is_empty());
    let echo = DaemonMsg::SessionRenamed { id: 1, name: "jkd".to_string() };
    assert_eq!(a.handle_message(echo), Reaction::Idle);
    assert_eq!(a.sessions[0].name, "jkd");
}

#[test]
fn rename_can_be_given_up() {
    let mut a = app(&["a"]);
    key(&mut a, KeyCode::Char('r'));
    text(&mut a, "x");
    assert_eq!(key(&mut a, KeyCode::Esc), Action::Idle);
    assert!(!a.rename_mode && a.rename_input.is_empty());
    key(&mut a, KeyCode::Char('r'));
    key(&mut a, KeyCode::Backspace);
    text(&mut a, " \u{3000} ");
    assert_eq!(key(&mut a, KeyCode::Up), Action::Idle);
    assert_eq!(key(&mut a, KeyCode::Enter), Action::Idle);
    assert_eq!(a.sessions[0].name, "a");
    let mut none = app(&[]);
    key(&mut none, KeyCode::Char('r'));
    text(&mut none, "x");
    assert_eq!(key(&mut none, KeyCode::Enter), Action::Idle);
}

#[test]
fn worktree_makes_a_session_beside_the_directory() {
    let mut a = app(&["a"]);
    assert_eq!(command(&mut a, KeyCode::Char('w')), Action::Idle);
    assert!(a.worktree_mode);
    text(&mut a, "featx");
    key(&mut a, KeyCode::Backspace);
    let done = key(&mut a, KeyCode::Enter);
    let cmd = "git worktree add ../feat -b feat && cd ../feat".to_string();
    assert_eq!(
        done,
        Action::SendMsg(ClientMsg::NewSession {
            name: "feat".to_string(),
            cols: 56,
            rows: 20,
            startup_cmds: vec![cmd],
        })
    );
    assert!(!a.worktree_mode && a.worktree_input.is_empty());
}

#[test]
fn worktree_starts_in_the_directory_of_the_session() {
    let mut a = app(&["a"]);
    let cwd = "/my \"x\"".to_string();
    a.handle_message(DaemonMsg::CwdUpdate { id: 1, cwd });
    command(&mut a, KeyCode::Char('w'));
    text(&mut a, "f");
    match key(&mut a, KeyCode::Enter) {
        Action::SendMsg(ClientMsg::NewSession { startup_cmds, .. }) => assert_eq!(
            startup_cmds,
            vec![r#"cd "/my \"x\"" && git worktree add ../f -b f && cd ../f"#.to_string()]
        ),
        other => panic!("{:?}", other),
    }
    assert_eq!(quote_cwd(&Some("a".to_string())), Some("\"a\"".to_string()));
    assert_eq!(quote_cwd(&None), None);
    assert_eq!(
        worktree_command(&Some("Q".to_string()), "b"),
        "cd Q && git worktree add ../b -b b && cd ../b"
    );
}

#[test]
fn worktree_can_be_given_up() {
    let mut a = app(&["a"]);
    command(&mut a, KeyCode::Char('w'));
    text(&mut a, "x");
    assert_eq!(key(&mut a, KeyCode::Esc), Action::Idle);
    assert!(!a.worktree_mode && a.worktree_input.is_empty());
    command(&mut a, KeyCode::Char('w'));
    text(&mut a, "  ");
    assert_eq!(key(&mut a, KeyCode::Enter), Action::Idle);
    assert_eq!(key(&mut a, KeyCode::Tab), Action::Idle);
    let mut b = app(&["a"]);
    b.focus = Focus::Terminal;
    command(&mut b, KeyCode::Char('w'));
    assert!(!b.worktree_mode);
}

#[test]
fn commands_detach_and_shut_down() {
    let mut a = app(&["a"]);
    assert_eq!(command(&mut a, KeyCode::Char('d')), Action::Detach);
    assert_eq!(command(&mut a, KeyCode::Char('q')), Action::Shutdown);
    assert_eq!(command(&mut a, KeyCode::Char('z')), Action::Idle);
    prefix(&mut a);
    assert_eq!(press(&mut a, KeyCode::Char('d'), prefix_modifiers()), Action::Idle);
}

#[test]
fn tab_command_switches_the_focus() {
    let mut a = app(&["a"]);
    assert_eq!(a.focus, Focus::Sidebar);
    assert_eq!(command(&mut a, KeyCode::Tab), Action::Idle);
    assert_eq!(a.focus, Focus::Terminal);
    assert_eq!(command(&mut a, KeyCode::Tab), Action::Idle);
    assert_eq!(a.focus, Focus::Sidebar);
}

#[test]
fn client_ends_when_the_daemon_is_gone() {
    let mut a = app(&["a"]);
    assert_eq!(a.handle_event(Event::Disconnected), Action::Exit);
    assert_eq!(farewell(&Action::Exit), None);
    assert_eq!(ids(&a), vec![1]);
}

#[test]
fn attach_forgets_what_the_screen_does_not_show() {
    let mut a = app(&["a", "b"]);
    a.sessions[1].parser.process(b"\x1b[31m\x1b[5;9r\x1b[?25l\x1b[");
    assert_eq!(shown(&a, 1), "");
    assert_eq!(key(&mut a, KeyCode::Down), attach(2));
    a.sessions[1].parser.process(b"1mX");
    assert_eq!(shown(&a, 1), "1mX");
    let screen = a.sessions[1].parser.screen();
    assert!(!screen.hide_cursor());
    assert_eq!(screen.cell(0, 0).unwrap().fgcolor(), vt100::Color::Default);
}

#[test]
fn other_emulators_keep_what_the_screen_does_not_show() {
    let mut a = app(&["a", "b"]);
    a.sessions[0].parser.process(b"\x1b[31m");
    key(&mut a, KeyCode::Down);
    command(&mut a, KeyCode::Up);
    a.handle_message(DaemonMsg::SessionReordered { id: 2, new_index: 1 });
    a.handle_message(DaemonMsg::SessionCreated { id: 3, name: "c".to_string() });
    a.handle_message(DaemonMsg::SessionDeleted { id: 2 });
    assert_eq!(ids(&a), vec![1, 3]);
    a.sessions[0].parser.process(b"R");
    let cell = a.sessions[0].parser.screen().cell(0, 0).unwrap();
    assert_eq!(cell.fgcolor(), vt100::Color::Idx(1));
}

#[test]
fn commands_move_in_the_sidebar_and_switch_in_the_terminal() {
    let mut a = app(&["a", "b", "c"]);
    assert_eq!(command(&mut a, KeyCode::Up), Action::Idle);
    assert_eq!(
        command(&mut a, KeyCode::Down),
        Action::SendMsg(ClientMsg::ReorderSession { id: 1, new_index: 1 })
    );
    assert_eq!((ids(&a), a.selected), (vec![2, 1, 3], 1));
    assert_eq!(
        command(&mut a, KeyCode::Up),
        Action::SendMsg(ClientMsg::ReorderSession { id: 1, new_index: 0 })
    );
    a.focus = Focus::Terminal;
    a.sessions[2].parser.process(b"old");
    assert_eq!(command(&mut a, KeyCode::Up), attach(3));
    assert_eq!(shown(&a, 2), "");
    assert_eq!(command(&mut a, KeyCode::Down), attach(1));
    let mut one = app(&["a"]);
    one.focus = Focus::Terminal;
    assert_eq!(command(&mut one, KeyCode::Down), attach(1));
    let mut none = app(&[]);
    none.focus = Focus::Terminal;
    assert_eq!(command(&mut none, KeyCode::Up), Action::Idle);
    assert_eq!(command(&mut none, KeyCode::Down), Action::Idle);
}

#[test]
fn prefix_twice_types_it_in_either_focus() {
    for focus in [Focus::Terminal, Focus::Sidebar] {
        let mut a = app(&["a"]);
        a.focus = focus;
        assert_eq!(prefix(&mut a), Action::Idle);
        assert_eq!(prefix(&mut a), Action::SendMsg(ClientMsg::Input { data: vec![2] }));
        assert_eq!((a.prefix_mode, a.focus), (PrefixMode::Normal, focus));
    }
}

#[test]
fn command_key_is_not_typed() {
    let mut a = app(&["a"]);
    key(&mut a, KeyCode::Char('r'));
    assert_eq!(command(&mut a, KeyCode::Char('z')), Action::Idle);
    assert_eq!(a.rename_input, "a");
    assert!(a.rename_mode);
}

#[test]
fn terminal_keys_are_typed_into_the_shell() {
    let mut a = app(&["a"]);
    a.focus = Focus::Terminal;
    let input = |data: &[u8]| Action::SendMsg(ClientMsg::Input { data: data.to_vec() });
    assert_eq!(key(&mut a, KeyCode::Char('j')), input(b"j"));
    assert_eq!(key(&mut a, KeyCode::Tab), input(b"\t"));
    assert_eq!(press(&mut a, KeyCode::Char('c'), prefix_modifiers()), input(&[3]));
    assert_eq!(key(&mut a, KeyCode::Unused), Action::Idle);
}

#[test]
fn only_pressed_keys_count() {
    let mut a = app(&["a"]);
    for kind in [KeyEventKind::Release, KeyEventKind::Repeat] {
        let e = KeyEvent { code: KeyCode::Enter, modifiers: no_modifiers(), kind };
        assert_eq!(a.handle_event(Event::Key(e)), Action::Idle);
        assert_eq!(a.focus, Focus::Sidebar);
    }
    assert_eq!(a.handle_event(Event::Unused), Action::Idle);
}

#[test]
fn other_screen_size_is_told_where_a_session_is_shown() {
    let mut a = app(&["a"]);
    assert_eq!(a.handle_event(Event::Resize(100, 30)), Action::Idle);
    assert_eq!((a.term_cols, a.term_rows), (76, 26));
    a.handle_message(DaemonMsg::Attached { id: 1, cleared: true });
    assert_eq!(
        a.handle_event(Event::Resize(0, 0)),
        Action::SendMsg(ClientMsg::Resize { cols: 1, rows: 1 })
    );
}

#[test]
fn output_goes_to_its_session() {
    let mut a = app(&["a", "b"]);
    let out = |id| DaemonMsg::PtyOutput { id, data: b"x".to_vec() };
    assert_eq!(a.handle_message(out(2)), Reaction::Feed { index: 1, data: b"x".to_vec() });
    assert_eq!(a.handle_message(out(9)), Reaction::Idle);
}

#[test]
fn new_session_is_selected_and_attached() {
    let mut a = app(&["a"]);
    let msg = DaemonMsg::SessionCreated { id: 5, name: "n".to_string() };
    assert_eq!(
        a.handle_message(msg),
        Reaction::Send(ClientMsg::Attach { id: 5, cols: 56, rows: 20 })
    );
    assert_eq!((a.selected, a.list_selected, a.current_id()), (1, Some(1), Some(5)));
    assert_eq!(a.sessions[1].name, "n");
    assert_eq!(a.sessions[1].cwd, None);
    assert_eq!(shown(&a, 1), "");
    assert_eq!(a.sessions[1].parser.screen().size(), (20, 56));
}

#[test]
fn deleted_session_leaves_the_selection_inside() {
    let mut a = app(&["a", "b", "c"]);
    a.next();
    a.next();
    a.handle_message(DaemonMsg::SessionDeleted { id: 1 });
    assert_eq!((ids(&a), a.selected, a.list_selected), (vec![2, 3], 1, Some(1)));
    a.handle_message(DaemonMsg::SessionDeleted { id: 9 });
    assert_eq!(ids(&a), vec![2, 3]);
    a.handle_message(DaemonMsg::SessionDeleted { id: 2 });
    a.handle_message(DaemonMsg::SessionDeleted { id: 3 });
    assert_eq!((ids(&a), a.selected, a.list_selected), (vec![], 0, None));
}

#[test]
fn moved_sessions_leave_the_selection_on_its_session() {
    for selected in 0..4usize {
        for id in 1..5usize {
            for new_index in 0..4usize {
                let mut a = app(&["a", "b", "c", "d"]);
                for _ in 0..selected {
                    a.next();
                }
                let before = a.current_id();
                a.handle_message(DaemonMsg::SessionReordered { id, new_index });
                assert_eq!(a.current_id(), before);
                assert_eq!(ids(&a)[new_index], id);
                assert_eq!(a.list_selected, Some(a.selected));
            }
        }
    }
    let mut a = app(&["a", "b"]);
    a.handle_message(DaemonMsg::SessionReordered { id: 1, new_index: 2 });
    a.handle_message(DaemonMsg::SessionReordered { id: 7, new_index: 0 });
    assert_eq!(ids(&a), vec![1, 2]);
}

#[test]
fn other_messages_change_what_they_say() {
    let mut a = app(&["a", "b"]);
    a.handle_message(DaemonMsg::Attached { id: 2, cleared: false });
    assert_eq!(a.attached_id, Some(2));
    a.handle_message(DaemonMsg::Detached);
    assert_eq!(a.attached_id, None);
    a.handle_message(DaemonMsg::SessionRenamed { id: 2, name: "z".to_string() });
    a.handle_message(DaemonMsg::SessionRenamed { id: 8, name: "y".to_string() });
    assert_eq!(a.sessions[1].name, "z");
    a.handle_message(DaemonMsg::CwdUpdate { id: 1, cwd: "/c".to_string() });
    assert_eq!(a.sessions[0].cwd, Some("/c".to_string()));
    for m in [
        DaemonMsg::Done,
        DaemonMsg::Error { msg: "e".to_string() },
        DaemonMsg::SessionList { sessions: vec![] },
    ] {
        assert_eq!(a.handle_message(m), Reaction::Idle);
    }
    assert_eq!(ids(&a), vec![1, 2]);
}

#[test]
fn attached_leaves_the_screen_alone() {
    let mut a = app(&["a"]);
    a.sessions[0].parser.process(b"replayed");
    a.handle_message(DaemonMsg::Attached { id: 1, cleared: true });
    assert_eq!(shown(&a, 0), "replayed");
}

#[test]
fn first_answer_is_the_list_or_an_error() {
    let list = DaemonMsg::SessionList { sessions: vec![info(1, "a")] };
    assert_eq!(session_list_reply(list), Ok(vec![info(1, "a")]));
    assert_eq!(
        session_list_reply(DaemonMsg::Error { msg: "no".to_string() }),
        Err("daemon error: no".to_string())
    );
    assert_eq!(session_list_reply(DaemonMsg::Done), Err("unexpected response".to_string()));
}

#[test]
fn client_says_farewell() {
    assert_eq!(
        farewell(&Action::Shutdown),
        Some((ClientMsg::Shutdown, "mbulet: daemon shut down.".to_string()))
    );
    assert_eq!(
        farewell(&Action::Detach),
        Some((
            ClientMsg::Detach,
            "mbulet: detached. Sessions running in background. Run 'mbulet' to reattach."
                .to_string()
        ))
    );
    assert_eq!(farewell(&Action::Idle), None);
}

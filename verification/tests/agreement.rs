use mbulet::client::{session_list_reply, Action, App, Focus, Reaction};
use mbulet::daemon::{handle_client, Connection, Daemon, Effect};
use mbulet::keys::{no_modifiers, prefix_modifiers, Event, KeyCode, KeyEvent, KeyEventKind, KeyModifiers};
use mbulet::protocol::{ClientMsg, DaemonMsg};

/// A client and a daemon that talk to each other without a wire.
struct Pair {
    daemon: Daemon,
    conn: Connection,
    app: App,
}

fn pair(names: &[&str]) -> Pair {
    let mut daemon = Daemon::new("/s".to_string());
    for n in names {
        let id = match daemon.first_session() {
            Effect::Open { id, .. } => id,
            other => panic!("{:?}", other),
        };
        daemon.take_in(id, n.to_string(), 220, 50);
    }
    let mut conn = Connection::new();
    let mut done = handle_client(&mut daemon, &mut conn, ClientMsg::ListSessions, 0);
    let list = match done.remove(0) {
        Effect::Reply(m) => session_list_reply(m).unwrap(),
        other => panic!("{:?}", other),
    };
    let app = App::new(list, 56, 20);
    Pair { daemon, conn, app }
}

impl Pair {
    fn ask(&mut self, msg: ClientMsg) {
        for e in handle_client(&mut self.daemon, &mut self.conn, msg, 7) {
            match e {
                Effect::Reply(m) => self.hear(m),
                Effect::Open { id, name, cols, rows, .. } => {
                    let m = self.daemon.take_in(id, name, cols, rows);
                    self.hear(m);
                }
                _ => {}
            }
        }
    }

    fn hear(&mut self, msg: DaemonMsg) {
        match self.app.handle_message(msg) {
            Reaction::Send(m) => self.ask(m),
            Reaction::Feed { index, data } => self.app.sessions[index].parser.process(&data),
            Reaction::Idle => {}
        }
    }

    fn press(&mut self, code: KeyCode, modifiers: KeyModifiers) {
        let e = KeyEvent { code, modifiers, kind: KeyEventKind::Press };
        if let Action::SendMsg(m) = self.app.handle_event(Event::Key(e)) {
            self.ask(m);
        }
    }

    fn key(&mut self, code: KeyCode) {
        self.press(code, no_modifiers());
    }

    fn command(&mut self, code: KeyCode) {
        self.press(KeyCode::Char('b'), prefix_modifiers());
        self.key(code);
    }

    fn in_step(&self) {
        let here: Vec<(usize, &str)> =
            self.app.sessions.iter().map(|s| (s.id, s.name.as_str())).collect();
        let there: Vec<(usize, &str)> =
            self.daemon.sessions.iter().map(|s| (s.id, s.name.as_str())).collect();
        assert_eq!(here, there);
    }
}

#[test]
fn client_and_daemon_stay_in_step() {
    let mut p = pair(&["main", "two", "three"]);
    p.in_step();
    p.key(KeyCode::Char('n'));
    p.in_step();
    p.key(KeyCode::Char('z'));
    p.key(KeyCode::Enter);
    p.in_step();
    assert_eq!(p.app.current_id(), Some(4));
    p.command(KeyCode::Up);
    p.command(KeyCode::Up);
    p.in_step();
    assert_eq!(p.app.selected, 1);
    p.command(KeyCode::Down);
    p.in_step();
    p.key(KeyCode::Char('r'));
    p.key(KeyCode::Char('!'));
    p.key(KeyCode::Enter);
    p.in_step();
    assert_eq!(p.daemon.sessions[2].name, "z!");
    p.key(KeyCode::Char('d'));
    p.in_step();
    assert_eq!(p.daemon.sessions.len(), 3);
    for _ in 0..3 {
        p.key(KeyCode::Char('d'));
        p.in_step();
    }
    assert_eq!(p.daemon.sessions.len(), 1);
}

#[test]
fn switching_there_and_back_draws_the_output_once() {
    let mut p = pair(&["main", "two"]);
    p.key(KeyCode::Down);
    p.key(KeyCode::Up);
    p.daemon.sessions[0].ingest(b"prompt$ ");
    p.hear(DaemonMsg::PtyOutput { id: 1, data: b"prompt$ ".to_vec() });
    for _ in 0..3 {
        p.key(KeyCode::Down);
        p.key(KeyCode::Up);
        assert_eq!(p.app.sessions[0].parser.screen().contents(), "prompt$ ");
    }
}

#[test]
fn screens_of_client_and_daemon_have_one_size() {
    let mut p = pair(&["main", "two"]);
    p.app.focus = Focus::Terminal;
    for (cols, rows) in [(80, 24), (33, 9), (1, 1)] {
        if let Action::SendMsg(m) = p.app.handle_event(Event::Resize(cols, rows)) {
            p.ask(m);
        }
        p.command(KeyCode::Down);
        let i = p.app.selected;
        assert_eq!(
            p.app.sessions[i].parser.screen().size(),
            p.daemon.sessions[i].parser.screen().size()
        );
    }
}

#[test]
fn client_is_detached_from_the_session_it_deletes() {
    let mut p = pair(&["main", "two"]);
    p.key(KeyCode::Down);
    assert_eq!((p.app.attached_id, p.conn.attached_id), (Some(2), Some(2)));
    p.key(KeyCode::Char('d'));
    assert_eq!((p.app.attached_id, p.conn.attached_id), (None, None));
    p.in_step();
}

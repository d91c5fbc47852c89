//! The client: the sessions that it lists, what keys and the daemon's messages do to them, and
//! what it sends.
use crate::emulator::{at_least_one, blank_screen, fresh_parser, is_fresh, screen, ScreenView};
use crate::keys::{
    is_prefix_key, key_bytes, key_in_range, key_to_bytes, no_modifiers, prefix_byte,
    prefix_modifiers, prefix_value, Event, KeyCode, KeyEvent, KeyEventKind, KeyModifiers,
    PREFIX_KEY,
};
use crate::layout::{pane, pane_size};
use crate::list::{
    first_at, lemma_moved_back, lemma_moved_from, lemma_place, lemma_place_exists, moved, place,
    source,
};
use crate::protocol::{
    infos, ClientMsg, ClientMsgView, DaemonMsg, DaemonMsgView, SessionInfo, SessionInfoView,
};
use crate::text::{copy_opt, debug_form, debug_text, opt_text, texts, trimmed};
use vstd::prelude::*;
use vstd::utf8::encode_utf8;

verus! {

/// A session as the client knows it.
pub struct ClientSession {
    pub id: usize,
    pub name: String,
    pub cwd: Option<String>,
    pub parser: vt100::Parser,
}

/// The value of a [`ClientSession`].
#[verifier::ext_equal]
pub struct ClientSessionView {
    pub id: usize,
    pub name: Seq<char>,
    pub cwd: Option<Seq<char>>,
    pub screen: ScreenView,
}

impl View for ClientSession {
    type V = ClientSessionView;

    open spec fn view(&self) -> ClientSessionView {
        ClientSessionView {
            id: self.id,
            name: self.name@,
            cwd: opt_text(self.cwd),
            screen: screen(self.parser),
        }
    }
}

/// Where keys go.
#[derive(Debug, Clone, Copy, PartialEq, Eq, Structural)]
pub enum Focus {
    Sidebar,
    Terminal,
}

/// Whether the prefix key has been pressed, and the next key is a command.
#[derive(Debug, Clone, Copy, PartialEq, Eq, Structural)]
pub enum PrefixMode {
    Normal,
    Pending,
}

/// The state of the client.
pub struct App {
    pub sessions: Vec<ClientSession>,
    pub selected: usize,
    /// What the list of the sidebar marks.
    pub list_selected: Option<usize>,
    pub focus: Focus,
    pub prefix_mode: PrefixMode,
    pub rename_mode: bool,
    pub rename_input: String,
    pub worktree_mode: bool,
    pub worktree_input: String,
    /// The name of a new session is typed.
    pub new_mode: bool,
    pub new_input: String,
    pub term_cols: u16,
    pub term_rows: u16,
    pub attached_id: Option<usize>,
}

/// The value of an [`App`].
#[verifier::ext_equal]
pub struct AppView {
    pub sessions: Seq<ClientSessionView>,
    pub selected: usize,
    pub list_selected: Option<usize>,
    pub focus: Focus,
    pub prefix_mode: PrefixMode,
    pub rename_mode: bool,
    pub rename_input: Seq<char>,
    pub worktree_mode: bool,
    pub worktree_input: Seq<char>,
    pub new_mode: bool,
    pub new_input: Seq<char>,
    pub term_cols: u16,
    pub term_rows: u16,
    pub attached_id: Option<usize>,
}

/// The values of a list of sessions.
pub open spec fn session_views(v: Seq<ClientSession>) -> Seq<ClientSessionView> {
    v.map_values(|s: ClientSession| s@)
}

/// The identifiers of a list of sessions.
pub open spec fn ids(s: Seq<ClientSessionView>) -> Seq<usize> {
    s.map_values(|x: ClientSessionView| x.id)
}

impl View for App {
    type V = AppView;

    open spec fn view(&self) -> AppView {
        AppView {
            sessions: session_views(self.sessions@),
            selected: self.selected,
            list_selected: self.list_selected,
            focus: self.focus,
            prefix_mode: self.prefix_mode,
            rename_mode: self.rename_mode,
            rename_input: self.rename_input@,
            worktree_mode: self.worktree_mode,
            worktree_input: self.worktree_input@,
            new_mode: self.new_mode,
            new_input: self.new_input@,
            term_cols: self.term_cols,
            term_rows: self.term_rows,
            attached_id: self.attached_id,
        }
    }
}

/// What the client does about an event.
#[derive(Debug, PartialEq, Eq)]
pub enum Action {
    Idle,
    Detach,
    Shutdown,
    /// End, without a word to the daemon.
    Exit,
    SendMsg(ClientMsg),
}

/// The value of an [`Action`].
#[verifier::ext_equal]
pub enum ActionView {
    Idle,
    Detach,
    Shutdown,
    Exit,
    SendMsg(ClientMsgView),
}

impl View for Action {
    type V = ActionView;

    open spec fn view(&self) -> ActionView {
        match *self {
            Action::Idle => ActionView::Idle,
            Action::Detach => ActionView::Detach,
            Action::Shutdown => ActionView::Shutdown,
            Action::Exit => ActionView::Exit,
            Action::SendMsg(m) => ActionView::SendMsg(m@),
        }
    }
}

/// What the client does about a message of the daemon, besides what changes in its own state.
#[derive(Debug, PartialEq, Eq)]
pub enum Reaction {
    Idle,
    Send(ClientMsg),
    /// Give this output to the emulator of the session at this place of the list.
    Feed { index: usize, data: Vec<u8> },
}

/// The value of a [`Reaction`].
#[verifier::ext_equal]
pub enum ReactionView {
    Idle,
    Send(ClientMsgView),
    Feed { index: usize, data: Seq<u8> },
}

impl View for Reaction {
    type V = ReactionView;

    open spec fn view(&self) -> ReactionView {
        match *self {
            Reaction::Idle => ReactionView::Idle,
            Reaction::Send(m) => ReactionView::Send(m@),
            Reaction::Feed { index, data } => ReactionView::Feed { index, data: data@ },
        }
    }
}

/// What a key comes to.
#[verifier::ext_equal]
pub struct Step {
    pub app: AppView,
    pub action: ActionView,
}

/// What a message of the daemon comes to.
#[verifier::ext_equal]
pub struct Heard {
    pub app: AppView,
    pub reaction: ReactionView,
}

/// The command that makes a worktree for a branch and goes there, from the directory whose quoted
/// form is given.
pub open spec fn worktree_cmd(quoted_cwd: Option<Seq<char>>, branch: Seq<char>) -> Seq<char> {
    let cmd = "git worktree add ../"@ + branch + " -b "@ + branch + " && cd ../"@ + branch;
    match quoted_cwd {
        Some(q) => "cd "@ + q + " && "@ + cmd,
        None => cmd,
    }
}

/// The quoted form of a directory.
pub open spec fn quoted(cwd: Option<Seq<char>>) -> Option<Seq<char>> {
    match cwd {
        Some(d) => Some(debug_form(d)),
        None => None,
    }
}

/// Sessions without those of a number.
pub open spec fn without(s: Seq<ClientSessionView>, id: usize) -> Seq<ClientSessionView> {
    s.filter(|x: ClientSessionView| x.id != id)
}

/// Where the selection is after a session moved from `from` to `to`: with the session that it was
/// on.
pub open spec fn selection_after_move(selected: usize, from: int, to: int) -> usize {
    if selected == from {
        to as usize
    } else if from < selected <= to {
        (selected - 1) as usize
    } else if to <= selected < from {
        (selected + 1) as usize
    } else {
        selected
    }
}

/// A session in a list just received: nothing stands on its screen.
pub open spec fn listed_session(info: SessionInfoView, cols: u16, rows: u16) -> ClientSessionView {
    ClientSessionView {
        id: info.id,
        name: info.name,
        cwd: info.cwd,
        screen: blank_screen(at_least_one(rows), at_least_one(cols)),
    }
}

impl AppView {
    /// The list is no longer than a list can be, the selection is on a session, where there is
    /// one, the sidebar marks it, and every screen can be drawn.
    pub open spec fn ok(self) -> bool {
        &&& self.sessions.len() <= usize::MAX
        &&& if self.sessions.len() == 0 {
            self.selected == 0 && self.list_selected is None
        } else {
            self.selected < self.sessions.len() && self.list_selected == Some(self.selected)
        }
        &&& forall|i: int|
            0 <= i < self.sessions.len() ==> (#[trigger] self.sessions[i]).screen.ok()
    }

    /// The client at its start.
    pub open spec fn new(list: Seq<SessionInfoView>, cols: u16, rows: u16) -> AppView {
        AppView {
            sessions: list.map_values(|i: SessionInfoView| listed_session(i, cols, rows)),
            selected: 0,
            list_selected: if list.len() > 0 {
                Some(0usize)
            } else {
                None
            },
            focus: Focus::Sidebar,
            prefix_mode: PrefixMode::Normal,
            rename_mode: false,
            rename_input: Seq::empty(),
            worktree_mode: false,
            worktree_input: Seq::empty(),
            new_mode: false,
            new_input: Seq::empty(),
            term_cols: cols,
            term_rows: rows,
            attached_id: None,
        }
    }

    pub open spec fn has(self, id: usize) -> bool {
        ids(self.sessions).contains(id)
    }

    pub open spec fn index(self, id: usize) -> int {
        place(ids(self.sessions), id)
    }

    /// The number of the selected session.
    pub open spec fn current(self) -> Option<usize> {
        if self.selected < self.sessions.len() {
            Some(self.sessions[self.selected as int].id)
        } else {
            None
        }
    }

    pub open spec fn select(self, i: int) -> AppView {
        AppView { selected: i as usize, list_selected: Some(i as usize), ..self }
    }

    /// The selection goes to the next session, and from the last to the first.
    pub open spec fn nexts(self) -> AppView {
        if self.sessions.len() == 0 {
            self
        } else if self.selected + 1 == self.sessions.len() {
            self.select(0)
        } else {
            self.select(self.selected + 1)
        }
    }

    /// The selection goes to the session before, and from the first to the last.
    pub open spec fn prevs(self) -> AppView {
        if self.sessions.len() == 0 {
            self
        } else if self.selected == 0 {
            self.select(self.sessions.len() - 1)
        } else {
            self.select(self.selected - 1)
        }
    }

    /// The selected session can move up.
    pub open spec fn can_move_up(self) -> bool {
        self.sessions.len() > 0 && self.selected > 0
    }

    /// The selected session can move down.
    pub open spec fn can_move_down(self) -> bool {
        self.selected + 1 < self.sessions.len()
    }

    /// The selected session moves to another place, and stays selected.
    pub open spec fn moves_to(self, to: int) -> AppView {
        AppView { sessions: moved(self.sessions, self.selected as int, to), ..self }.select(to)
    }

    /// One session is replaced.
    pub open spec fn with(self, i: int, s: ClientSessionView) -> AppView {
        AppView { sessions: self.sessions.update(i, s), ..self }
    }

    /// The screen of a session is wiped, and gets the size of the terminal.
    pub open spec fn wiped(self, id: usize) -> AppView {
        if self.has(id) {
            let i = self.index(id);
            self.with(
                i,
                ClientSessionView {
                    screen: blank_screen(
                        at_least_one(self.term_rows),
                        at_least_one(self.term_cols),
                    ),
                    ..self.sessions[i]
                },
            )
        } else {
            self
        }
    }

    pub open spec fn idle(self) -> Step {
        Step { app: self, action: ActionView::Idle }
    }

    pub open spec fn sends(self, msg: ClientMsgView) -> Step {
        Step { app: self, action: ActionView::SendMsg(msg) }
    }

    /// The client attaches to the selected session, whose screen is wiped before.
    pub open spec fn attaches(self) -> Step {
        match self.current() {
            Some(id) => self.wiped(id).sends(
                ClientMsgView::Attach { id, cols: self.term_cols, rows: self.term_rows },
            ),
            None => self.idle(),
        }
    }

    /// The selected session moves to another place, here and at the daemon.
    pub open spec fn reorders(self, can: bool, to: int) -> Step {
        if can {
            self.moves_to(to).sends(
                ClientMsgView::ReorderSession {
                    id: self.sessions[self.selected as int].id,
                    new_index: to as usize,
                },
            )
        } else {
            self.idle()
        }
    }

    /// What the key after the prefix key does.
    pub open spec fn on_command(self, key: KeyEvent) -> Step {
        let a = AppView { prefix_mode: PrefixMode::Normal, ..self };
        let bare = key.modifiers == no_modifiers();
        match key.code {
            KeyCode::Char('d') if bare => Step { app: a, action: ActionView::Detach },
            KeyCode::Char('q') if bare => Step { app: a, action: ActionView::Shutdown },
            KeyCode::Tab => AppView {
                focus: if a.focus is Sidebar {
                    Focus::Terminal
                } else {
                    Focus::Sidebar
                },
                ..a
            }.idle(),
            KeyCode::Char('w') if bare => if a.focus is Sidebar {
                AppView { worktree_mode: true, worktree_input: Seq::empty(), ..a }.idle()
            } else {
                a.idle()
            },
            KeyCode::Up => if a.focus is Sidebar {
                a.reorders(a.can_move_up(), a.selected - 1)
            } else {
                a.prevs().attaches()
            },
            KeyCode::Down => if a.focus is Sidebar {
                a.reorders(a.can_move_down(), a.selected + 1)
            } else {
                a.nexts().attaches()
            },
            KeyCode::Char(_) if is_prefix_key(key) => a.sends(
                ClientMsgView::Input { data: seq![prefix_value(PREFIX_KEY, prefix_modifiers())] },
            ),
            _ => a.idle(),
        }
    }

    /// What a key does while a branch is typed.
    pub open spec fn on_worktree_key(self, key: KeyEvent) -> Step {
        let done = AppView { worktree_mode: false, worktree_input: Seq::empty(), ..self };
        match key.code {
            KeyCode::Enter => {
                let branch = trimmed(self.worktree_input);
                let cwd = if self.selected < self.sessions.len() {
                    self.sessions[self.selected as int].cwd
                } else {
                    None
                };
                if branch.len() > 0 {
                    done.sends(
                        ClientMsgView::NewSession {
                            name: branch,
                            cols: self.term_cols,
                            rows: self.term_rows,
                            startup_cmds: seq![worktree_cmd(quoted(cwd), branch)],
                        },
                    )
                } else {
                    done.idle()
                }
            },
            KeyCode::Esc => done.idle(),
            KeyCode::Backspace => AppView {
                worktree_input: without_last(self.worktree_input),
                ..self
            }.idle(),
            KeyCode::Char(c) => AppView { worktree_input: self.worktree_input.push(c), ..self }.idle(),
            _ => self.idle(),
        }
    }

    /// What a key does while a name is typed.
    pub open spec fn on_rename_key(self, key: KeyEvent) -> Step {
        let done = AppView { rename_mode: false, rename_input: Seq::empty(), ..self };
        match key.code {
            KeyCode::Enter => {
                let name = trimmed(self.rename_input);
                match self.current() {
                    Some(id) if name.len() > 0 => {
                        let i = self.selected as int;
                        done.with(i, ClientSessionView { name, ..self.sessions[i] }).sends(
                            ClientMsgView::RenameSession { id, name },
                        )
                    },
                    _ => done.idle(),
                }
            },
            KeyCode::Esc => done.idle(),
            KeyCode::Backspace => AppView {
                rename_input: without_last(self.rename_input),
                ..self
            }.idle(),
            KeyCode::Char(c) => AppView { rename_input: self.rename_input.push(c), ..self }.idle(),
            _ => self.idle(),
        }
    }

    /// What a key does while the name of a new session is typed.
    pub open spec fn on_new_key(self, key: KeyEvent) -> Step {
        let done = AppView { new_mode: false, new_input: Seq::empty(), ..self };
        match key.code {
            KeyCode::Enter => {
                let name = trimmed(self.new_input);
                if name.len() > 0 {
                    done.sends(
                        ClientMsgView::NewSession {
                            name,
                            cols: self.term_cols,
                            rows: self.term_rows,
                            startup_cmds: Seq::empty(),
                        },
                    )
                } else {
                    done.idle()
                }
            },
            KeyCode::Esc => done.idle(),
            KeyCode::Backspace => AppView {
                new_input: without_last(self.new_input),
                ..self
            }.idle(),
            KeyCode::Char(c) => AppView { new_input: self.new_input.push(c), ..self }.idle(),
            _ => self.idle(),
        }
    }

    /// What a key does in the sidebar.
    pub open spec fn on_sidebar_key(self, key: KeyEvent) -> Step {
        match key.code {
            KeyCode::Char('j') | KeyCode::Down => self.nexts().attaches(),
            KeyCode::Char('k') | KeyCode::Up => self.prevs().attaches(),
            KeyCode::Char('n') => AppView {
                new_mode: true,
                new_input: Seq::empty(),
                ..self
            }.idle(),
            KeyCode::Char('r') => AppView {
                rename_mode: true,
                rename_input: if self.selected < self.sessions.len() {
                    self.sessions[self.selected as int].name
                } else {
                    Seq::empty()
                },
                ..self
            }.idle(),
            KeyCode::Char('d') => match self.current() {
                Some(id) => self.sends(ClientMsgView::DeleteSession { id }),
                None => self.idle(),
            },
            KeyCode::Enter | KeyCode::Tab => AppView { focus: Focus::Terminal, ..self }.idle(),
            _ => self.idle(),
        }
    }

    /// What a key does in the terminal: it is typed into the shell.
    pub open spec fn on_terminal_key(self, key: KeyEvent) -> Step {
        match key_bytes(key) {
            Some(data) => self.sends(ClientMsgView::Input { data }),
            None => self.idle(),
        }
    }

    /// Keys are typed into the shell.
    pub open spec fn forwards(self, key: KeyEvent) -> bool {
        &&& self.prefix_mode is Normal
        &&& !is_prefix_key(key)
        &&& !self.worktree_mode
        &&& !self.rename_mode
        &&& !self.new_mode
        &&& self.focus is Terminal
    }

    /// What a key pressed does.
    pub open spec fn on_key(self, key: KeyEvent) -> Step {
        if self.prefix_mode is Pending {
            self.on_command(key)
        } else if is_prefix_key(key) {
            AppView { prefix_mode: PrefixMode::Pending, ..self }.idle()
        } else if self.worktree_mode {
            self.on_worktree_key(key)
        } else if self.rename_mode {
            self.on_rename_key(key)
        } else if self.new_mode {
            self.on_new_key(key)
        } else if self.focus is Sidebar {
            self.on_sidebar_key(key)
        } else {
            self.on_terminal_key(key)
        }
    }

    /// What an event does. Another size of the screen is told to the daemon, where the client
    /// shows a session. When the daemon is gone, the client ends.
    pub open spec fn on_event(self, event: Event) -> Step {
        match event {
            Event::Key(key) => if key.kind is Press {
                self.on_key(key)
            } else {
                self.idle()
            },
            Event::Resize(cols, rows) => {
                let (tc, tr) = pane(cols, rows);
                let a = AppView { term_cols: tc, term_rows: tr, ..self };
                if a.attached_id is Some {
                    a.sends(ClientMsgView::Resize { cols: tc, rows: tr })
                } else {
                    a.idle()
                }
            },
            Event::Disconnected => Step { app: self, action: ActionView::Exit },
            Event::Unused => self.idle(),
        }
    }

    pub open spec fn calm(self) -> Heard {
        Heard { app: self, reaction: ReactionView::Idle }
    }

    /// A session has been created: it is listed last, selected, and attached to.
    pub open spec fn on_created(self, id: usize, name: Seq<char>) -> Heard {
        let s = listed_session(
            SessionInfoView { id, name, cwd: None },
            self.term_cols,
            self.term_rows,
        );
        Heard {
            app: AppView { sessions: self.sessions.push(s), ..self }.select(
                self.sessions.len() as int,
            ),
            reaction: ReactionView::Send(
                ClientMsgView::Attach { id, cols: self.term_cols, rows: self.term_rows },
            ),
        }
    }

    /// A session has been deleted. The selection stays inside the list.
    pub open spec fn on_deleted(self, id: usize) -> AppView {
        let a = AppView { sessions: without(self.sessions, id), ..self };
        if a.sessions.len() == 0 {
            AppView { selected: 0, list_selected: None, ..a }
        } else if a.selected >= a.sessions.len() {
            a.select(a.sessions.len() - 1)
        } else {
            a.select(a.selected as int)
        }
    }

    /// A session has moved. The selection stays with the session that it was on.
    pub open spec fn on_reordered(self, id: usize, new_index: usize) -> AppView {
        if self.has(id) && new_index < self.sessions.len() {
            let from = self.index(id);
            AppView { sessions: moved(self.sessions, from, new_index as int), ..self }.select(
                selection_after_move(self.selected, from, new_index as int) as int,
            )
        } else {
            self
        }
    }

    /// What a message of the daemon does.
    pub open spec fn on_message(self, msg: DaemonMsgView) -> Heard {
        match msg {
            DaemonMsgView::PtyOutput { id, data } => if self.has(id) {
                Heard {
                    app: self,
                    reaction: ReactionView::Feed { index: self.index(id) as usize, data },
                }
            } else {
                self.calm()
            },
            DaemonMsgView::SessionCreated { id, name } => self.on_created(id, name),
            DaemonMsgView::SessionDeleted { id } => self.on_deleted(id).calm(),
            DaemonMsgView::SessionRenamed { id, name } => if self.has(id) {
                let i = self.index(id);
                self.with(i, ClientSessionView { name, ..self.sessions[i] }).calm()
            } else {
                self.calm()
            },
            DaemonMsgView::SessionReordered { id, new_index } => self.on_reordered(
                id,
                new_index,
            ).calm(),
            DaemonMsgView::CwdUpdate { id, cwd } => if self.has(id) {
                let i = self.index(id);
                self.with(i, ClientSessionView { cwd: Some(cwd), ..self.sessions[i] }).calm()
            } else {
                self.calm()
            },
            DaemonMsgView::Attached { id, cleared } => AppView {
                attached_id: Some(id),
                ..self
            }.calm(),
            DaemonMsgView::Detached => AppView { attached_id: None, ..self }.calm(),
            DaemonMsgView::Error { msg } => self.calm(),
            DaemonMsgView::SessionList { sessions } => self.calm(),
            DaemonMsgView::Done => self.calm(),
        }
    }
}

/// A text without its last character, where it has one.
pub open spec fn without_last(s: Seq<char>) -> Seq<char> {
    if s.len() == 0 {
        s
    } else {
        s.drop_last()
    }
}

/// An update of one session is an update of its value.
proof fn lemma_session_updated(v: Seq<ClientSession>, w: Seq<ClientSession>, i: int)
    requires
        0 <= i < v.len(),
        w =~= v.update(i, w[i]),
    ensures
        session_views(w) == session_views(v).update(i, w[i]@),
{
    assert(session_views(w) =~= session_views(v).update(i, w[i]@));
}

/// Every emulator stands where it stood.
pub open spec fn same_emulators(before: Seq<ClientSession>, after: Seq<ClientSession>) -> bool {
    &&& after.len() == before.len()
    &&& forall|k: int|
        0 <= k < after.len() ==> (#[trigger] after[k]).parser == before[k].parser
}

/// What becomes of the emulators when an event leads to `action`, where `selected` was selected:
/// that of a session which is attached to is a new one, those of a list in which the selected
/// session moves go with their sessions, and all others stay.
pub open spec fn emulators_after(
    before: Seq<ClientSession>,
    after: Seq<ClientSession>,
    selected: usize,
    action: ActionView,
) -> bool {
    &&& after.len() == before.len()
    &&& forall|k: int|
        0 <= k < after.len() ==> match action {
            ActionView::SendMsg(ClientMsgView::Attach { id, cols, rows }) => if k == place(
                ids(session_views(after)),
                id,
            ) {
                is_fresh((#[trigger] after[k]).parser)
            } else {
                after[k].parser == before[k].parser
            },
            ActionView::SendMsg(ClientMsgView::ReorderSession { id, new_index }) => {
                after[k].parser == before[source(selected as int, new_index as int, k)].parser
            },
            _ => after[k].parser == before[k].parser,
        }
}

/// What becomes of the emulators when the client in state `a` gets a message: a new session has a
/// new one, those of a list that loses a session or in which one moves go with their sessions, and
/// all others stay.
pub open spec fn emulators_heard(
    before: Seq<ClientSession>,
    after: Seq<ClientSession>,
    a: AppView,
    msg: DaemonMsgView,
) -> bool {
    match msg {
        DaemonMsgView::SessionCreated { id, name } => after == before.push(after.last())
            && is_fresh(after.last().parser),
        DaemonMsgView::SessionDeleted { id } => after == kept_sessions(before, id),
        DaemonMsgView::SessionReordered { id, new_index } => after == if a.has(id) && new_index
            < a.sessions.len() {
            moved(before, a.index(id), new_index as int)
        } else {
            before
        },
        _ => same_emulators(before, after),
    }
}

/// Where the selected session moves, every emulator goes with its session.
proof fn lemma_emulators_moved(
    before: Seq<ClientSession>,
    after: Seq<ClientSession>,
    a: AppView,
    moved_to: Option<(usize, usize)>,
)
    requires
        match moved_to {
            Some((id, to)) => a.selected < before.len() && to < before.len() && after == moved(
                before,
                a.selected as int,
                to as int,
            ),
            None => after == before,
        },
    ensures
        emulators_after(
            before,
            after,
            a.selected,
            match moved_to {
                Some((id, new_index)) => ActionView::SendMsg(
                    ClientMsgView::ReorderSession { id, new_index },
                ),
                None => ActionView::Idle,
            },
        ),
{
    if let Some((id, to)) = moved_to {
        assert forall|k: int| 0 <= k < before.len() implies (#[trigger] after[k])
            == before[source(a.selected as int, to as int, k)] by {
            lemma_moved_from(before, a.selected as int, to as int, k);
        }
    }
}

/// Sessions without those of a number.
pub open spec fn kept_sessions(s: Seq<ClientSession>, id: usize) -> Seq<ClientSession> {
    s.filter(|x: ClientSession| x.id != id)
}

/// The values of the sessions kept are the values kept.
proof fn lemma_kept_views(s: Seq<ClientSession>, id: usize)
    ensures
        session_views(kept_sessions(s, id)) == without(session_views(s), id),
    decreases s.len(),
{
    reveal(Seq::filter);
    if s.len() > 0 {
        let fewer = s.drop_last();
        lemma_kept_views(fewer, id);
        assert(session_views(s).drop_last() =~= session_views(fewer));
        assert(session_views(kept_sessions(fewer, id).push(s.last())) =~= session_views(
            kept_sessions(fewer, id),
        ).push(s.last()@));
        assert(session_views(s).last() == s.last()@);
    }
    assert(session_views(kept_sessions(s, id)) =~= without(session_views(s), id));
}

/// The selection of a session in the list is the session's number.
proof fn lemma_current_listed(a: AppView)
    requires
        a.selected < a.sessions.len(),
    ensures
        a.has(a.sessions[a.selected as int].id),
        0 <= a.index(a.sessions[a.selected as int].id) <= a.selected,
{
    let id = a.sessions[a.selected as int].id;
    let all = ids(a.sessions);
    assert(all[a.selected as int] == id);
    lemma_place_exists(all, id);
}

/// The command that makes a worktree for a branch and goes there, from the directory whose quoted
/// form is given.
pub fn worktree_command(quoted_cwd: &Option<String>, branch: &str) -> (r: String)
    ensures
        r@ == worktree_cmd(opt_text(*quoted_cwd), branch@),
{
    let mut r = String::new();
    if let Some(q) = quoted_cwd {
        r.push_str("cd ");
        r.push_str(q.as_str());
        r.push_str(" && ");
    }
    let ghost head = r@;
    r.push_str("git worktree add ../");
    r.push_str(branch);
    r.push_str(" -b ");
    r.push_str(branch);
    r.push_str(" && cd ../");
    r.push_str(branch);
    proof {
        let cmd = "git worktree add ../"@ + branch@ + " -b "@ + branch@ + " && cd ../"@ + branch@;
        assert(r@ =~= head + cmd);
        match quoted_cwd {
            Some(q) => {
                assert(head =~= "cd "@ + q@ + " && "@);
                assert(r@ =~= "cd "@ + q@ + " && "@ + cmd);
            },
            None => {
                assert(r@ =~= cmd);
            },
        }
    }
    r
}

/// The quoted form of a directory.
pub fn quote_cwd(cwd: &Option<String>) -> (r: Option<String>)
    ensures
        opt_text(r) == quoted(opt_text(*cwd)),
{
    match cwd {
        Some(d) => Some(debug_text(d.as_str())),
        None => None,
    }
}

/// What the daemon's answer to the first request comes to: the list of sessions, or why there is
/// none.
pub fn session_list_reply(msg: DaemonMsg) -> (r: Result<Vec<SessionInfo>, String>)
    ensures
        match msg@ {
            DaemonMsgView::SessionList { sessions } => r matches Ok(list) && infos(list@)
                == sessions,
            DaemonMsgView::Error { msg } => r matches Err(e) && e@ == "daemon error: "@ + msg,
            _ => r matches Err(e) && e@ == "unexpected response"@,
        },
{
    match msg {
        DaemonMsg::SessionList { sessions } => Ok(sessions),
        DaemonMsg::Error { msg } => {
            let mut e = "daemon error: ".to_string();
            e.push_str(msg.as_str());
            Err(e)
        },
        _ => Err("unexpected response".to_string()),
    }
}

/// What the client tells the daemon and the user when it ends.
pub fn farewell(action: &Action) -> (r: Option<(ClientMsg, String)>)
    ensures
        match action@ {
            ActionView::Shutdown => r matches Some(f) && f.0@ == ClientMsgView::Shutdown && f.1@
                == "mbulet: daemon shut down."@,
            ActionView::Detach => r matches Some(f) && f.0@ == ClientMsgView::Detach && f.1@
                == "mbulet: detached. Sessions running in background. Run 'mbulet' to reattach."@,
            _ => r is None,
        },
{
    match action {
        Action::Shutdown => Some((ClientMsg::Shutdown, "mbulet: daemon shut down.".to_string())),
        Action::Detach => Some(
            (
                ClientMsg::Detach,
                "mbulet: detached. Sessions running in background. Run 'mbulet' to reattach.".to_string(),
            ),
        ),
        _ => None,
    }
}

impl App {
    /// A client that lists the given sessions, with a terminal pane of the given size.
    pub fn new(sessions: Vec<SessionInfo>, term_cols: u16, term_rows: u16) -> (a: App)
        ensures
            a@ == AppView::new(infos(sessions@), term_cols, term_rows),
            a@.ok(),
            forall|k: int| 0 <= k < a.sessions@.len() ==> is_fresh((#[trigger] a.sessions@[k]).parser),
    {
        let mut list: Vec<ClientSession> = Vec::new();
        let mut i: usize = 0;
        while i < sessions.len()
            invariant
                i <= sessions@.len(),
                list@.len() == i,
                forall|k: int|
                    0 <= k < i ==> (#[trigger] list@[k])@ == listed_session(
                        sessions@[k]@,
                        term_cols,
                        term_rows,
                    ) && is_fresh(list@[k].parser),
            decreases sessions@.len() - i,
        {
            let s = &sessions[i];
            let c = ClientSession {
                id: s.id,
                name: s.name.clone(),
                cwd: copy_opt(&s.cwd),
                parser: fresh_parser(term_cols, term_rows),
            };
            assert(c@ =~= listed_session(s@, term_cols, term_rows));
            list.push(c);
            i += 1;
        }
        let list_selected: Option<usize> = if list.len() > 0 {
            Some(0)
        } else {
            None
        };
        let a = App {
            sessions: list,
            selected: 0,
            list_selected,
            focus: Focus::Sidebar,
            prefix_mode: PrefixMode::Normal,
            rename_mode: false,
            rename_input: String::new(),
            worktree_mode: false,
            worktree_input: String::new(),
            new_mode: false,
            new_input: String::new(),
            term_cols,
            term_rows,
            attached_id: None,
        };
        assert(a@.sessions =~= AppView::new(infos(sessions@), term_cols, term_rows).sessions);
        assert(a@ =~= AppView::new(infos(sessions@), term_cols, term_rows));
        a
    }

    /// The number of the selected session.
    pub fn current_id(&self) -> (r: Option<usize>)
        ensures
            r == self@.current(),
    {
        if self.selected < self.sessions.len() {
            Some(self.sessions[self.selected].id)
        } else {
            None
        }
    }

    /// The place of a session.
    pub fn find(&self, id: usize) -> (r: Option<usize>)
        ensures
            match r {
                Some(i) => i < self@.sessions.len() && self@.has(id) && self@.index(id) == i
                    && self@.sessions[i as int].id == id,
                None => !self@.has(id),
            },
    {
        let ghost all = ids(self@.sessions);
        let mut i: usize = 0;
        while i < self.sessions.len()
            invariant
                i <= self.sessions@.len(),
                all == ids(self@.sessions),
                forall|k: int| 0 <= k < i ==> all[k] != id,
            decreases self.sessions@.len() - i,
        {
            if self.sessions[i].id == id {
                proof {
                    assert(first_at(all, id, i as int));
                    lemma_place(all, id, i as int);
                }
                return Some(i);
            }
            assert(all[i as int] == self.sessions@[i as int]@.id);
            i += 1;
        }
        None
    }

    /// Selects the next session, after the last the first.
    pub fn next(&mut self)
        requires
            old(self)@.ok(),
        ensures
            final(self)@ == old(self)@.nexts(),
            final(self)@.ok(),
            final(self).sessions@ == old(self).sessions@,
    {
        if self.sessions.len() == 0 {
            return ;
        }
        self.selected = if self.selected == self.sessions.len() - 1 {
            0
        } else {
            self.selected + 1
        };
        self.list_selected = Some(self.selected);
    }

    /// Selects the session before, before the first the last.
    pub fn prev(&mut self)
        requires
            old(self)@.ok(),
        ensures
            final(self)@ == old(self)@.prevs(),
            final(self)@.ok(),
            final(self).sessions@ == old(self).sessions@,
    {
        if self.sessions.len() == 0 {
            return ;
        }
        self.selected = if self.selected == 0 {
            self.sessions.len() - 1
        } else {
            self.selected - 1
        };
        self.list_selected = Some(self.selected);
    }

    /// Moves the selected session to another place.
    fn move_selected(&mut self, to: usize)
        requires
            old(self)@.ok(),
            old(self)@.selected < old(self)@.sessions.len(),
            to < old(self)@.sessions.len(),
        ensures
            final(self)@ == old(self)@.moves_to(to as int),
            final(self)@.ok(),
            final(self).sessions@ == moved(
                old(self).sessions@,
                old(self)@.selected as int,
                to as int,
            ),
    {
        let from: usize = self.selected;
        let s = self.sessions.remove(from);
        self.sessions.insert(to, s);
        self.selected = to;
        self.list_selected = Some(to);
        proof {
            let before = old(self)@.sessions;
            assert(self@.sessions =~= moved(before, from as int, to as int));
            assert forall|k: int| 0 <= k < self@.sessions.len() implies (
            #[trigger] self@.sessions[k]).screen.ok() by {
                lemma_moved_from(before, from as int, to as int, k);
            }
            assert(self.sessions@ =~= moved(old(self).sessions@, from as int, to as int));
        }
    }

    /// Moves the selected session up. Returns its number and its new place, for the daemon, or
    /// `None` where it is the first.
    pub fn move_session_up(&mut self) -> (r: Option<(usize, usize)>)
        requires
            old(self)@.ok(),
        ensures
            final(self)@ == if old(self)@.can_move_up() {
                old(self)@.moves_to(old(self)@.selected - 1)
            } else {
                old(self)@
            },
            r == if old(self)@.can_move_up() {
                Some(
                    (
                        old(self)@.sessions[old(self)@.selected as int].id,
                        (old(self)@.selected - 1) as usize,
                    ),
                )
            } else {
                None
            },
            final(self)@.ok(),
            final(self).sessions@ == if old(self)@.can_move_up() {
                moved(
                    old(self).sessions@,
                    old(self)@.selected as int,
                    old(self)@.selected - 1,
                )
            } else {
                old(self).sessions@
            },
    {
        if self.sessions.len() == 0 || self.selected == 0 {
            return None;
        }
        let id: usize = self.sessions[self.selected].id;
        let new_index: usize = self.selected - 1;
        self.move_selected(new_index);
        Some((id, new_index))
    }

    /// Moves the selected session down. Returns its number and its new place, for the daemon, or
    /// `None` where it is the last.
    pub fn move_session_down(&mut self) -> (r: Option<(usize, usize)>)
        requires
            old(self)@.ok(),
        ensures
            final(self)@ == if old(self)@.can_move_down() {
                old(self)@.moves_to(old(self)@.selected + 1)
            } else {
                old(self)@
            },
            r == if old(self)@.can_move_down() {
                Some(
                    (
                        old(self)@.sessions[old(self)@.selected as int].id,
                        (old(self)@.selected + 1) as usize,
                    ),
                )
            } else {
                None
            },
            final(self)@.ok(),
            final(self).sessions@ == if old(self)@.can_move_down() {
                moved(
                    old(self).sessions@,
                    old(self)@.selected as int,
                    old(self)@.selected + 1,
                )
            } else {
                old(self).sessions@
            },
    {
        if self.sessions.len() == 0 || self.selected >= self.sessions.len() - 1 {
            return None;
        }
        let id: usize = self.sessions[self.selected].id;
        let new_index: usize = self.selected + 1;
        self.move_selected(new_index);
        Some((id, new_index))
    }

    /// Attaches to the selected session: wipes its screen, so that the output which the daemon
    /// sends again does not stand there twice, and asks the daemon.
    pub fn attach_selected(&mut self) -> (r: Action)
        requires
            old(self)@.ok(),
        ensures
            final(self)@ == old(self)@.attaches().app,
            r@ == old(self)@.attaches().action,
            final(self)@.ok(),
            match old(self)@.current() {
                Some(id) => is_fresh(final(self).sessions@[final(self)@.index(id)].parser),
                None => true,
            },
            emulators_after(old(self).sessions@, final(self).sessions@, old(self)@.selected, r@),
    {
        match self.current_id() {
            Some(id) => {
                let (cols, rows) = (self.term_cols, self.term_rows);
                if let Some(i) = self.find(id) {
                    self.sessions[i].parser = fresh_parser(cols, rows);
                    proof {
                        let before = old(self)@.sessions[i as int];
                        lemma_session_updated(old(self).sessions@, self.sessions@, i as int);
                        assert(self.sessions@[i as int]@ =~= (ClientSessionView {
                            screen: blank_screen(at_least_one(rows), at_least_one(cols)),
                            ..before
                        }));
                    }
                }
                assert(self@ =~= old(self)@.wiped(id));
                proof {
                    lemma_current_listed(old(self)@);
                    assert(ids(self@.sessions) =~= ids(old(self)@.sessions));
                }
                Action::SendMsg(ClientMsg::Attach { id, cols, rows })
            },
            None => Action::Idle,
        }
    }

    fn reorder_message(moved_to: Option<(usize, usize)>) -> (r: Action)
        ensures
            r@ == match moved_to {
                Some((id, new_index)) => ActionView::SendMsg(
                    ClientMsgView::ReorderSession { id, new_index },
                ),
                None => ActionView::Idle,
            },
    {
        match moved_to {
            Some((id, new_index)) => Action::SendMsg(ClientMsg::ReorderSession { id, new_index }),
            None => Action::Idle,
        }
    }

    fn command_key(&mut self, key: KeyEvent) -> (r: Action)
        requires
            old(self)@.ok(),
        ensures
            final(self)@ == old(self)@.on_command(key).app,
            r@ == old(self)@.on_command(key).action,
            final(self)@.ok(),
            emulators_after(old(self).sessions@, final(self).sessions@, old(self)@.selected, r@),
    {
        self.prefix_mode = PrefixMode::Normal;
        if key.modifiers == no_modifiers() {
            if key.code == KeyCode::Char('d') {
                return Action::Detach;
            }
            if key.code == KeyCode::Char('q') {
                return Action::Shutdown;
            }
            if key.code == KeyCode::Char('w') {
                if self.focus == Focus::Sidebar {
                    self.worktree_mode = true;
                    self.worktree_input.clear();
                }
                return Action::Idle;
            }
        }
        if is_prefix_key(key) {
            let mut data: Vec<u8> = Vec::new();
            data.push(prefix_byte(PREFIX_KEY, prefix_modifiers()));
            assert(data@ =~= seq![prefix_value(PREFIX_KEY, prefix_modifiers())]);
            return Action::SendMsg(ClientMsg::Input { data });
        }
        match key.code {
            KeyCode::Tab => {
                self.focus = if self.focus == Focus::Sidebar {
                    Focus::Terminal
                } else {
                    Focus::Sidebar
                };
                Action::Idle
            },
            KeyCode::Up => if self.focus == Focus::Sidebar {
                let moved_to = self.move_session_up();
                proof {
                    lemma_emulators_moved(old(self).sessions@, self.sessions@, old(self)@, moved_to);
                }
                Self::reorder_message(moved_to)
            } else {
                self.prev();
                self.attach_selected()
            },
            KeyCode::Down => if self.focus == Focus::Sidebar {
                let moved_to = self.move_session_down();
                proof {
                    lemma_emulators_moved(old(self).sessions@, self.sessions@, old(self)@, moved_to);
                }
                Self::reorder_message(moved_to)
            } else {
                self.next();
                self.attach_selected()
            },
            _ => Action::Idle,
        }
    }

    fn worktree_key(&mut self, key: KeyEvent) -> (r: Action)
        requires
            old(self)@.ok(),
        ensures
            final(self)@ == old(self)@.on_worktree_key(key).app,
            r@ == old(self)@.on_worktree_key(key).action,
            final(self)@.ok(),
            emulators_after(old(self).sessions@, final(self).sessions@, old(self)@.selected, r@),
    {
        match key.code {
            KeyCode::Enter => {
                let branch = self.worktree_input.as_str().trim().to_string();
                self.worktree_mode = false;
                self.worktree_input.clear();
                if branch.as_str().unicode_len() > 0 {
                    let cwd = if self.selected < self.sessions.len() {
                        copy_opt(&self.sessions[self.selected].cwd)
                    } else {
                        None
                    };
                    let quoted_cwd = quote_cwd(&cwd);
                    let cmd = worktree_command(&quoted_cwd, branch.as_str());
                    let mut startup_cmds: Vec<String> = Vec::new();
                    startup_cmds.push(cmd);
                    assert(texts(startup_cmds@) =~= seq![cmd@]);
                    Action::SendMsg(
                        ClientMsg::NewSession {
                            name: branch,
                            cols: self.term_cols,
                            rows: self.term_rows,
                            startup_cmds,
                        },
                    )
                } else {
                    Action::Idle
                }
            },
            KeyCode::Esc => {
                self.worktree_mode = false;
                self.worktree_input.clear();
                Action::Idle
            },
            KeyCode::Backspace => {
                let _last = self.worktree_input.pop();
                Action::Idle
            },
            KeyCode::Char(c) => {
                self.worktree_input.push(c);
                Action::Idle
            },
            _ => Action::Idle,
        }
    }

    fn rename_key(&mut self, key: KeyEvent) -> (r: Action)
        requires
            old(self)@.ok(),
        ensures
            final(self)@ == old(self)@.on_rename_key(key).app,
            r@ == old(self)@.on_rename_key(key).action,
            final(self)@.ok(),
            emulators_after(old(self).sessions@, final(self).sessions@, old(self)@.selected, r@),
    {
        match key.code {
            KeyCode::Enter => {
                let name = self.rename_input.as_str().trim().to_string();
                let current = self.current_id();
                self.rename_mode = false;
                self.rename_input.clear();
                if name.as_str().unicode_len() > 0 {
                    if let Some(id) = current {
                        let i: usize = self.selected;
                        self.sessions[i].name = name.clone();
                        proof {
                            let before = old(self)@.sessions[i as int];
                            lemma_session_updated(old(self).sessions@, self.sessions@, i as int);
                            assert(self.sessions@[i as int]@ =~= (ClientSessionView {
                                name: name@,
                                ..before
                            }));
                        }
                        return Action::SendMsg(ClientMsg::RenameSession { id, name });
                    }
                }
                Action::Idle
            },
            KeyCode::Esc => {
                self.rename_mode = false;
                self.rename_input.clear();
                Action::Idle
            },
            KeyCode::Backspace => {
                let _last = self.rename_input.pop();
                Action::Idle
            },
            KeyCode::Char(c) => {
                self.rename_input.push(c);
                Action::Idle
            },
            _ => Action::Idle,
        }
    }

    fn new_key(&mut self, key: KeyEvent) -> (r: Action)
        requires
            old(self)@.ok(),
        ensures
            final(self)@ == old(self)@.on_new_key(key).app,
            r@ == old(self)@.on_new_key(key).action,
            final(self)@.ok(),
            emulators_after(old(self).sessions@, final(self).sessions@, old(self)@.selected, r@),
    {
        match key.code {
            KeyCode::Enter => {
                let name = self.new_input.as_str().trim().to_string();
                self.new_mode = false;
                self.new_input.clear();
                if name.as_str().unicode_len() > 0 {
                    let startup_cmds: Vec<String> = Vec::new();
                    assert(texts(startup_cmds@) =~= Seq::<Seq<char>>::empty());
                    Action::SendMsg(
                        ClientMsg::NewSession {
                            name,
                            cols: self.term_cols,
                            rows: self.term_rows,
                            startup_cmds,
                        },
                    )
                } else {
                    Action::Idle
                }
            },
            KeyCode::Esc => {
                self.new_mode = false;
                self.new_input.clear();
                Action::Idle
            },
            KeyCode::Backspace => {
                let _last = self.new_input.pop();
                Action::Idle
            },
            KeyCode::Char(c) => {
                self.new_input.push(c);
                Action::Idle
            },
            _ => Action::Idle,
        }
    }

    fn sidebar_key(&mut self, key: KeyEvent) -> (r: Action)
        requires
            old(self)@.ok(),
        ensures
            final(self)@ == old(self)@.on_sidebar_key(key).app,
            r@ == old(self)@.on_sidebar_key(key).action,
            final(self)@.ok(),
            emulators_after(old(self).sessions@, final(self).sessions@, old(self)@.selected, r@),
    {
        match key.code {
            KeyCode::Char('j') | KeyCode::Down => {
                self.next();
                self.attach_selected()
            },
            KeyCode::Char('k') | KeyCode::Up => {
                self.prev();
                self.attach_selected()
            },
            KeyCode::Char('n') => {
                self.new_input.clear();
                self.new_mode = true;
                Action::Idle
            },
            KeyCode::Char('r') => {
                self.rename_input = if self.selected < self.sessions.len() {
                    self.sessions[self.selected].name.clone()
                } else {
                    String::new()
                };
                self.rename_mode = true;
                Action::Idle
            },
            KeyCode::Char('d') => match self.current_id() {
                Some(id) => Action::SendMsg(ClientMsg::DeleteSession { id }),
                None => Action::Idle,
            },
            KeyCode::Enter | KeyCode::Tab => {
                self.focus = Focus::Terminal;
                Action::Idle
            },
            _ => Action::Idle,
        }
    }

    fn terminal_key(&self, key: KeyEvent) -> (r: Action)
        requires
            key_in_range(key),
        ensures
            r@ == self@.on_terminal_key(key).action,
    {
        match key_to_bytes(key) {
            Some(data) => Action::SendMsg(ClientMsg::Input { data }),
            None => Action::Idle,
        }
    }

    /// Handles a key pressed.
    fn handle_key(&mut self, key: KeyEvent) -> (r: Action)
        requires
            old(self)@.ok(),
            old(self)@.forwards(key) ==> key_in_range(key),
        ensures
            final(self)@ == old(self)@.on_key(key).app,
            r@ == old(self)@.on_key(key).action,
            final(self)@.ok(),
            emulators_after(old(self).sessions@, final(self).sessions@, old(self)@.selected, r@),
    {
        if self.prefix_mode == PrefixMode::Pending {
            self.command_key(key)
        } else if is_prefix_key(key) {
            self.prefix_mode = PrefixMode::Pending;
            Action::Idle
        } else if self.worktree_mode {
            self.worktree_key(key)
        } else if self.rename_mode {
            self.rename_key(key)
        } else if self.new_mode {
            self.new_key(key)
        } else if self.focus == Focus::Sidebar {
            self.sidebar_key(key)
        } else {
            self.terminal_key(key)
        }
    }

    /// Handles an event at the client's terminal. A key that is typed into the shell must have a
    /// number that can be sent.
    pub fn handle_event(&mut self, event: Event) -> (r: Action)
        requires
            old(self)@.ok(),
            event matches Event::Key(key) ==> key.kind is Press && old(self)@.forwards(key)
                ==> key_in_range(key),
        ensures
            final(self)@ == old(self)@.on_event(event).app,
            r@ == old(self)@.on_event(event).action,
            final(self)@.ok(),
            emulators_after(old(self).sessions@, final(self).sessions@, old(self)@.selected, r@),
    {
        match event {
            Event::Key(key) => if key.kind == KeyEventKind::Press {
                self.handle_key(key)
            } else {
                Action::Idle
            },
            Event::Resize(cols, rows) => {
                let (term_cols, term_rows) = pane_size(cols, rows);
                self.term_cols = term_cols;
                self.term_rows = term_rows;
                if self.attached_id.is_some() {
                    Action::SendMsg(ClientMsg::Resize { cols: term_cols, rows: term_rows })
                } else {
                    Action::Idle
                }
            },
            Event::Disconnected => Action::Exit,
            Event::Unused => Action::Idle,
        }
    }

    fn created(&mut self, id: usize, name: String) -> (r: Reaction)
        requires
            old(self)@.ok(),
        ensures
            final(self)@ == old(self)@.on_created(id, name@).app,
            r@ == old(self)@.on_created(id, name@).reaction,
            final(self)@.ok(),
            final(self).sessions@ == old(self).sessions@.push(final(self).sessions@.last()),
            is_fresh(final(self).sessions@.last().parser),
    {
        let (cols, rows) = (self.term_cols, self.term_rows);
        let s = ClientSession { id, name, cwd: None, parser: fresh_parser(cols, rows) };
        let ghost info = SessionInfoView { id, name: name@, cwd: None };
        assert(s@ =~= listed_session(info, cols, rows));
        self.sessions.push(s);
        let new_index: usize = self.sessions.len() - 1;
        self.selected = new_index;
        self.list_selected = Some(new_index);
        assert(self@.sessions =~= old(self)@.sessions.push(s@));
        Reaction::Send(ClientMsg::Attach { id, cols, rows })
    }

    fn deleted(&mut self, id: usize)
        requires
            old(self)@.ok(),
        ensures
            final(self)@ == old(self)@.on_deleted(id),
            final(self)@.ok(),
            final(self).sessions@ == kept_sessions(old(self).sessions@, id),
    {
        let ghost all = old(self).sessions@;
        let ghost mut seen: int = 0;
        let mut i: usize = 0;
        proof {
            reveal(Seq::filter);
            assert(self.sessions@ =~= kept_sessions(all.take(0), id) + all.skip(0));
        }
        while i < self.sessions.len()
            invariant
                0 <= seen <= all.len(),
                i == kept_sessions(all.take(seen), id).len(),
                self.sessions@ == kept_sessions(all.take(seen), id) + all.skip(seen),
                self@ == (AppView { sessions: self@.sessions, ..old(self)@ }),
            decreases self.sessions@.len() - i,
        {
            proof {
                reveal(Seq::filter);
                let next = seen + 1;
                assert(all.take(next).drop_last() =~= all.take(seen));
                assert(all.take(next).last() == all[seen]);
                assert(self.sessions@[i as int] == all[seen]);
            }
            let ghost before = self.sessions@;
            if self.sessions[i].id != id {
                i += 1;
                proof {
                    assert(kept_sessions(all.take(seen + 1), id) =~= kept_sessions(
                        all.take(seen),
                        id,
                    ).push(all[seen]));
                    assert(self.sessions@ =~= kept_sessions(all.take(seen + 1), id) + all.skip(
                        seen + 1,
                    ));
                }
            } else {
                let _gone = self.sessions.remove(i);
                proof {
                    assert(self.sessions@ =~= before.remove(i as int));
                    assert(kept_sessions(all.take(seen + 1), id) =~= kept_sessions(
                        all.take(seen),
                        id,
                    ));
                    assert(self.sessions@ =~= kept_sessions(all.take(seen + 1), id) + all.skip(
                        seen + 1,
                    ));
                }
            }
            proof {
                seen = seen + 1;
            }
        }
        proof {
            assert(seen == all.len());
            assert(all.take(seen) =~= all);
            assert(self.sessions@ =~= kept_sessions(all, id));
            lemma_kept_views(all, id);
            lemma_filtered_ok(old(self)@.sessions, id);
        }
        if self.sessions.len() == 0 {
            self.selected = 0;
            self.list_selected = None;
        } else {
            if self.selected >= self.sessions.len() {
                self.selected = self.sessions.len() - 1;
            }
            self.list_selected = Some(self.selected);
        }
    }

    fn reordered(&mut self, id: usize, new_index: usize)
        requires
            old(self)@.ok(),
        ensures
            final(self)@ == old(self)@.on_reordered(id, new_index),
            final(self)@.ok(),
            final(self).sessions@ == if old(self)@.has(id) && new_index
                < old(self)@.sessions.len() {
                moved(old(self).sessions@, old(self)@.index(id), new_index as int)
            } else {
                old(self).sessions@
            },
    {
        if let Some(from) = self.find(id) {
            if new_index < self.sessions.len() {
                let s = self.sessions.remove(from);
                self.sessions.insert(new_index, s);
                proof {
                    let before = old(self)@.sessions;
                    assert(self@.sessions =~= moved(before, from as int, new_index as int));
                    assert forall|k: int| 0 <= k < self@.sessions.len() implies (
                    #[trigger] self@.sessions[k]).screen.ok() by {
                        lemma_moved_from(before, from as int, new_index as int, k);
                    }
                    assert(self.sessions@ =~= moved(
                        old(self).sessions@,
                        from as int,
                        new_index as int,
                    ));
                }
                if self.selected == from {
                    self.selected = new_index;
                } else if from < self.selected && new_index >= self.selected {
                    self.selected = self.selected - 1;
                } else if from > self.selected && new_index <= self.selected {
                    self.selected = self.selected + 1;
                }
                self.list_selected = Some(self.selected);
            }
        }
    }

    /// Handles a message of the daemon.
    pub fn handle_message(&mut self, msg: DaemonMsg) -> (r: Reaction)
        requires
            old(self)@.ok(),
        ensures
            final(self)@ == old(self)@.on_message(msg@).app,
            r@ == old(self)@.on_message(msg@).reaction,
            final(self)@.ok(),
            emulators_heard(old(self).sessions@, final(self).sessions@, old(self)@, msg@),
    {
        match msg {
            DaemonMsg::PtyOutput { id, data } => match self.find(id) {
                Some(index) => Reaction::Feed { index, data },
                None => Reaction::Idle,
            },
            DaemonMsg::SessionCreated { id, name } => self.created(id, name),
            DaemonMsg::SessionDeleted { id } => {
                self.deleted(id);
                Reaction::Idle
            },
            DaemonMsg::SessionRenamed { id, name } => {
                if let Some(i) = self.find(id) {
                    self.sessions[i].name = name;
                    proof {
                        let before = old(self)@.sessions[i as int];
                        lemma_session_updated(old(self).sessions@, self.sessions@, i as int);
                        assert(self.sessions@[i as int]@ =~= (ClientSessionView {
                            name: name@,
                            ..before
                        }));
                    }
                }
                Reaction::Idle
            },
            DaemonMsg::SessionReordered { id, new_index } => {
                self.reordered(id, new_index);
                Reaction::Idle
            },
            DaemonMsg::CwdUpdate { id, cwd } => {
                if let Some(i) = self.find(id) {
                    let ghost said = cwd@;
                    self.sessions[i].cwd = Some(cwd);
                    proof {
                        let before = old(self)@.sessions[i as int];
                        lemma_session_updated(old(self).sessions@, self.sessions@, i as int);
                        assert(self.sessions@[i as int]@ =~= (ClientSessionView {
                            cwd: Some(said),
                            ..before
                        }));
                    }
                }
                Reaction::Idle
            },
            DaemonMsg::Attached { id, cleared: _ } => {
                self.attached_id = Some(id);
                Reaction::Idle
            },
            DaemonMsg::Detached => {
                self.attached_id = None;
                Reaction::Idle
            },
            DaemonMsg::Error { msg: _ } => Reaction::Idle,
            DaemonMsg::SessionList { sessions: _ } => Reaction::Idle,
            DaemonMsg::Done => Reaction::Idle,
        }
    }
}

/// What stays of sessions in order is in order.
proof fn lemma_filtered_ok(s: Seq<ClientSessionView>, id: usize)
    requires
        forall|i: int| 0 <= i < s.len() ==> (#[trigger] s[i]).screen.ok(),
    ensures
        forall|i: int|
            0 <= i < without(s, id).len() ==> (#[trigger] without(s, id)[i]).screen.ok(),
    decreases s.len(),
{
    reveal(Seq::filter);
    if s.len() > 0 {
        assert forall|i: int| 0 <= i < s.drop_last().len() implies (
        #[trigger] s.drop_last()[i]).screen.ok() by {
            assert(s.drop_last()[i] == s[i]);
        }
        lemma_filtered_ok(s.drop_last(), id);
    }
}

/// Going on and going back, with the wrap at both ends, undo each other.
pub proof fn law_next_and_prev_undo_each_other(a: AppView)
    requires
        a.ok(),
    ensures
        a.nexts().prevs() == a,
        a.prevs().nexts() == a,
{
}

/// Whatever happens at the terminal, a request to attach goes out for the selected session, with
/// the size of the terminal, when nothing stands on that session's screen. So output that the
/// daemon sends again is not shown twice.
#[verifier::rlimit(40)]
pub proof fn law_attach_goes_out_on_blank_screen(a: AppView, event: Event)
    requires
        a.ok(),
    ensures
        a.on_event(event).action matches ActionView::SendMsg(
            ClientMsgView::Attach { id, cols, rows },
        ) ==> {
            let b = a.on_event(event).app;
            &&& b.has(id)
            &&& b.current() == Some(id)
            &&& cols == b.term_cols && rows == b.term_rows
            &&& b.sessions[b.index(id)].screen == blank_screen(
                at_least_one(rows),
                at_least_one(cols),
            )
        },
{
    lemma_attach_wipes(a.nexts());
    lemma_attach_wipes(a.prevs());
    let n = AppView { prefix_mode: PrefixMode::Normal, ..a };
    lemma_attach_wipes(n.nexts());
    lemma_attach_wipes(n.prevs());
}

proof fn lemma_attach_wipes(a: AppView)
    requires
        a.selected < a.sessions.len() || a.sessions.len() == 0,
    ensures
        a.attaches().action matches ActionView::SendMsg(ClientMsgView::Attach { id, cols, rows })
            ==> {
            let b = a.attaches().app;
            &&& b.has(id)
            &&& b.current() == Some(id)
            &&& cols == b.term_cols && rows == b.term_rows
            &&& b.sessions[b.index(id)].screen == blank_screen(
                at_least_one(rows),
                at_least_one(cols),
            )
        },
{
    if a.selected < a.sessions.len() {
        lemma_current_listed(a);
        let b = a.attaches().app;
        assert(ids(b.sessions) =~= ids(a.sessions));
    }
}

/// A new session is attached to when nothing stands on its screen.
pub proof fn law_new_session_attached_on_blank_screen(a: AppView, id: usize, name: Seq<char>)
    requires
        a.ok(),
        !a.has(id),
        a.sessions.len() < usize::MAX,
    ensures
        ({
            let h = a.on_message(DaemonMsgView::SessionCreated { id, name });
            &&& h.reaction == ReactionView::Send(
                ClientMsgView::Attach { id, cols: a.term_cols, rows: a.term_rows },
            )
            &&& h.app.current() == Some(id)
            &&& h.app.has(id)
            &&& h.app.sessions[h.app.index(id)].screen == blank_screen(
                at_least_one(a.term_rows),
                at_least_one(a.term_cols),
            )
        }),
{
    let b = a.on_created(id, name).app;
    let (before, after) = (ids(a.sessions), ids(b.sessions));
    assert(after =~= before.push(id));
    assert forall|k: int| 0 <= k < before.len() implies after[k] != id by {
        assert(before.contains(before[k]));
    }
    assert(first_at(after, id, before.len() as int));
    lemma_place(after, id, before.len() as int);
}

/// Whichever session moves, the selection stays with the session that it was on.
pub proof fn law_reorder_keeps_selected_session(a: AppView, id: usize, new_index: usize)
    requires
        a.ok(),
    ensures
        a.on_reordered(id, new_index).current() == a.current(),
{
    if a.has(id) && new_index < a.sessions.len() {
        lemma_place_exists(ids(a.sessions), id);
        let b = a.on_reordered(id, new_index);
        lemma_moved_from(a.sessions, a.index(id), new_index as int, b.selected as int);
    }
}

/// Moving the selected session up and then down, or the other way round, restores the list.
pub proof fn law_move_up_and_down_undo_each_other(a: AppView)
    requires
        a.ok(),
    ensures
        a.can_move_up() ==> {
            let b = a.moves_to(a.selected - 1);
            b.can_move_down() && b.moves_to(b.selected + 1) == a
        },
        a.can_move_down() ==> {
            let b = a.moves_to(a.selected + 1);
            b.can_move_up() && b.moves_to(b.selected - 1) == a
        },
{
    let i = a.selected as int;
    if a.can_move_up() {
        lemma_moved_back(a.sessions, i, i - 1);
    }
    if a.can_move_down() {
        lemma_moved_back(a.sessions, i, i + 1);
    }
}

/// The key after the prefix key is a command, or nothing at all: it is never typed into a name, a
/// branch or, but for the prefix key itself, the shell. Then keys mean again what they meant.
pub proof fn law_command_key_is_no_input(a: AppView, key: KeyEvent)
    requires
        a.prefix_mode is Pending,
        key.kind is Press,
    ensures
        ({
            let s = a.on_event(Event::Key(key));
            &&& s.app.prefix_mode is Normal
            &&& s.app.rename_input == a.rename_input && s.app.rename_mode == a.rename_mode
            &&& s.app.new_input == a.new_input && s.app.new_mode == a.new_mode
            &&& s.app.worktree_input == a.worktree_input || s.app.worktree_input == Seq::<
                char,
            >::empty()
            &&& s.action matches ActionView::SendMsg(ClientMsgView::Input { data })
                ==> is_prefix_key(key) && data == seq![0x02u8]
        }),
{
}

/// The prefix key pressed twice types it into the shell once.
pub proof fn law_prefix_twice_types_it(a: AppView, key: KeyEvent)
    requires
        a.prefix_mode is Normal,
        is_prefix_key(key),
        key.kind is Press,
    ensures
        ({
            let one = a.on_event(Event::Key(key));
            let two = one.app.on_event(Event::Key(key));
            &&& one.action is Idle
            &&& two.app == a
            &&& two.action == ActionView::SendMsg(ClientMsgView::Input { data: seq![0x02u8] })
        }),
{
    let one = a.on_event(Event::Key(key));
    assert(one.app.on_event(Event::Key(key)).app =~= a);
}

/// A new session is asked for only when a name or a branch has been typed and confirmed, and bears
/// what was typed, without white space around it.
pub proof fn law_new_session_bears_typed_name(a: AppView, event: Event)
    ensures
        a.on_event(event).action matches ActionView::SendMsg(
            ClientMsgView::NewSession { name, cols, rows, startup_cmds },
        ) ==> {
            &&& event matches Event::Key(key)
            &&& key.code is Enter
            &&& name.len() > 0
            &&& name == trimmed(
                if a.worktree_mode {
                    a.worktree_input
                } else {
                    a.new_input
                },
            )
            &&& a.worktree_mode || a.new_mode && startup_cmds.len() == 0
            &&& cols == a.term_cols && rows == a.term_rows
        },
{
}

/// The command `Tab` goes from the sidebar to the terminal and from the terminal to the sidebar,
/// and does nothing else: given twice, it changes nothing.
pub proof fn law_tab_command_switches_focus(a: AppView, prefix: KeyEvent, tab: KeyEvent)
    requires
        a.prefix_mode is Normal,
        is_prefix_key(prefix),
        prefix.kind is Press,
        tab.code is Tab,
        tab.kind is Press,
    ensures
        ({
            let one = a.on_event(Event::Key(prefix)).app.on_event(Event::Key(tab));
            let two = one.app.on_event(Event::Key(prefix)).app.on_event(Event::Key(tab));
            &&& one.action is Idle && two.action is Idle
            &&& one.app.focus != a.focus
            &&& two.app == a
        }),
{
    let one = a.on_event(Event::Key(prefix)).app.on_event(Event::Key(tab));
    let two = one.app.on_event(Event::Key(prefix)).app.on_event(Event::Key(tab));
    assert(two.app =~= a);
}

/// A branch confirmed asks for one session of its name, which starts with one command: it makes
/// the branch's worktree beside the directory of the selected session, and goes there. Where that
/// directory is known, the command goes there first.
pub proof fn law_worktree_starts_in_selected_directory(a: AppView, key: KeyEvent)
    requires
        a.prefix_mode is Normal,
        a.worktree_mode,
        key.code is Enter,
        key.kind is Press,
        a.selected < a.sessions.len(),
        trimmed(a.worktree_input).len() > 0,
    ensures
        ({
            let s = a.on_event(Event::Key(key));
            let branch = trimmed(a.worktree_input);
            let make = "git worktree add ../"@ + branch + " -b "@ + branch + " && cd ../"@ + branch;
            &&& s.action matches ActionView::SendMsg(
                ClientMsgView::NewSession { name, cols, rows, startup_cmds },
            )
            &&& name == branch && cols == a.term_cols && rows == a.term_rows
            &&& startup_cmds.len() == 1
            &&& match a.sessions[a.selected as int].cwd {
                Some(d) => startup_cmds[0] == "cd "@ + debug_form(d) + " && "@ + make,
                None => startup_cmds[0] == make,
            }
            &&& s.app == (AppView { worktree_mode: false, worktree_input: Seq::empty(), ..a })
        }),
{
}

/// A branch confirmed where no session is selected has its worktree made from where the shell
/// starts.
pub proof fn law_worktree_without_session_starts_anywhere(a: AppView, key: KeyEvent)
    requires
        a.prefix_mode is Normal,
        a.worktree_mode,
        key.code is Enter,
        key.kind is Press,
        a.selected >= a.sessions.len(),
        trimmed(a.worktree_input).len() > 0,
    ensures
        ({
            let branch = trimmed(a.worktree_input);
            &&& a.on_event(Event::Key(key)).action matches ActionView::SendMsg(
                ClientMsgView::NewSession { name, cols, rows, startup_cmds },
            )
            &&& name == branch && cols == a.term_cols && rows == a.term_rows
            &&& startup_cmds == seq![
                "git worktree add ../"@ + branch + " -b "@ + branch + " && cd ../"@ + branch,
            ]
        }),
{
}

/// Where nothing but white space was typed, a branch confirmed asks for nothing; a branch given up
/// neither. What was typed is gone, and nothing else changes.
pub proof fn law_no_branch_asks_for_nothing(a: AppView, key: KeyEvent)
    requires
        a.prefix_mode is Normal,
        a.worktree_mode,
        key.code is Esc || key.code is Enter && trimmed(a.worktree_input).len() == 0,
        key.kind is Press,
    ensures
        ({
            let s = a.on_event(Event::Key(key));
            &&& s.action is Idle
            &&& s.app == (AppView { worktree_mode: false, worktree_input: Seq::empty(), ..a })
        }),
{
}

/// A character typed stands at the end of what is typed, in the one place that it is typed into:
/// a branch before a name, and a session's name before that of a new one.
pub proof fn law_character_goes_to_the_end(a: AppView, key: KeyEvent, c: char)
    requires
        a.prefix_mode is Normal,
        a.worktree_mode || a.rename_mode || a.new_mode,
        key.code == KeyCode::Char(c),
        !is_prefix_key(key),
        key.kind is Press,
    ensures
        ({
            let s = a.on_event(Event::Key(key));
            &&& s.action is Idle
            &&& a.worktree_mode ==> s.app == (AppView {
                worktree_input: a.worktree_input + seq![c],
                ..a
            })
            &&& !a.worktree_mode && a.rename_mode ==> s.app == (AppView {
                rename_input: a.rename_input + seq![c],
                ..a
            })
            &&& !a.worktree_mode && !a.rename_mode ==> s.app == (AppView {
                new_input: a.new_input + seq![c],
                ..a
            })
        }),
{
    let s = a.on_event(Event::Key(key));
    assert(a.worktree_input.push(c) =~= a.worktree_input + seq![c]);
    assert(a.rename_input.push(c) =~= a.rename_input + seq![c]);
    assert(a.new_input.push(c) =~= a.new_input + seq![c]);
}

/// A character typed and taken back leaves all as it was.
pub proof fn law_backspace_takes_back_a_character(
    a: AppView,
    key: KeyEvent,
    c: char,
    back: KeyEvent,
)
    requires
        a.prefix_mode is Normal,
        a.worktree_mode || a.rename_mode || a.new_mode,
        key.code == KeyCode::Char(c),
        !is_prefix_key(key),
        key.kind is Press,
        back.code is Backspace,
        back.kind is Press,
    ensures
        ({
            let s = a.on_event(Event::Key(key)).app.on_event(Event::Key(back));
            s.action is Idle && s.app == a
        }),
{
    let s = a.on_event(Event::Key(key)).app.on_event(Event::Key(back));
    assert(a.worktree_input.push(c).drop_last() =~= a.worktree_input);
    assert(a.rename_input.push(c).drop_last() =~= a.rename_input);
    assert(a.new_input.push(c).drop_last() =~= a.new_input);
    assert(s.app =~= a);
}

/// Where nothing has been typed, there is nothing to take back; and of the other keys none does
/// anything while something is typed.
pub proof fn law_other_keys_are_not_typed(a: AppView, key: KeyEvent)
    requires
        a.prefix_mode is Normal,
        a.worktree_mode || a.rename_mode || a.new_mode,
        key.kind is Press,
        key.code !is Char && key.code !is Enter && key.code !is Esc,
        key.code is Backspace ==> a.worktree_input.len() == 0 && a.rename_input.len() == 0
            && a.new_input.len() == 0,
    ensures
        a.on_event(Event::Key(key)).action is Idle,
        a.on_event(Event::Key(key)).app == a,
{
    assert(a.on_event(Event::Key(key)).app =~= a);
}

/// A name confirmed, without white space around it, is the selected session's name from then on,
/// and the daemon is told. Nothing else changes but that nothing is typed any more.
pub proof fn law_rename_names_selected_session(a: AppView, key: KeyEvent)
    requires
        a.prefix_mode is Normal,
        !a.worktree_mode,
        a.rename_mode,
        key.code is Enter,
        key.kind is Press,
        a.selected < a.sessions.len(),
        trimmed(a.rename_input).len() > 0,
    ensures
        ({
            let s = a.on_event(Event::Key(key));
            let i = a.selected as int;
            let name = trimmed(a.rename_input);
            &&& s.action == ActionView::SendMsg(
                ClientMsgView::RenameSession { id: a.sessions[i].id, name },
            )
            &&& s.app == (AppView {
                rename_mode: false,
                rename_input: Seq::empty(),
                sessions: a.sessions.update(i, ClientSessionView { name, ..a.sessions[i] }),
                ..a
            })
        }),
{
}

/// A name given up, or one of white space only, renames nothing; nor does any where no session is
/// selected.
pub proof fn law_no_name_renames_nothing(a: AppView, key: KeyEvent)
    requires
        a.prefix_mode is Normal,
        !a.worktree_mode,
        a.rename_mode,
        key.code is Esc || key.code is Enter && (trimmed(a.rename_input).len() == 0 || a.selected
            >= a.sessions.len()),
        key.kind is Press,
    ensures
        ({
            let s = a.on_event(Event::Key(key));
            &&& s.action is Idle
            &&& s.app == (AppView { rename_mode: false, rename_input: Seq::empty(), ..a })
        }),
{
}

/// The name of a new session confirmed, without white space around it, asks for that session, with
/// the size of the pane and no command. One given up, or of white space only, asks for nothing.
pub proof fn law_new_name_asks_for_session(a: AppView, key: KeyEvent)
    requires
        a.prefix_mode is Normal,
        !a.worktree_mode && !a.rename_mode,
        a.new_mode,
        key.code is Enter || key.code is Esc,
        key.kind is Press,
    ensures
        ({
            let s = a.on_event(Event::Key(key));
            let name = trimmed(a.new_input);
            &&& s.app == (AppView { new_mode: false, new_input: Seq::empty(), ..a })
            &&& key.code is Enter && name.len() > 0 ==> s.action == ActionView::SendMsg(
                ClientMsgView::NewSession {
                    name,
                    cols: a.term_cols,
                    rows: a.term_rows,
                    startup_cmds: Seq::empty(),
                },
            )
            &&& key.code is Esc || name.len() == 0 ==> s.action is Idle
        }),
{
}

/// The screen that a session has when it is attached to: empty, and of the size of the pane.
proof fn lemma_attached(a: AppView)
    requires
        a.selected < a.sessions.len(),
        forall|k: int|
            0 <= k < a.sessions.len() && k != a.selected ==> (#[trigger] a.sessions[k]).id
                != a.sessions[a.selected as int].id,
    ensures
        ({
            let i = a.selected as int;
            let id = a.sessions[i].id;
            &&& a.attaches().action == ActionView::SendMsg(
                ClientMsgView::Attach { id, cols: a.term_cols, rows: a.term_rows },
            )
            &&& a.attaches().app == (AppView {
                sessions: a.sessions.update(
                    i,
                    ClientSessionView {
                        screen: blank_screen(
                            at_least_one(a.term_rows),
                            at_least_one(a.term_cols),
                        ),
                        ..a.sessions[i]
                    },
                ),
                ..a
            })
        }),
{
    let i = a.selected as int;
    let id = a.sessions[i].id;
    let all = ids(a.sessions);
    assert(all[i] == id);
    assert forall|k: int| 0 <= k < i implies all[k] != id by {
        assert(a.sessions[k].id != id);
    }
    assert(first_at(all, id, i));
    lemma_place(all, id, i);
}

/// Going down or up in the sidebar, or by a command in the terminal, selects the next session or
/// the one before, round the ends of the list, wipes its screen, and asks the daemon to attach the
/// client to it with the size of the pane. No other session changes.
#[verifier::rlimit(40)]
pub proof fn law_going_on_attaches_to_neighbour(
    a: AppView,
    key: KeyEvent,
    down: bool,
    to: int,
)
    requires
        a.ok(),
        a.sessions.len() > 0,
        key.kind is Press,
        !is_prefix_key(key),
        a.prefix_mode is Pending ==> a.focus is Terminal,
        a.prefix_mode is Normal ==> a.focus is Sidebar && !a.worktree_mode && !a.rename_mode
            && !a.new_mode,
        down ==> key.code is Down || a.prefix_mode is Normal && key.code == KeyCode::Char('j'),
        !down ==> key.code is Up || a.prefix_mode is Normal && key.code == KeyCode::Char('k'),
        0 <= to < a.sessions.len(),
        down && a.selected == a.sessions.len() - 1 ==> to == 0,
        down && a.selected != a.sessions.len() - 1 ==> to == a.selected + 1,
        !down && a.selected == 0 ==> to == a.sessions.len() - 1,
        !down && a.selected != 0 ==> to == a.selected - 1,
        forall|k: int|
            0 <= k < a.sessions.len() && k != to ==> (#[trigger] a.sessions[k]).id
                != a.sessions[to].id,
    ensures
        ({
            let s = a.on_event(Event::Key(key));
            let t = s.app.sessions[to];
            &&& s.action == ActionView::SendMsg(
                ClientMsgView::Attach {
                    id: a.sessions[to].id,
                    cols: a.term_cols,
                    rows: a.term_rows,
                },
            )
            &&& s.app == (AppView {
                prefix_mode: PrefixMode::Normal,
                selected: to as usize,
                list_selected: Some(to as usize),
                sessions: a.sessions.update(to, t),
                ..a
            })
            &&& t.id == a.sessions[to].id && t.name == a.sessions[to].name && t.cwd
                == a.sessions[to].cwd
            &&& t.screen == blank_screen(
                if a.term_rows == 0 {
                    1
                } else {
                    a.term_rows
                },
                if a.term_cols == 0 {
                    1
                } else {
                    a.term_cols
                },
            )
        }),
{
    let b = AppView {
        prefix_mode: PrefixMode::Normal,
        selected: to as usize,
        list_selected: Some(to as usize),
        ..a
    };
    lemma_attached(b);
    let n = AppView { prefix_mode: PrefixMode::Normal, ..a };
    if down {
        assert(n.nexts() == b);
    } else {
        assert(n.prevs() == b);
    }
    assert(a.prefix_mode is Normal ==> n == a);
}

/// Where there is no session, going down or up does nothing, nor does moving.
pub proof fn law_going_on_without_session(a: AppView, key: KeyEvent)
    requires
        a.ok(),
        a.sessions.len() == 0,
        a.prefix_mode is Normal ==> !a.worktree_mode && !a.rename_mode && !a.new_mode
            && a.focus is Sidebar,
        key.kind is Press,
        key.code is Down || key.code is Up || a.prefix_mode is Normal && (key.code
            == KeyCode::Char('j') || key.code == KeyCode::Char('k')),
    ensures
        a.on_event(Event::Key(key)).action is Idle,
        a.on_event(Event::Key(key)).app == (AppView { prefix_mode: PrefixMode::Normal, ..a }),
{
}

/// The keys of the sidebar that leave the selection: `n` has the name of a new session typed, from
/// nothing; `r` that of the selected one, from what it is; `d` asks the daemon to delete the
/// selected session; `Enter` and `Tab` go to the terminal; the others do nothing. Where no session
/// is selected, none is deleted, and a name is typed from nothing.
pub proof fn law_sidebar_keys(a: AppView, key: KeyEvent)
    requires
        a.prefix_mode is Normal,
        !a.worktree_mode && !a.rename_mode && !a.new_mode,
        a.focus is Sidebar,
        key.kind is Press,
        !is_prefix_key(key),
        key.code !is Down && key.code !is Up && key.code != KeyCode::Char('j') && key.code
            != KeyCode::Char('k'),
    ensures
        ({
            let s = a.on_event(Event::Key(key));
            let on = a.sessions[a.selected as int];
            let any = a.selected < a.sessions.len();
            if key.code == KeyCode::Char('n') {
                &&& s.action is Idle
                &&& s.app == (AppView { new_mode: true, new_input: Seq::empty(), ..a })
            } else if key.code == KeyCode::Char('r') {
                &&& s.action is Idle
                &&& any ==> s.app == (AppView { rename_mode: true, rename_input: on.name, ..a })
                &&& !any ==> s.app == (AppView {
                    rename_mode: true,
                    rename_input: Seq::empty(),
                    ..a
                })
            } else if key.code == KeyCode::Char('d') && any {
                &&& s.action == ActionView::SendMsg(ClientMsgView::DeleteSession { id: on.id })
                &&& s.app == a
            } else if key.code is Enter || key.code is Tab {
                &&& s.action is Idle
                &&& s.app == (AppView { focus: Focus::Terminal, ..a })
            } else {
                s.action is Idle && s.app == a
            }
        }),
{
}

/// A character pressed in the terminal without the control key, whatever else is held, is typed
/// into the shell as its UTF-8 bytes, and nothing else changes.
pub proof fn law_character_is_typed_into_shell(
    a: AppView,
    c: char,
    modifiers: KeyModifiers,
    kind: KeyEventKind,
)
    requires
        a.prefix_mode is Normal,
        !a.worktree_mode && !a.rename_mode && !a.new_mode,
        a.focus is Terminal,
        !modifiers.control,
        kind is Press,
    ensures
        ({
            let s = a.on_event(Event::Key(KeyEvent { code: KeyCode::Char(c), modifiers, kind }));
            &&& s.action == ActionView::SendMsg(
                ClientMsgView::Input { data: encode_utf8(seq![c]) },
            )
            &&& s.app == a
        }),
{
}

/// Every other key pressed in the terminal, but for the prefix key, is typed into the shell as the
/// bytes that it has, and does nothing where it has none.
pub proof fn law_terminal_key_is_typed(a: AppView, key: KeyEvent)
    requires
        a.prefix_mode is Normal,
        !a.worktree_mode && !a.rename_mode && !a.new_mode,
        a.focus is Terminal,
        key.kind is Press,
        !is_prefix_key(key),
    ensures
        a.on_event(Event::Key(key)).app == a,
        match key_bytes(key) {
            Some(data) => a.on_event(Event::Key(key)).action == ActionView::SendMsg(
                ClientMsgView::Input { data },
            ),
            None => a.on_event(Event::Key(key)).action is Idle,
        },
{
}

/// The prefix key waits for the next key, wherever keys go, and does nothing else.
pub proof fn law_prefix_key_waits(a: AppView, key: KeyEvent)
    requires
        a.prefix_mode is Normal,
        is_prefix_key(key),
        key.kind is Press,
    ensures
        a.on_event(Event::Key(key)).action is Idle,
        a.on_event(Event::Key(key)).app == (AppView { prefix_mode: PrefixMode::Pending, ..a }),
{
}

/// The commands, but for the arrows: `d` detaches, `q` ends the daemon, `w` has a branch typed,
/// from the sidebar only, and all three only with no modifier; `Tab` goes from the sidebar to the
/// terminal and back; the prefix key types itself. Any other key does nothing.
pub proof fn law_commands(a: AppView, key: KeyEvent)
    requires
        a.prefix_mode is Pending,
        key.kind is Press,
        key.code !is Up && key.code !is Down,
    ensures
        ({
            let s = a.on_event(Event::Key(key));
            let m = key.modifiers;
            let bare = !m.shift && !m.control && !m.alt && !m.super_key && !m.hyper && !m.meta;
            let back = AppView { prefix_mode: PrefixMode::Normal, ..a };
            if key.code == KeyCode::Char('d') && bare {
                s.action is Detach && s.app == back
            } else if key.code == KeyCode::Char('q') && bare {
                s.action is Shutdown && s.app == back
            } else if key.code == KeyCode::Char('w') && bare && a.focus is Sidebar {
                &&& s.action is Idle
                &&& s.app == (AppView { worktree_mode: true, worktree_input: Seq::empty(), ..back })
            } else if key.code is Tab {
                &&& s.action is Idle
                &&& a.focus is Sidebar ==> s.app == (AppView { focus: Focus::Terminal, ..back })
                &&& a.focus is Terminal ==> s.app == (AppView { focus: Focus::Sidebar, ..back })
            } else if is_prefix_key(key) {
                &&& s.action == ActionView::SendMsg(ClientMsgView::Input { data: seq![0x02u8] })
                &&& s.app == back
            } else {
                s.action is Idle && s.app == back
            }
        }),
{
    assert(seq![prefix_value(PREFIX_KEY, prefix_modifiers())] =~= seq![0x02u8]);
}

/// The commands `Up` and `Down` in the sidebar change the selected session with the one above or
/// below it, keep it selected, and tell the daemon its number and its new place.
pub proof fn law_moving_swaps_with_neighbour(a: AppView, key: KeyEvent, to: int)
    requires
        a.ok(),
        a.prefix_mode is Pending,
        a.focus is Sidebar,
        key.kind is Press,
        key.code is Up && to == a.selected - 1 || key.code is Down && to == a.selected + 1,
        0 <= to < a.sessions.len(),
    ensures
        ({
            let s = a.on_event(Event::Key(key));
            let i = a.selected as int;
            &&& s.action == ActionView::SendMsg(
                ClientMsgView::ReorderSession { id: a.sessions[i].id, new_index: to as usize },
            )
            &&& s.app == (AppView {
                prefix_mode: PrefixMode::Normal,
                selected: to as usize,
                list_selected: Some(to as usize),
                sessions: a.sessions.update(to, a.sessions[i]).update(i, a.sessions[to]),
                ..a
            })
        }),
{
    let i = a.selected as int;
    let swapped = a.sessions.update(to, a.sessions[i]).update(i, a.sessions[to]);
    assert(moved(a.sessions, i, to) =~= swapped);
}

/// The first session does not move up, nor the last one down.
pub proof fn law_ends_of_list_do_not_move(a: AppView, key: KeyEvent)
    requires
        a.ok(),
        a.prefix_mode is Pending,
        a.focus is Sidebar,
        key.kind is Press,
        key.code is Up && a.selected == 0 || key.code is Down && a.selected + 1
            >= a.sessions.len(),
    ensures
        a.on_event(Event::Key(key)).action is Idle,
        a.on_event(Event::Key(key)).app == (AppView { prefix_mode: PrefixMode::Normal, ..a }),
{
}

/// Another size of the screen gives the pane what is left of two rows and 22 columns and of its
/// border, and one of each at least. The daemon is told where the client shows a session. Nothing
/// else changes, and no other event but a key pressed changes anything.
pub proof fn law_screen_size_sets_pane(a: AppView, cols: u16, rows: u16)
    ensures
        ({
            let s = a.on_event(Event::Resize(cols, rows));
            let (c, r) = (s.app.term_cols, s.app.term_rows);
            &&& cols > 24 ==> c == cols - 22 - 2
            &&& cols <= 24 ==> c == 1
            &&& rows > 4 ==> r == rows - 2 - 2
            &&& rows <= 4 ==> r == 1
            &&& s.app == (AppView { term_cols: c, term_rows: r, ..a })
            &&& a.attached_id is Some ==> s.action == ActionView::SendMsg(
                ClientMsgView::Resize { cols: c, rows: r },
            )
            &&& a.attached_id is None ==> s.action is Idle
        }),
{
}

/// A key repeated or let go does nothing, and what the client does not react to neither. Without
/// the daemon the client ends.
pub proof fn law_other_events(a: AppView, event: Event)
    requires
        event matches Event::Key(key) ==> key.kind !is Press,
        event !is Resize,
    ensures
        a.on_event(event).app == a,
        event is Disconnected ==> a.on_event(event).action is Exit,
        event !is Disconnected ==> a.on_event(event).action is Idle,
{
}

/// The client at its start lists every session in its place with an empty screen of the size of
/// the pane, has the first one selected, is in the sidebar, and shows none.
pub proof fn law_client_starts_with_list(
    list: Seq<SessionInfoView>,
    cols: u16,
    rows: u16,
)
    ensures
        ({
            let a = AppView::new(list, cols, rows);
            &&& a.sessions.len() == list.len()
            &&& forall|k: int|
                0 <= k < list.len() ==> {
                    let s = #[trigger] a.sessions[k];
                    &&& s.id == list[k].id && s.name == list[k].name && s.cwd == list[k].cwd
                    &&& s.screen == blank_screen(
                        if rows == 0 {
                            1
                        } else {
                            rows
                        },
                        if cols == 0 {
                            1
                        } else {
                            cols
                        },
                    )
                }
            &&& a.selected == 0
            &&& list.len() > 0 ==> a.list_selected == Some(0usize)
            &&& list.len() == 0 ==> a.list_selected is None
            &&& a.rename_input.len() == 0 && a.worktree_input.len() == 0 && a.new_input.len() == 0
            &&& a.focus is Sidebar && a.prefix_mode is Normal
            &&& !a.rename_mode && !a.worktree_mode && !a.new_mode
            &&& a.term_cols == cols && a.term_rows == rows && a.attached_id is None
        }),
{
}

/// The place of a session, where no session before it has its number.
proof fn lemma_found(a: AppView, id: usize, i: int)
    requires
        0 <= i < a.sessions.len(),
        a.sessions[i].id == id,
        forall|k: int| 0 <= k < i ==> (#[trigger] a.sessions[k]).id != id,
    ensures
        a.has(id),
        a.index(id) == i,
{
    let all = ids(a.sessions);
    assert(all[i] == id);
    assert forall|k: int| 0 <= k < i implies all[k] != id by {
        assert(a.sessions[k].id != id);
    }
    assert(first_at(all, id, i));
    lemma_place(all, id, i);
}

proof fn lemma_not_found(a: AppView, id: usize)
    requires
        forall|k: int| 0 <= k < a.sessions.len() ==> (#[trigger] a.sessions[k]).id != id,
    ensures
        !a.has(id),
{
    if a.has(id) {
        let k = choose|k: int| 0 <= k < ids(a.sessions).len() && ids(a.sessions)[k] == id;
        assert(a.sessions[k].id == id);
    }
}

/// Output goes, whole, to the emulator of the session that it is of, and a name and a directory to
/// that session, and nothing else changes.
pub proof fn law_news_go_to_their_session(
    a: AppView,
    i: int,
    data: Seq<u8>,
    name: Seq<char>,
    cwd: Seq<char>,
)
    requires
        a.ok(),
        0 <= i < a.sessions.len(),
        forall|k: int| 0 <= k < i ==> (#[trigger] a.sessions[k]).id != a.sessions[i].id,
    ensures
        ({
            let id = a.sessions[i].id;
            let output = a.on_message(DaemonMsgView::PtyOutput { id, data });
            let renamed = a.on_message(DaemonMsgView::SessionRenamed { id, name });
            let moved_to = a.on_message(DaemonMsgView::CwdUpdate { id, cwd });
            &&& output.reaction == ReactionView::Feed { index: i as usize, data }
            &&& output.app == a
            &&& renamed.reaction is Idle
            &&& renamed.app == (AppView {
                sessions: a.sessions.update(i, ClientSessionView { name, ..a.sessions[i] }),
                ..a
            })
            &&& moved_to.reaction is Idle
            &&& moved_to.app == (AppView {
                sessions: a.sessions.update(
                    i,
                    ClientSessionView { cwd: Some(cwd), ..a.sessions[i] },
                ),
                ..a
            })
        }),
{
    lemma_found(a, a.sessions[i].id, i);
}

/// Of a session that is not listed, news change nothing.
pub proof fn law_news_of_unknown_session(a: AppView, id: usize, msg: DaemonMsgView)
    requires
        a.ok(),
        forall|k: int| 0 <= k < a.sessions.len() ==> (#[trigger] a.sessions[k]).id != id,
        match msg {
            DaemonMsgView::PtyOutput { id: of, data } => of == id,
            DaemonMsgView::SessionDeleted { id: of } => of == id,
            DaemonMsgView::SessionRenamed { id: of, name } => of == id,
            DaemonMsgView::SessionReordered { id: of, new_index } => of == id,
            DaemonMsgView::CwdUpdate { id: of, cwd } => of == id,
            _ => false,
        },
    ensures
        a.on_message(msg).app == a,
        a.on_message(msg).reaction is Idle,
{
    lemma_not_found(a, id);
    lemma_without_none(a.sessions, id);
}

/// A session that has been created is listed behind the others, with its number and its name and
/// an empty screen, is selected, and is attached to with the size of the pane.
pub proof fn law_created_session_is_listed_last(a: AppView, id: usize, name: Seq<char>)
    requires
        a.sessions.len() < usize::MAX,
    ensures
        ({
            let h = a.on_message(DaemonMsgView::SessionCreated { id, name });
            let n = a.sessions.len() as usize;
            let last = ClientSessionView {
                id,
                name,
                cwd: None,
                screen: blank_screen(
                    if a.term_rows == 0 {
                        1
                    } else {
                        a.term_rows
                    },
                    if a.term_cols == 0 {
                        1
                    } else {
                        a.term_cols
                    },
                ),
            };
            &&& h.app == (AppView {
                sessions: a.sessions + seq![last],
                selected: n,
                list_selected: Some(n),
                ..a
            })
            &&& h.reaction == ReactionView::Send(
                ClientMsgView::Attach { id, cols: a.term_cols, rows: a.term_rows },
            )
        }),
{
    let h = a.on_message(DaemonMsgView::SessionCreated { id, name });
    let last = h.app.sessions.last();
    assert(a.sessions.push(last) =~= a.sessions + seq![last]);
}

/// A list in which one place alone has a number loses that place, and no other.
proof fn lemma_without_one(s: Seq<ClientSessionView>, id: usize, i: int)
    requires
        0 <= i < s.len(),
        s[i].id == id,
        forall|k: int| 0 <= k < s.len() && k != i ==> (#[trigger] s[k]).id != id,
    ensures
        without(s, id) == s.take(i) + s.skip(i + 1),
    decreases s.len(),
{
    reveal(Seq::filter);
    let d = s.drop_last();
    if i == s.len() - 1 {
        lemma_without_none(d, id);
        assert(s.take(i) + s.skip(i + 1) =~= d);
    } else {
        assert(d[i] == s[i]);
        assert forall|k: int| 0 <= k < d.len() && k != i implies (#[trigger] d[k]).id != id by {
            assert(d[k] == s[k]);
        }
        lemma_without_one(d, id, i);
        assert((d.take(i) + d.skip(i + 1)).push(s.last()) =~= s.take(i) + s.skip(i + 1));
    }
}

proof fn lemma_without_none(s: Seq<ClientSessionView>, id: usize)
    requires
        forall|k: int| 0 <= k < s.len() ==> (#[trigger] s[k]).id != id,
    ensures
        without(s, id) == s,
    decreases s.len(),
{
    reveal(Seq::filter);
    if s.len() > 0 {
        let d = s.drop_last();
        assert forall|k: int| 0 <= k < d.len() implies (#[trigger] d[k]).id != id by {
            assert(d[k] == s[k]);
        }
        lemma_without_none(d, id);
        assert(d.push(s.last()) =~= s);
    } else {
        assert(without(s, id) =~= s);
    }
}

/// A deleted session leaves the list, and those behind it move up. The selection stays at its
/// place, but for a place behind the new end: then it is at the end; no place is selected in an
/// empty list. Nothing else changes.
pub proof fn law_deleted_session_leaves_list(a: AppView, i: int)
    requires
        a.ok(),
        0 <= i < a.sessions.len(),
        forall|k: int|
            0 <= k < a.sessions.len() && k != i ==> (#[trigger] a.sessions[k]).id
                != a.sessions[i].id,
    ensures
        ({
            let h = a.on_message(DaemonMsgView::SessionDeleted { id: a.sessions[i].id });
            let n = a.sessions.len() - 1;
            &&& h.reaction is Idle
            &&& h.app == (AppView {
                sessions: a.sessions.take(i) + a.sessions.skip(i + 1),
                selected: h.app.selected,
                list_selected: h.app.list_selected,
                ..a
            })
            &&& n == 0 ==> h.app.selected == 0 && h.app.list_selected is None
            &&& n > 0 ==> h.app.list_selected == Some(h.app.selected)
            &&& n > 0 && a.selected < n ==> h.app.selected == a.selected
            &&& n > 0 && a.selected >= n ==> h.app.selected == n - 1
        }),
{
    lemma_without_one(a.sessions, a.sessions[i].id, i);
}

/// A session that has moved stands at its new place, the others keep their order, and the selected
/// session stays selected. A place outside the list moves nothing.
pub proof fn law_moved_session_stands_at_its_place(a: AppView, i: int, new_index: usize)
    requires
        a.ok(),
        0 <= i < a.sessions.len(),
        forall|k: int| 0 <= k < i ==> (#[trigger] a.sessions[k]).id != a.sessions[i].id,
    ensures
        ({
            let h = a.on_message(
                DaemonMsgView::SessionReordered { id: a.sessions[i].id, new_index },
            );
            let j = new_index as int;
            let all = h.app.sessions;
            &&& h.reaction is Idle
            &&& j >= a.sessions.len() ==> h.app == a
            &&& j < a.sessions.len() ==> {
                &&& all.len() == a.sessions.len()
                &&& all[j] == a.sessions[i]
                &&& all.take(j) + all.skip(j + 1) == a.sessions.take(i) + a.sessions.skip(i + 1)
                &&& h.app.selected < all.len()
                &&& all[h.app.selected as int] == a.sessions[a.selected as int]
                &&& h.app == (AppView {
                    sessions: all,
                    selected: h.app.selected,
                    list_selected: Some(h.app.selected),
                    ..a
                })
            }
        }),
{
    lemma_found(a, a.sessions[i].id, i);
    let j = new_index as int;
    if j < a.sessions.len() {
        let m = moved(a.sessions, i, j);
        let b = a.on_reordered(a.sessions[i].id, new_index);
        assert(m.take(j) + m.skip(j + 1) =~= a.sessions.take(i) + a.sessions.skip(i + 1));
        lemma_moved_from(a.sessions, i, j, b.selected as int);
    }
}

/// The client shows the session that the daemon says it is attached to, and none once it is
/// detached. The other answers change nothing.
pub proof fn law_answers_of_attaching(a: AppView, msg: DaemonMsgView)
    requires
        msg is Attached || msg is Detached || msg is Error || msg is SessionList || msg is Done,
    ensures
        a.on_message(msg).reaction is Idle,
        match msg {
            DaemonMsgView::Attached { id, cleared } => a.on_message(msg).app == (AppView {
                attached_id: Some(id),
                ..a
            }),
            DaemonMsgView::Detached => a.on_message(msg).app == (AppView {
                attached_id: None,
                ..a
            }),
            _ => a.on_message(msg).app == a,
        },
{
}

/// The value of a list of sessions has each session in its place, with its own fields.
pub proof fn law_list_value_keeps_order(v: Seq<ClientSession>)
    ensures
        session_views(v).len() == v.len(),
        forall|k: int|
            0 <= k < v.len() ==> {
                let s = #[trigger] session_views(v)[k];
                &&& s.id == v[k].id && s.name == v[k].name@
                &&& s.screen == screen(v[k].parser)
                &&& v[k].cwd is None ==> s.cwd is None
                &&& v[k].cwd matches Some(d) ==> s.cwd == Some(d@)
            },
{
}

} // verus!

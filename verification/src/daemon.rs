//! The daemon: the sessions that it holds, and what it does about what a client asks.
use crate::emulator::{at_least_one, blank_screen, clamp_one, is_fresh};
use crate::list::{
    distinct, first_at, lemma_moved_back, lemma_moved_distinct, lemma_moved_from, lemma_moved_place, lemma_place,
    lemma_place_exists, moved, place, source,
};
use crate::protocol::{
    infos, ClientMsg, ClientMsgView, DaemonMsg, DaemonMsgView, SessionInfo, SessionInfoView,
};
use crate::session::{Session, SessionView};
use crate::text::{decimal, texts, to_decimal};
use vstd::prelude::*;

verus! {

/// The daemon's sessions, in the order in which clients show them.
pub struct Daemon {
    pub sessions: Vec<Session>,
    /// The number of the next session.
    pub next_id: usize,
    pub socket_path: String,
}

/// The value of a [`Daemon`].
#[verifier::ext_equal]
pub struct DaemonView {
    pub sessions: Seq<SessionView>,
    pub next_id: usize,
    pub socket_path: Seq<char>,
}

/// What the daemon knows of a client.
#[derive(Debug, Clone, Copy, PartialEq, Eq)]
pub struct Connection {
    /// The session that it shows.
    pub attached_id: Option<usize>,
    /// The channel by which it gets that session's output and changes of directory.
    pub channel: Option<u64>,
}

/// Something to be done outside, in the order given.
#[derive(Debug, PartialEq, Eq)]
pub enum Effect {
    /// Send this to the client.
    Reply(DaemonMsg),
    /// Start a shell, then take in the session.
    Open { id: usize, name: String, cols: u16, rows: u16, startup_cmds: Vec<String> },
    /// End the shell of a session that is gone.
    Close { id: usize },
    /// Type into the shell of a session.
    Write { id: usize, data: Vec<u8> },
    /// Tell the shell of a session that its terminal has another size.
    ResizeShell { id: usize, cols: u16, rows: u16 },
    /// Remove the daemon's files, and end.
    Exit,
}

/// The value of an [`Effect`].
#[verifier::ext_equal]
pub enum EffectView {
    Reply(DaemonMsgView),
    Open { id: usize, name: Seq<char>, cols: u16, rows: u16, startup_cmds: Seq<Seq<char>> },
    Close { id: usize },
    Write { id: usize, data: Seq<u8> },
    ResizeShell { id: usize, cols: u16, rows: u16 },
    Exit,
}

impl View for Effect {
    type V = EffectView;

    open spec fn view(&self) -> EffectView {
        match *self {
            Effect::Reply(m) => EffectView::Reply(m@),
            Effect::Open { id, name, cols, rows, startup_cmds } => EffectView::Open {
                id,
                name: name@,
                cols,
                rows,
                startup_cmds: texts(startup_cmds@),
            },
            Effect::Close { id } => EffectView::Close { id },
            Effect::Write { id, data } => EffectView::Write { id, data: data@ },
            Effect::ResizeShell { id, cols, rows } => EffectView::ResizeShell { id, cols, rows },
            Effect::Exit => EffectView::Exit,
        }
    }
}

/// The values of a list of effects.
pub open spec fn effects(v: Seq<Effect>) -> Seq<EffectView> {
    v.map_values(|e: Effect| e@)
}

/// The values of a list of sessions.
pub open spec fn session_views(v: Seq<Session>) -> Seq<SessionView> {
    v.map_values(|s: Session| s@)
}

impl View for Daemon {
    type V = DaemonView;

    open spec fn view(&self) -> DaemonView {
        DaemonView {
            sessions: session_views(self.sessions@),
            next_id: self.next_id,
            socket_path: self.socket_path@,
        }
    }
}

/// The identifiers of a list of sessions.
pub open spec fn ids(s: Seq<SessionView>) -> Seq<usize> {
    s.map_values(|x: SessionView| x.id)
}

/// What the daemon lists of its sessions.
pub open spec fn listed(s: Seq<SessionView>) -> Seq<SessionInfoView> {
    s.map_values(|x: SessionView| SessionInfoView { id: x.id, name: x.name, cwd: x.cwd })
}

/// An answer that refuses.
pub open spec fn refusal(msg: Seq<char>) -> Seq<EffectView> {
    seq![EffectView::Reply(DaemonMsgView::Error { msg })]
}

/// What is said of a session that is not there.
pub open spec fn not_found(id: usize) -> Seq<char> {
    "session "@ + decimal(id as nat) + " not found"@
}

/// What the daemon, the connection and the outside come to when a client's message is handled.
#[verifier::ext_equal]
pub struct Outcome {
    pub daemon: DaemonView,
    pub conn: Connection,
    pub effects: Seq<EffectView>,
}

impl DaemonView {
    /// Every session is in order, no two have the same number, and none has one that is still to
    /// be given out.
    pub open spec fn ok(self) -> bool {
        &&& forall|i: int| 0 <= i < self.sessions.len() ==> (#[trigger] self.sessions[i]).ok()
        &&& distinct(ids(self.sessions))
        &&& forall|i: int|
            0 <= i < self.sessions.len() ==> (#[trigger] self.sessions[i]).id < self.next_id
    }

    pub open spec fn has(self, id: usize) -> bool {
        ids(self.sessions).contains(id)
    }

    pub open spec fn index(self, id: usize) -> int {
        place(ids(self.sessions), id)
    }

    pub open spec fn with(self, i: int, s: SessionView) -> DaemonView {
        DaemonView { sessions: self.sessions.update(i, s), ..self }
    }

    /// The state is left as it is, and the client told why.
    pub open spec fn refuses(self, conn: Connection, msg: Seq<char>) -> Outcome {
        Outcome { daemon: self, conn, effects: refusal(msg) }
    }

    /// A new session gets the next number; its shell is to be started.
    pub open spec fn opens(
        self,
        conn: Connection,
        name: Seq<char>,
        cols: u16,
        rows: u16,
        startup_cmds: Seq<Seq<char>>,
    ) -> Outcome {
        Outcome {
            daemon: DaemonView { next_id: (self.next_id + 1) as usize, ..self },
            conn,
            effects: seq![
                EffectView::Open { id: self.next_id, name, cols, rows, startup_cmds },
            ],
        }
    }

    /// A session is deleted, unless it is the last one. A client that showed it is detached.
    pub open spec fn deletes(self, conn: Connection, id: usize) -> Outcome {
        if self.sessions.len() <= 1 {
            self.refuses(conn, "cannot delete last session"@)
        } else if !self.has(id) {
            self.refuses(conn, not_found(id))
        } else {
            let daemon = DaemonView { sessions: self.sessions.remove(self.index(id)), ..self };
            let told = seq![
                EffectView::Close { id },
                EffectView::Reply(DaemonMsgView::SessionDeleted { id }),
            ];
            if conn.attached_id == Some(id) {
                Outcome {
                    daemon,
                    conn: Connection { attached_id: None, channel: None },
                    effects: told.push(EffectView::Reply(DaemonMsgView::Detached)),
                }
            } else {
                Outcome { daemon, conn, effects: told }
            }
        }
    }

    /// A session gets another name.
    pub open spec fn renames(self, conn: Connection, id: usize, name: Seq<char>) -> Outcome {
        if !self.has(id) {
            self.refuses(conn, not_found(id))
        } else {
            let i = self.index(id);
            Outcome {
                daemon: self.with(i, SessionView { name, ..self.sessions[i] }),
                conn,
                effects: seq![EffectView::Reply(DaemonMsgView::SessionRenamed { id, name })],
            }
        }
    }

    /// A session moves to another place of the list.
    pub open spec fn reorders(self, conn: Connection, id: usize, new_index: usize) -> Outcome {
        if !self.has(id) {
            self.refuses(conn, not_found(id))
        } else if new_index >= self.sessions.len() {
            self.refuses(conn, "invalid index "@ + decimal(new_index as nat))
        } else {
            Outcome {
                daemon: DaemonView {
                    sessions: moved(self.sessions, self.index(id), new_index as int),
                    ..self
                },
                conn,
                effects: seq![
                    EffectView::Reply(DaemonMsgView::SessionReordered { id, new_index }),
                ],
            }
        }
    }

    /// A client shows a session. Where the size is the same it gets the output kept; where it
    /// differs, screen and buffer are wiped and the shell is told. The client gets the directory,
    /// and from then on the output and the changes of directory by `channel`.
    pub open spec fn attaches(
        self,
        conn: Connection,
        id: usize,
        cols: u16,
        rows: u16,
        channel: u64,
    ) -> Outcome {
        if !self.has(id) {
            self.refuses(conn, not_found(id))
        } else {
            let i = self.index(id);
            let s = self.sessions[i];
            let changed = s.size_differs(cols, rows);
            let t = s.reset_to(cols, rows);
            Outcome {
                daemon: self.with(
                    i,
                    SessionView {
                        subscribers: t.subscribers.push(channel),
                        cwd_subscribers: t.cwd_subscribers.push(channel),
                        ..t
                    },
                ),
                conn: Connection { attached_id: Some(id), channel: Some(channel) },
                effects: resize_effect(changed, id, cols, rows) + replay(!changed, id, s.buffer)
                    + directory(id, s.cwd) + seq![
                    EffectView::Reply(DaemonMsgView::Attached { id, cleared: changed }),
                ],
            }
        }
    }

    /// The terminal of the session that the client shows gets another size.
    pub open spec fn resizes(self, conn: Connection, cols: u16, rows: u16) -> Outcome {
        match conn.attached_id {
            Some(id) if self.has(id) => {
                let i = self.index(id);
                Outcome {
                    daemon: self.with(i, self.sessions[i].resized(cols, rows)),
                    conn,
                    effects: resize_effect(true, id, cols, rows),
                }
            },
            _ => Outcome { daemon: self, conn, effects: Seq::empty() },
        }
    }

    /// What a client types goes to the session that it shows.
    pub open spec fn types(self, conn: Connection, data: Seq<u8>) -> Outcome {
        Outcome {
            daemon: self,
            conn,
            effects: match conn.attached_id {
                Some(id) if self.has(id) => seq![EffectView::Write { id, data }],
                _ => Seq::empty(),
            },
        }
    }

    /// Every session ends, and the daemon with them.
    pub open spec fn ends(self, conn: Connection) -> Outcome {
        Outcome {
            daemon: DaemonView { sessions: Seq::empty(), ..self },
            conn,
            effects: closings(self.sessions) + seq![
                EffectView::Reply(DaemonMsgView::Done),
                EffectView::Exit,
            ],
        }
    }

    /// What comes of a client's message.
    pub open spec fn handles(self, conn: Connection, msg: ClientMsgView, channel: u64) -> Outcome {
        match msg {
            ClientMsgView::ListSessions => Outcome {
                daemon: self,
                conn,
                effects: seq![
                    EffectView::Reply(
                        DaemonMsgView::SessionList { sessions: listed(self.sessions) },
                    ),
                ],
            },
            ClientMsgView::NewSession { name, cols, rows, startup_cmds } => self.opens(
                conn,
                name,
                cols,
                rows,
                startup_cmds,
            ),
            ClientMsgView::DeleteSession { id } => self.deletes(conn, id),
            ClientMsgView::RenameSession { id, name } => self.renames(conn, id, name),
            ClientMsgView::ReorderSession { id, new_index } => self.reorders(conn, id, new_index),
            ClientMsgView::Attach { id, cols, rows } => self.attaches(conn, id, cols, rows, channel),
            ClientMsgView::Detach => Outcome {
                daemon: self,
                conn: Connection { attached_id: None, channel: None },
                effects: seq![EffectView::Reply(DaemonMsgView::Detached)],
            },
            ClientMsgView::Input { data } => self.types(conn, data),
            ClientMsgView::Resize { cols, rows } => self.resizes(conn, cols, rows),
            ClientMsgView::Shutdown => self.ends(conn),
        }
    }
}

/// The shell is told the size of its terminal, of one row and one column at least.
pub open spec fn resize_effect(changed: bool, id: usize, cols: u16, rows: u16) -> Seq<EffectView> {
    if changed {
        seq![
            EffectView::ResizeShell { id, cols: at_least_one(cols), rows: at_least_one(rows) },
        ]
    } else {
        Seq::empty()
    }
}

/// The client is sent the output kept, where there is any.
pub open spec fn replay(same_size: bool, id: usize, buffer: Seq<u8>) -> Seq<EffectView> {
    if same_size && buffer.len() > 0 {
        seq![EffectView::Reply(DaemonMsgView::PtyOutput { id, data: buffer })]
    } else {
        Seq::empty()
    }
}

/// The client is sent the working directory, where it is known.
pub open spec fn directory(id: usize, cwd: Option<Seq<char>>) -> Seq<EffectView> {
    match cwd {
        Some(cwd) => seq![EffectView::Reply(DaemonMsgView::CwdUpdate { id, cwd })],
        None => Seq::empty(),
    }
}

/// The shells of all sessions end, one after the other.
pub open spec fn closings(s: Seq<SessionView>) -> Seq<EffectView> {
    s.map_values(|x: SessionView| EffectView::Close { id: x.id })
}

/// The values of lists that grow at the end grow alike.
proof fn lemma_effects_push(v: Seq<Effect>, e: Effect)
    ensures
        effects(v.push(e)) == effects(v).push(e@),
{
    assert(effects(v.push(e)) =~= effects(v).push(e@));
}

/// An update of one session is an update of its value.
proof fn lemma_session_updated(v: Seq<Session>, w: Seq<Session>, i: int)
    requires
        0 <= i < v.len(),
        w =~= v.update(i, w[i]),
    ensures
        session_views(w) == session_views(v).update(i, w[i]@),
{
    assert(session_views(w) =~= session_views(v).update(i, w[i]@));
}

/// A session that keeps its number and stays in order keeps the daemon in order.
proof fn lemma_with_ok(d: DaemonView, i: int, s: SessionView)
    requires
        d.ok(),
        0 <= i < d.sessions.len(),
        s.id == d.sessions[i].id,
        s.ok(),
    ensures
        d.with(i, s).ok(),
{
    assert(ids(d.with(i, s).sessions) =~= ids(d.sessions));
}

/// Every session that stands in both lists has its emulator, but for the one with the number
/// `but`.
pub open spec fn emulators_kept(
    before: Seq<Session>,
    after: Seq<Session>,
    but: Option<usize>,
) -> bool {
    forall|i: int, j: int|
        #![trigger before[i], after[j]]
        0 <= i < before.len() && 0 <= j < after.len() && before[i].id == after[j].id && but != Some(
            before[i].id,
        ) ==> after[j].parser == before[i].parser
}

/// The session whose emulator a message changes: one that a client attaches to with another size,
/// or whose size it changes.
pub open spec fn emulator_changed(
    d: DaemonView,
    conn: Connection,
    msg: ClientMsgView,
) -> Option<usize> {
    match msg {
        ClientMsgView::Attach { id, cols, rows } => if d.has(id) && d.sessions[d.index(
            id,
        )].size_differs(cols, rows) {
            Some(id)
        } else {
            None
        },
        ClientMsgView::Resize { cols, rows } => conn.attached_id,
        _ => None,
    }
}

/// Emulators are kept where each session comes from one that had the same number and emulator.
proof fn lemma_emulators_kept(
    before: Seq<Session>,
    after: Seq<Session>,
    from: spec_fn(int) -> int,
    but: Option<usize>,
)
    requires
        distinct(ids(session_views(before))),
        forall|j: int|
            0 <= j < after.len() ==> {
                let i = from(j);
                &&& 0 <= i < before.len()
                &&& (#[trigger] after[j]).id == before[i].id
                &&& but != Some(after[j].id) ==> after[j].parser == before[i].parser
            },
    ensures
        emulators_kept(before, after, but),
{
    let all = ids(session_views(before));
    assert forall|i: int, j: int|
        #![trigger before[i], after[j]]
        0 <= i < before.len() && 0 <= j < after.len() && before[i].id == after[j].id && but != Some(
            before[i].id,
        ) implies after[j].parser == before[i].parser by {
        let k = from(j);
        assert(all[i] == before[i].id);
        assert(all[k] == before[k].id);
        assert(i == k);
    }
}

/// One effect.
fn one(e: Effect) -> (r: Vec<Effect>)
    ensures
        effects(r@) == seq![e@],
{
    let mut r: Vec<Effect> = Vec::new();
    r.push(e);
    assert(effects(r@) =~= seq![e@]);
    r
}

/// An answer that refuses.
fn refuse(msg: String) -> (r: Vec<Effect>)
    ensures
        effects(r@) == refusal(msg@),
{
    one(Effect::Reply(DaemonMsg::Error { msg }))
}

/// What is said of a session that is not there.
fn not_found_text(id: usize) -> (r: String)
    ensures
        r@ == not_found(id),
{
    let mut s = "session ".to_string();
    let n = to_decimal(id as u128);
    s.push_str(n.as_str());
    s.push_str(" not found");
    s
}

impl Daemon {
    /// A daemon that holds no session yet.
    pub fn new(socket_path: String) -> (d: Daemon)
        ensures
            d@ == (DaemonView {
                sessions: Seq::empty(),
                next_id: 1,
                socket_path: socket_path@,
            }),
            d@.ok(),
    {
        let d = Daemon { sessions: Vec::new(), next_id: 1, socket_path };
        assert(d@.sessions =~= Seq::<SessionView>::empty());
        d
    }

    /// The number of the next session. It is not given out again.
    fn take_id(&mut self) -> (id: usize)
        requires
            old(self)@.ok(),
            old(self).next_id < usize::MAX,
        ensures
            id == old(self)@.next_id,
            final(self)@ == (DaemonView {
                next_id: (old(self)@.next_id + 1) as usize,
                ..old(self)@
            }),
            final(self)@.ok(),
            final(self).sessions@ == old(self).sessions@,
    {
        let id: usize = self.next_id;
        self.next_id = id + 1;
        id
    }

    /// The session that every daemon starts with, before a client comes: "main", of a size that
    /// the first client changes.
    pub fn first_session(&mut self) -> (e: Effect)
        requires
            old(self)@.ok(),
            old(self).next_id < usize::MAX,
        ensures
            final(self)@ == (DaemonView {
                next_id: (old(self)@.next_id + 1) as usize,
                ..old(self)@
            }),
            final(self)@.ok(),
            final(self).sessions@ == old(self).sessions@,
            e@ == (EffectView::Open {
                id: old(self)@.next_id,
                name: "main"@,
                cols: 220,
                rows: 50,
                startup_cmds: Seq::empty(),
            }),
    {
        let id: usize = self.take_id();
        let e = Effect::Open {
            id,
            name: "main".to_string(),
            cols: 220,
            rows: 50,
            startup_cmds: Vec::new(),
        };
        assert(texts(e->startup_cmds@) =~= Seq::<Seq<char>>::empty());
        e
    }

    /// Takes in a session whose shell has been started. Returns what its client is told.
    pub fn take_in(&mut self, id: usize, name: String, cols: u16, rows: u16) -> (reply: DaemonMsg)
        requires
            old(self)@.ok(),
            id < old(self).next_id,
            !old(self)@.has(id),
        ensures
            final(self)@ == (DaemonView {
                sessions: old(self)@.sessions.push(SessionView::new(id, name@, cols, rows)),
                ..old(self)@
            }),
            final(self)@.ok(),
            final(self).sessions@ == old(self).sessions@.push(final(self).sessions@.last()),
            is_fresh(final(self).sessions@.last().parser),
            reply@ == (DaemonMsgView::SessionCreated { id, name: name@ }),
    {
        let told = name.clone();
        let s = Session::new(id, name, cols, rows);
        self.sessions.push(s);
        proof {
            let before = old(self)@.sessions;
            assert(self@.sessions =~= before.push(s@));
            assert forall|i: int, j: int| 0 <= i < j < self@.sessions.len() implies ids(
                self@.sessions,
            )[i] != ids(self@.sessions)[j] by {
                assert(ids(before)[i] == before[i].id);
                if j == before.len() && before[i].id == id {
                    assert(ids(before).contains(id));
                }
                if j < before.len() {
                    assert(ids(before)[j] == before[j].id);
                }
            }
        }
        DaemonMsg::SessionCreated { id, name: told }
    }

    /// The place of a session.
    pub fn find(&self, id: usize) -> (r: Option<usize>)
        ensures
            match r {
                Some(i) => i < self@.sessions.len() && self@.has(id) && self@.index(id) == i
                    && self@.sessions[i as int].id == id,
                None => !self@.has(id),
            },
    {
        let ghost all = ids(self@.sessions);
        let mut i: usize = 0;
        while i < self.sessions.len()
            invariant
                i <= self.sessions@.len(),
                all == ids(self@.sessions),
                forall|k: int| 0 <= k < i ==> all[k] != id,
            decreases self.sessions@.len() - i,
        {
            if self.sessions[i].id == id {
                proof {
                    assert(first_at(all, id, i as int));
                    lemma_place(all, id, i as int);
                }
                return Some(i);
            }
            assert(all[i as int] == self.sessions@[i as int]@.id);
            i += 1;
        }
        None
    }

    /// What the daemon lists of its sessions.
    fn list(&self) -> (r: Vec<SessionInfo>)
        ensures
            infos(r@) == listed(self@.sessions),
    {
        let mut r: Vec<SessionInfo> = Vec::new();
        let mut i: usize = 0;
        while i < self.sessions.len()
            invariant
                i <= self.sessions@.len(),
                infos(r@) == listed(self@.sessions.take(i as int)),
            decreases self.sessions@.len() - i,
        {
            let s = &self.sessions[i];
            let ghost before = r@;
            let info = SessionInfo { id: s.id, name: s.name.clone(), cwd: s.current_cwd() };
            r.push(info);
            proof {
                let all = self@.sessions;
                assert(all.take(i + 1) =~= all.take(i as int).push(all[i as int]));
                assert(infos(r@) =~= infos(before).push(info@));
                assert(listed(all.take(i + 1)) =~= listed(all.take(i as int)).push(
                    (SessionInfoView { id: s.id, name: s.name@, cwd: s@.cwd }),
                ));
            }
            i += 1;
        }
        assert(self@.sessions.take(i as int) =~= self@.sessions);
        assert(infos(r@) =~= listed(self@.sessions));
        r
    }

    fn delete(&mut self, conn: &mut Connection, id: usize) -> (r: Vec<Effect>)
        requires
            old(self)@.ok(),
        ensures
            final(self)@ == old(self)@.deletes(*old(conn), id).daemon,
            *final(conn) == old(self)@.deletes(*old(conn), id).conn,
            effects(r@) == old(self)@.deletes(*old(conn), id).effects,
            final(self)@.ok(),
            emulators_kept(old(self).sessions@, final(self).sessions@, None),
    {
        proof {
            lemma_emulators_kept(self.sessions@, self.sessions@, |j: int| j, None);
        }
        if self.sessions.len() <= 1 {
            return refuse("cannot delete last session".to_string());
        }
        match self.find(id) {
            None => refuse(not_found_text(id)),
            Some(i) => {
                let _gone = self.sessions.remove(i);
                proof {
                    let before = old(self)@.sessions;
                    assert(self@.sessions =~= before.remove(i as int));
                    assert(ids(self@.sessions) =~= ids(before).remove(i as int));
                    lemma_emulators_kept(
                        old(self).sessions@,
                        self.sessions@,
                        |j: int|
                            if j < i {
                                j
                            } else {
                                j + 1
                            },
                        None,
                    );
                }
                let mut r = one(Effect::Close { id });
                proof {
                    lemma_effects_push(r@, Effect::Reply(DaemonMsg::SessionDeleted { id }));
                }
                r.push(Effect::Reply(DaemonMsg::SessionDeleted { id }));
                if conn.attached_id == Some(id) {
                    conn.attached_id = None;
                    conn.channel = None;
                    proof {
                        lemma_effects_push(r@, Effect::Reply(DaemonMsg::Detached));
                    }
                    r.push(Effect::Reply(DaemonMsg::Detached));
                }
                assert(effects(r@) =~= old(self)@.deletes(*old(conn), id).effects);
                r
            },
        }
    }

    fn rename(&mut self, conn: &Connection, id: usize, name: String) -> (r: Vec<Effect>)
        requires
            old(self)@.ok(),
        ensures
            final(self)@ == old(self)@.renames(*conn, id, name@).daemon,
            effects(r@) == old(self)@.renames(*conn, id, name@).effects,
            final(self)@.ok(),
            emulators_kept(old(self).sessions@, final(self).sessions@, None),
    {
        proof {
            lemma_emulators_kept(self.sessions@, self.sessions@, |j: int| j, None);
        }
        match self.find(id) {
            None => refuse(not_found_text(id)),
            Some(i) => {
                self.sessions[i].name = name.clone();
                proof {
                    let before = old(self)@.sessions[i as int];
                    lemma_session_updated(old(self).sessions@, self.sessions@, i as int);
                    assert(self.sessions@[i as int]@ =~= (SessionView { name: name@, ..before }));
                    lemma_with_ok(old(self)@, i as int, self.sessions@[i as int]@);
                    lemma_emulators_kept(old(self).sessions@, self.sessions@, |j: int| j, None);
                }
                one(Effect::Reply(DaemonMsg::SessionRenamed { id, name }))
            },
        }
    }

    fn reorder(&mut self, conn: &Connection, id: usize, new_index: usize) -> (r: Vec<Effect>)
        requires
            old(self)@.ok(),
        ensures
            final(self)@ == old(self)@.reorders(*conn, id, new_index).daemon,
            effects(r@) == old(self)@.reorders(*conn, id, new_index).effects,
            final(self)@.ok(),
            emulators_kept(old(self).sessions@, final(self).sessions@, None),
    {
        proof {
            lemma_emulators_kept(self.sessions@, self.sessions@, |j: int| j, None);
        }
        match self.find(id) {
            None => refuse(not_found_text(id)),
            Some(i) => if new_index < self.sessions.len() {
                let s = self.sessions.remove(i);
                self.sessions.insert(new_index, s);
                proof {
                    let before = old(self)@.sessions;
                    assert(self@.sessions =~= moved(before, i as int, new_index as int));
                    assert(ids(self@.sessions) =~= moved(ids(before), i as int, new_index as int));
                    assert forall|k: int| 0 <= k < self@.sessions.len() implies (
                    #[trigger] self@.sessions[k]).ok() && self@.sessions[k].id < self@.next_id by {
                        lemma_moved_from(before, i as int, new_index as int, k);
                    }
                    lemma_moved_distinct(ids(before), i as int, new_index as int);
                    let (v, w) = (old(self).sessions@, self.sessions@);
                    assert(w =~= moved(v, i as int, new_index as int));
                    assert forall|j: int| 0 <= j < w.len() implies {
                        let k = source(i as int, new_index as int, j);
                        0 <= k < v.len() && (#[trigger] w[j]) == v[k]
                    } by {
                        lemma_moved_from(v, i as int, new_index as int, j);
                    }
                    lemma_emulators_kept(
                        v,
                        w,
                        |j: int| source(i as int, new_index as int, j),
                        None,
                    );
                }
                one(Effect::Reply(DaemonMsg::SessionReordered { id, new_index }))
            } else {
                let mut msg = "invalid index ".to_string();
                let n = to_decimal(new_index as u128);
                msg.push_str(n.as_str());
                refuse(msg)
            },
        }
    }

    fn attach(
        &mut self,
        conn: &mut Connection,
        id: usize,
        cols: u16,
        rows: u16,
        channel: u64,
    ) -> (r: Vec<Effect>)
        requires
            old(self)@.ok(),
        ensures
            final(self)@ == old(self)@.attaches(*old(conn), id, cols, rows, channel).daemon,
            *final(conn) == old(self)@.attaches(*old(conn), id, cols, rows, channel).conn,
            effects(r@) == old(self)@.attaches(*old(conn), id, cols, rows, channel).effects,
            final(self)@.ok(),
            emulators_kept(
                old(self).sessions@,
                final(self).sessions@,
                emulator_changed(old(self)@, *old(conn), ClientMsgView::Attach { id, cols, rows }),
            ),
    {
        proof {
            lemma_emulators_kept(self.sessions@, self.sessions@, |j: int| j, None);
        }
        match self.find(id) {
            None => refuse(not_found_text(id)),
            Some(i) => {
                conn.attached_id = Some(id);
                let mut r: Vec<Effect> = Vec::new();
                let ghost s = old(self)@.sessions[i as int];
                let changed = self.sessions[i].resize_and_reset(cols, rows);
                if changed {
                    r.push(
                        Effect::ResizeShell { id, cols: clamp_one(cols), rows: clamp_one(rows) },
                    );
                } else {
                    let data = self.sessions[i].buffered_output();
                    if data.len() > 0 {
                        r.push(Effect::Reply(DaemonMsg::PtyOutput { id, data }));
                    }
                }
                let ghost sent = resize_effect(changed, id, cols, rows) + replay(
                    !changed,
                    id,
                    s.buffer,
                );
                assert(effects(r@) =~= sent);
                let known = self.sessions[i].current_cwd();
                if let Some(cwd) = known {
                    proof {
                        lemma_effects_push(r@, Effect::Reply(DaemonMsg::CwdUpdate { id, cwd }));
                    }
                    r.push(Effect::Reply(DaemonMsg::CwdUpdate { id, cwd }));
                }
                assert(effects(r@) =~= sent + directory(id, s.cwd));
                self.sessions[i].subscribe(channel);
                self.sessions[i].subscribe_cwd(channel);
                conn.channel = Some(channel);
                proof {
                    lemma_effects_push(
                        r@,
                        Effect::Reply(DaemonMsg::Attached { id, cleared: changed }),
                    );
                    lemma_session_updated(old(self).sessions@, self.sessions@, i as int);
                    lemma_with_ok(old(self)@, i as int, self.sessions@[i as int]@);
                    lemma_emulators_kept(
                        old(self).sessions@,
                        self.sessions@,
                        |j: int| j,
                        emulator_changed(
                            old(self)@,
                            *old(conn),
                            ClientMsgView::Attach { id, cols, rows },
                        ),
                    );
                }
                r.push(Effect::Reply(DaemonMsg::Attached { id, cleared: changed }));
                assert(effects(r@) =~= old(self)@.attaches(
                    *old(conn),
                    id,
                    cols,
                    rows,
                    channel,
                ).effects);
                r
            },
        }
    }

    fn resize(&mut self, conn: &Connection, cols: u16, rows: u16) -> (r: Vec<Effect>)
        requires
            old(self)@.ok(),
        ensures
            final(self)@ == old(self)@.resizes(*conn, cols, rows).daemon,
            effects(r@) == old(self)@.resizes(*conn, cols, rows).effects,
            final(self)@.ok(),
            emulators_kept(old(self).sessions@, final(self).sessions@, conn.attached_id),
    {
        proof {
            lemma_emulators_kept(self.sessions@, self.sessions@, |j: int| j, conn.attached_id);
        }
        let mut r: Vec<Effect> = Vec::new();
        if let Some(id) = conn.attached_id {
            if let Some(i) = self.find(id) {
                assert(old(self)@.sessions[i as int].ok());
                self.sessions[i].resize(cols, rows);
                r.push(Effect::ResizeShell { id, cols: clamp_one(cols), rows: clamp_one(rows) });
                proof {
                    lemma_session_updated(old(self).sessions@, self.sessions@, i as int);
                    lemma_with_ok(old(self)@, i as int, self.sessions@[i as int]@);
                    lemma_emulators_kept(
                        old(self).sessions@,
                        self.sessions@,
                        |j: int| j,
                        conn.attached_id,
                    );
                }
            }
        }
        assert(effects(r@) =~= old(self)@.resizes(*conn, cols, rows).effects);
        r
    }

    fn input(&self, conn: &Connection, data: Vec<u8>) -> (r: Vec<Effect>)
        ensures
            effects(r@) == self@.types(*conn, data@).effects,
    {
        let mut r: Vec<Effect> = Vec::new();
        let ghost typed = data@;
        if let Some(id) = conn.attached_id {
            if let Some(_i) = self.find(id) {
                r.push(Effect::Write { id, data });
            }
        }
        assert(effects(r@) =~= self@.types(*conn, typed).effects);
        r
    }

    fn shutdown(&mut self, conn: &Connection) -> (r: Vec<Effect>)
        ensures
            final(self)@ == old(self)@.ends(*conn).daemon,
            effects(r@) == old(self)@.ends(*conn).effects,
            final(self)@.ok(),
            final(self).sessions@.len() == 0,
    {
        let mut r: Vec<Effect> = Vec::new();
        let mut i: usize = 0;
        while i < self.sessions.len()
            invariant
                i <= self.sessions@.len(),
                self@ == old(self)@,
                effects(r@) == closings(self@.sessions.take(i as int)),
            decreases self.sessions@.len() - i,
        {
            let id: usize = self.sessions[i].id;
            proof {
                let all = self@.sessions;
                lemma_effects_push(r@, Effect::Close { id });
                assert(closings(all.take(i + 1)) =~= closings(all.take(i as int)).push(
                    EffectView::Close { id },
                ));
            }
            r.push(Effect::Close { id });
            i += 1;
        }
        assert(self@.sessions.take(i as int) =~= self@.sessions);
        self.sessions.clear();
        assert(self@.sessions =~= Seq::<SessionView>::empty());
        let ghost closed = r@;
        r.push(Effect::Reply(DaemonMsg::Done));
        r.push(Effect::Exit);
        proof {
            lemma_effects_push(closed, Effect::Reply(DaemonMsg::Done));
            lemma_effects_push(closed.push(Effect::Reply(DaemonMsg::Done)), Effect::Exit);
        }
        assert(effects(r@) =~= old(self)@.ends(*conn).effects);
        r
    }
}

impl Connection {
    /// A client that has just come.
    pub fn new() -> (c: Connection)
        ensures
            c == (Connection { attached_id: None, channel: None }),
    {
        Connection { attached_id: None, channel: None }
    }

    /// What the client is sent of output that came by its channel.
    pub fn output_message(&self, data: Vec<u8>) -> (r: Option<DaemonMsg>)
        ensures
            match self.attached_id {
                Some(id) => r matches Some(m) && m@ == (DaemonMsgView::PtyOutput {
                    id,
                    data: data@,
                }),
                None => r is None,
            },
    {
        match self.attached_id {
            Some(id) => Some(DaemonMsg::PtyOutput { id, data }),
            None => None,
        }
    }

    /// What the client is sent of a change of directory that came by its channel.
    pub fn cwd_message(&self, cwd: String) -> (r: Option<DaemonMsg>)
        ensures
            match self.attached_id {
                Some(id) => r matches Some(m) && m@ == (DaemonMsgView::CwdUpdate { id, cwd: cwd@ }),
                None => r is None,
            },
    {
        match self.attached_id {
            Some(id) => Some(DaemonMsg::CwdUpdate { id, cwd }),
            None => None,
        }
    }
}

/// Handles a client's message. `channel` is a channel that nobody uses yet, for the case that the
/// client attaches. Returns what is to be done outside.
pub fn handle_client(
    daemon: &mut Daemon,
    conn: &mut Connection,
    msg: ClientMsg,
    channel: u64,
) -> (r: Vec<Effect>)
    requires
        old(daemon)@.ok(),
        msg is NewSession ==> old(daemon).next_id < usize::MAX,
    ensures
        final(daemon)@ == old(daemon)@.handles(*old(conn), msg@, channel).daemon,
        *final(conn) == old(daemon)@.handles(*old(conn), msg@, channel).conn,
        effects(r@) == old(daemon)@.handles(*old(conn), msg@, channel).effects,
        final(daemon)@.ok(),
        emulators_kept(
            old(daemon).sessions@,
            final(daemon).sessions@,
            emulator_changed(old(daemon)@, *old(conn), msg@),
        ),
{
    proof {
        lemma_emulators_kept(daemon.sessions@, daemon.sessions@, |j: int| j, None);
    }
    match msg {
        ClientMsg::ListSessions => {
            let sessions = daemon.list();
            one(Effect::Reply(DaemonMsg::SessionList { sessions }))
        },
        ClientMsg::NewSession { name, cols, rows, startup_cmds } => {
            let id: usize = daemon.take_id();
            one(Effect::Open { id, name, cols, rows, startup_cmds })
        },
        ClientMsg::DeleteSession { id } => daemon.delete(conn, id),
        ClientMsg::RenameSession { id, name } => daemon.rename(conn, id, name),
        ClientMsg::ReorderSession { id, new_index } => daemon.reorder(conn, id, new_index),
        ClientMsg::Attach { id, cols, rows } => daemon.attach(conn, id, cols, rows, channel),
        ClientMsg::Detach => {
            conn.attached_id = None;
            conn.channel = None;
            one(Effect::Reply(DaemonMsg::Detached))
        },
        ClientMsg::Input { data } => daemon.input(conn, data),
        ClientMsg::Resize { cols, rows } => daemon.resize(conn, cols, rows),
        ClientMsg::Shutdown => daemon.shutdown(conn),
    }
}

/// The session that has the number `id`.
pub open spec fn session_of(d: DaemonView, id: usize) -> SessionView {
    d.sessions[d.index(id)]
}

/// The daemon tells the client that it refuses.
pub open spec fn is_refusal(e: EffectView) -> bool {
    e matches EffectView::Reply(m) && m is Error
}

/// The message asks for something that cannot be done.
pub open spec fn cannot_be_done(d: DaemonView, msg: ClientMsgView) -> bool {
    match msg {
        ClientMsgView::DeleteSession { id } => d.sessions.len() <= 1 || !d.has(id),
        ClientMsgView::RenameSession { id, name } => !d.has(id),
        ClientMsgView::ReorderSession { id, new_index } => !d.has(id) || new_index
            >= d.sessions.len(),
        ClientMsgView::Attach { id, cols, rows } => !d.has(id),
        _ => false,
    }
}

/// A daemon in order stays in order, whatever a client sends.
pub proof fn law_order_kept(d: DaemonView, conn: Connection, msg: ClientMsgView, channel: u64)
    requires
        d.ok(),
        msg is NewSession ==> d.next_id < usize::MAX,
    ensures
        d.handles(conn, msg, channel).daemon.ok(),
{
    let after = d.handles(conn, msg, channel).daemon;
    match msg {
        ClientMsgView::DeleteSession { id } => {
            if !cannot_be_done(d, msg) {
                lemma_place_exists(ids(d.sessions), id);
                assert(ids(after.sessions) =~= ids(d.sessions).remove(d.index(id)));
            }
        },
        ClientMsgView::RenameSession { id, name } => {
            if d.has(id) {
                lemma_place_exists(ids(d.sessions), id);
                lemma_with_ok(d, d.index(id), SessionView { name, ..session_of(d, id) });
            }
        },
        ClientMsgView::ReorderSession { id, new_index } => {
            if !cannot_be_done(d, msg) {
                lemma_place_exists(ids(d.sessions), id);
                let (i, j) = (d.index(id), new_index as int);
                assert(ids(after.sessions) =~= moved(ids(d.sessions), i, j));
                assert forall|k: int| 0 <= k < after.sessions.len() implies (
                #[trigger] after.sessions[k]).ok() && after.sessions[k].id < after.next_id by {
                    lemma_moved_from(d.sessions, i, j, k);
                }
                lemma_moved_distinct(ids(d.sessions), i, j);
            }
        },
        ClientMsgView::Attach { id, cols, rows } => {
            if d.has(id) {
                lemma_place_exists(ids(d.sessions), id);
                lemma_with_ok(d, d.index(id), after.sessions[d.index(id)]);
            }
        },
        ClientMsgView::Resize { cols, rows } => {
            if let Some(id) = conn.attached_id {
                if d.has(id) {
                    lemma_place_exists(ids(d.sessions), id);
                    lemma_with_ok(d, d.index(id), after.sessions[d.index(id)]);
                }
            }
        },
        _ => {},
    }
}

/// The client is refused exactly where what it asks cannot be done. Then it is told so and
/// nothing else, and nothing changes.
pub proof fn law_refused_request_changes_nothing(
    d: DaemonView,
    conn: Connection,
    msg: ClientMsgView,
    channel: u64,
)
    ensures
        ({
            let o = d.handles(conn, msg, channel);
            &&& cannot_be_done(d, msg) <==> exists|k: int|
                0 <= k < o.effects.len() && is_refusal(#[trigger] o.effects[k])
            &&& cannot_be_done(d, msg) ==> o.daemon == d && o.conn == conn && o.effects.len() == 1
        }),
{
    let o = d.handles(conn, msg, channel);
    if cannot_be_done(d, msg) {
        assert(is_refusal(o.effects[0]));
    } else if msg is Shutdown {
        assert forall|k: int| 0 <= k < o.effects.len() implies !is_refusal(
            #[trigger] o.effects[k],
        ) by {
            if k < d.sessions.len() {
                assert(o.effects[k] == closings(d.sessions)[k]);
            }
        }
    }
}

/// As long as nobody ends the daemon, it holds a session: the last one cannot be deleted.
pub proof fn law_last_session_stays(
    d: DaemonView,
    conn: Connection,
    msg: ClientMsgView,
    channel: u64,
)
    requires
        d.sessions.len() >= 1,
        msg !is Shutdown,
    ensures
        d.handles(conn, msg, channel).daemon.sessions.len() >= 1,
{
    match msg {
        ClientMsgView::DeleteSession { id } => {
            if d.has(id) {
                lemma_place_exists(ids(d.sessions), id);
            }
        },
        ClientMsgView::RenameSession { id, name } => {
            if d.has(id) {
                lemma_place_exists(ids(d.sessions), id);
            }
        },
        ClientMsgView::ReorderSession { id, new_index } => {
            if d.has(id) {
                lemma_place_exists(ids(d.sessions), id);
            }
        },
        ClientMsgView::Attach { id, cols, rows } => {
            if d.has(id) {
                lemma_place_exists(ids(d.sessions), id);
            }
        },
        ClientMsgView::Resize { cols, rows } => {
            if let Some(id) = conn.attached_id {
                if d.has(id) {
                    lemma_place_exists(ids(d.sessions), id);
                }
            }
        },
        _ => {},
    }
}

/// A new session gets a number that no session has, and that is not given out again.
pub proof fn law_new_number_is_fresh(
    d: DaemonView,
    conn: Connection,
    msg: ClientMsgView,
    channel: u64,
)
    requires
        d.ok(),
        msg is NewSession ==> d.next_id < usize::MAX,
    ensures
        ({
            let o = d.handles(conn, msg, channel);
            &&& o.daemon.next_id >= d.next_id
            &&& forall|k: int|
                0 <= k < o.effects.len() && (#[trigger] o.effects[k]) is Open ==> {
                    let id = o.effects[k]->Open_id;
                    !d.has(id) && id == d.next_id && id < o.daemon.next_id
                }
        }),
{
    assert(!d.has(d.next_id)) by {
        if d.has(d.next_id) {
            lemma_place_exists(ids(d.sessions), d.next_id);
            assert(d.sessions[d.index(d.next_id)].id < d.next_id);
        }
    }
    let o = d.handles(conn, msg, channel);
    if msg is Shutdown {
        assert forall|k: int| 0 <= k < o.effects.len() implies (#[trigger] o.effects[k]) !is Open by {
            if k < d.sessions.len() {
                assert(o.effects[k] == closings(d.sessions)[k]);
            }
        }
    }
}

/// A client that comes back with a terminal of the same size gets the output kept, byte for byte,
/// once and before all else, and is told that the screen was not wiped; the shell is told nothing.
/// With another size the shell is told that size, the client gets no output and is told that the
/// screen was wiped, and the session's screen and buffer are empty.
pub proof fn law_reattach_restores_or_wipes(
    d: DaemonView,
    conn: Connection,
    id: usize,
    cols: u16,
    rows: u16,
    channel: u64,
)
    requires
        d.ok(),
        d.has(id),
    ensures
        ({
            let o = d.handles(conn, ClientMsgView::Attach { id, cols, rows }, channel);
            let s = session_of(d, id);
            let t = session_of(o.daemon, id);
            let changed = s.screen.rows != at_least_one(rows) || s.screen.cols != at_least_one(
                cols,
            );
            &&& o.daemon.has(id)
            &&& o.effects.last() == EffectView::Reply(
                DaemonMsgView::Attached { id, cleared: changed },
            )
            &&& t.screen.rows == at_least_one(rows) && t.screen.cols == at_least_one(cols)
            &&& t.screen == if changed {
                blank_screen(t.screen.rows, t.screen.cols)
            } else {
                s.screen
            }
            &&& changed ==> o.effects[0] == EffectView::ResizeShell {
                id,
                cols: t.screen.cols,
                rows: t.screen.rows,
            }
            &&& !changed ==> forall|k: int|
                0 <= k < o.effects.len() ==> (#[trigger] o.effects[k]) !is ResizeShell
            &&& forall|k: int|
                0 <= k < o.effects.len() ==> ((#[trigger] o.effects[k]) matches EffectView::Reply(
                    DaemonMsgView::PtyOutput { id: of, data },
                ) ==> k == 0 && !changed && of == id && data == s.buffer)
            &&& !changed && s.buffer.len() > 0 ==> o.effects[0] == EffectView::Reply(
                DaemonMsgView::PtyOutput { id, data: s.buffer },
            )
            &&& t.buffer == if changed {
                Seq::empty()
            } else {
                s.buffer
            }
        }),
{
    let o = d.handles(conn, ClientMsgView::Attach { id, cols, rows }, channel);
    lemma_place_exists(ids(d.sessions), id);
    assert(ids(o.daemon.sessions) =~= ids(d.sessions));
}

/// A client that attaches twice with the same size finds on the second time what was there after
/// the first: nothing is wiped.
pub proof fn law_second_attach_wipes_nothing(
    d: DaemonView,
    conn: Connection,
    id: usize,
    cols: u16,
    rows: u16,
    first: u64,
    second: u64,
)
    requires
        d.ok(),
        d.has(id),
    ensures
        ({
            let msg = ClientMsgView::Attach { id, cols, rows };
            let one = d.handles(conn, msg, first);
            let two = one.daemon.handles(one.conn, msg, second);
            &&& two.effects.last() == EffectView::Reply(
                DaemonMsgView::Attached { id, cleared: false },
            )
            &&& session_of(two.daemon, id).screen == session_of(one.daemon, id).screen
            &&& session_of(two.daemon, id).buffer == session_of(one.daemon, id).buffer
        }),
{
    let msg = ClientMsgView::Attach { id, cols, rows };
    let one = d.handles(conn, msg, first);
    law_order_kept(d, conn, msg, first);
    law_reattach_restores_or_wipes(d, conn, id, cols, rows, first);
    law_reattach_restores_or_wipes(one.daemon, one.conn, id, cols, rows, second);
    lemma_place_exists(ids(d.sessions), id);
    assert(ids(one.daemon.sessions) =~= ids(d.sessions));
    let two = one.daemon.handles(one.conn, msg, second);
    assert(ids(two.daemon.sessions) =~= ids(d.sessions));
}

/// What a client asks of one session leaves every other as it is.
pub proof fn law_other_sessions_untouched(
    d: DaemonView,
    conn: Connection,
    msg: ClientMsgView,
    channel: u64,
    other: usize,
)
    requires
        d.ok(),
        d.has(other),
        msg !is Shutdown,
        match msg {
            ClientMsgView::DeleteSession { id } => id != other,
            ClientMsgView::RenameSession { id, name } => id != other,
            ClientMsgView::Attach { id, cols, rows } => id != other,
            ClientMsgView::Resize { cols, rows } => conn.attached_id != Some(other),
            _ => true,
        },
    ensures
        d.handles(conn, msg, channel).daemon.has(other),
        session_of(d.handles(conn, msg, channel).daemon, other) == session_of(d, other),
{
    let after = d.handles(conn, msg, channel).daemon;
    let (all, left) = (ids(d.sessions), ids(after.sessions));
    lemma_place_exists(all, other);
    let at = d.index(other);
    match msg {
        ClientMsgView::DeleteSession { id } => {
            if !cannot_be_done(d, msg) {
                lemma_place_exists(all, id);
                let gone = d.index(id);
                let now = if at < gone {
                    at
                } else {
                    at - 1
                };
                assert(left =~= all.remove(gone));
                assert(first_at(left, other, now));
                lemma_place(left, other, now);
            }
        },
        ClientMsgView::ReorderSession { id, new_index } => {
            if !cannot_be_done(d, msg) {
                lemma_place_exists(all, id);
                lemma_moved_place(all, d.index(id), new_index as int, other);
                assert(left =~= moved(all, d.index(id), new_index as int));
                let now = after.index(other);
                lemma_moved_from(d.sessions, d.index(id), new_index as int, now);
                lemma_moved_from(all, d.index(id), new_index as int, now);
            }
        },
        ClientMsgView::RenameSession { id, name } => {
            if d.has(id) {
                lemma_place_exists(all, id);
                assert(left =~= all);
            }
        },
        ClientMsgView::Attach { id, cols, rows } => {
            if d.has(id) {
                lemma_place_exists(all, id);
                assert(left =~= all);
            }
        },
        ClientMsgView::Resize { cols, rows } => {
            if let Some(id) = conn.attached_id {
                if d.has(id) {
                    lemma_place_exists(all, id);
                    assert(left =~= all);
                }
            }
        },
        _ => {},
    }
}

/// A deleted session is gone, and a client that showed it is detached: it is told so, what it
/// types goes nowhere, and it gets no more output.
pub proof fn law_deleted_session_is_gone(
    d: DaemonView,
    conn: Connection,
    id: usize,
    data: Seq<u8>,
    channel: u64,
)
    requires
        d.ok(),
        d.has(id),
        d.sessions.len() > 1,
    ensures
        ({
            let o = d.handles(conn, ClientMsgView::DeleteSession { id }, channel);
            &&& !o.daemon.has(id)
            &&& o.effects[0] == EffectView::Close { id }
            &&& o.effects[1] == EffectView::Reply(DaemonMsgView::SessionDeleted { id })
            &&& o.daemon.handles(o.conn, ClientMsgView::Input { data }, channel).effects
                == if conn.attached_id == Some(id) {
                Seq::empty()
            } else {
                d.handles(conn, ClientMsgView::Input { data }, channel).effects
            }
            &&& conn.attached_id == Some(id) ==> o.effects.last() == EffectView::Reply(
                DaemonMsgView::Detached,
            ) && o.conn.channel is None
        }),
{
    let msg = ClientMsgView::DeleteSession { id };
    let o = d.handles(conn, msg, channel);
    let all = ids(d.sessions);
    lemma_place_exists(all, id);
    let left = ids(o.daemon.sessions);
    assert(left =~= all.remove(d.index(id)));
    if o.daemon.has(id) {
        lemma_place_exists(left, id);
        let k = o.daemon.index(id);
        assert(left[k] == all[if k < d.index(id) {
            k
        } else {
            k + 1
        }]);
    }
    if let Some(shown) = conn.attached_id {
        if shown != id {
            if d.has(shown) {
                law_other_sessions_untouched(d, conn, msg, channel, shown);
            } else if o.daemon.has(shown) {
                lemma_place_exists(left, shown);
                let k = o.daemon.index(shown);
                let was = if k < d.index(id) {
                    k
                } else {
                    k + 1
                };
                assert(all[was] == shown);
            }
        }
    }
}

/// A session moved to a place stands there; moved back, the list is as it was.
pub proof fn law_move_back_restores_order(
    d: DaemonView,
    conn: Connection,
    id: usize,
    new_index: usize,
    old_index: usize,
    channel: u64,
)
    requires
        d.ok(),
        d.has(id),
        new_index < d.sessions.len(),
        old_index == d.index(id),
    ensures
        ({
            let o = d.handles(conn, ClientMsgView::ReorderSession { id, new_index }, channel);
            let back = ClientMsgView::ReorderSession { id, new_index: old_index };
            &&& o.daemon.index(id) == new_index
            &&& session_of(o.daemon, id) == session_of(d, id)
            &&& o.daemon.handles(o.conn, back, channel).daemon == d
        }),
{
    let msg = ClientMsgView::ReorderSession { id, new_index };
    let o = d.handles(conn, msg, channel);
    let all = ids(d.sessions);
    lemma_place_exists(all, id);
    let left = ids(o.daemon.sessions);
    assert(left =~= moved(all, old_index as int, new_index as int));
    law_order_kept(d, conn, msg, channel);
    assert(first_at(left, id, new_index as int));
    lemma_place(left, id, new_index as int);
    lemma_moved_back(d.sessions, old_index as int, new_index as int);
}

/// The place of a session, where no two have the same number.
proof fn lemma_only_place(d: DaemonView, id: usize, i: int)
    requires
        d.ok(),
        0 <= i < d.sessions.len(),
        d.sessions[i].id == id,
    ensures
        d.has(id),
        d.index(id) == i,
{
    let all = ids(d.sessions);
    assert(all[i] == id);
    assert forall|k: int| 0 <= k < i implies all[k] != id by {
        assert(all[k] != all[i]);
    }
    assert(first_at(all, id, i));
    lemma_place(all, id, i);
}

/// A number that no session has.
proof fn lemma_no_place(d: DaemonView, id: usize)
    requires
        forall|k: int| 0 <= k < d.sessions.len() ==> (#[trigger] d.sessions[k]).id != id,
    ensures
        !d.has(id),
{
    if d.has(id) {
        let k = choose|k: int| 0 <= k < ids(d.sessions).len() && ids(d.sessions)[k] == id;
        assert(d.sessions[k].id == id);
    }
}

/// A client that attaches to a session with the size of its screen is sent the output kept, whole,
/// where there is any, then the directory, where it is known, then that nothing was wiped. The
/// session keeps all that it has, and gets the client's channel for output and directory.
pub proof fn law_attach_of_same_size_replays(
    d: DaemonView,
    conn: Connection,
    i: int,
    cols: u16,
    rows: u16,
    channel: u64,
)
    requires
        d.ok(),
        0 <= i < d.sessions.len(),
        d.sessions[i].screen.cols == if cols == 0 {
            1
        } else {
            cols
        },
        d.sessions[i].screen.rows == if rows == 0 {
            1
        } else {
            rows
        },
    ensures
        ({
            let s = d.sessions[i];
            let id = s.id;
            let o = d.handles(conn, ClientMsgView::Attach { id, cols, rows }, channel);
            let t = o.daemon.sessions[i];
            let output = EffectView::Reply(DaemonMsgView::PtyOutput { id, data: s.buffer });
            let attached = EffectView::Reply(DaemonMsgView::Attached { id, cleared: false });
            &&& s.buffer.len() > 0 && s.cwd is None ==> o.effects == seq![output, attached]
            &&& s.buffer.len() == 0 && s.cwd is None ==> o.effects == seq![attached]
            &&& s.buffer.len() > 0 && s.cwd is Some ==> o.effects == seq![
                output,
                EffectView::Reply(DaemonMsgView::CwdUpdate { id, cwd: s.cwd->0 }),
                attached,
            ]
            &&& s.buffer.len() == 0 && s.cwd is Some ==> o.effects == seq![
                EffectView::Reply(DaemonMsgView::CwdUpdate { id, cwd: s.cwd->0 }),
                attached,
            ]
            &&& t.id == s.id && t.name == s.name && t.screen == s.screen && t.cwd == s.cwd
            &&& t.buffer == s.buffer
            &&& t.subscribers == s.subscribers.push(channel)
            &&& t.cwd_subscribers == s.cwd_subscribers.push(channel)
            &&& o.daemon.sessions == d.sessions.update(i, t)
            &&& o.daemon.next_id == d.next_id
            &&& o.conn.attached_id == Some(id) && o.conn.channel == Some(channel)
        }),
{
    let s = d.sessions[i];
    lemma_only_place(d, s.id, i);
    let o = d.handles(conn, ClientMsgView::Attach { id: s.id, cols, rows }, channel);
    let attached = EffectView::Reply(DaemonMsgView::Attached { id: s.id, cleared: false });
    let output = EffectView::Reply(DaemonMsgView::PtyOutput { id: s.id, data: s.buffer });
    if s.cwd is Some {
        let told = EffectView::Reply(DaemonMsgView::CwdUpdate { id: s.id, cwd: s.cwd->0 });
        if s.buffer.len() > 0 {
            assert(o.effects =~= seq![output, told, attached]);
        } else {
            assert(o.effects =~= seq![told, attached]);
        }
    } else if s.buffer.len() > 0 {
        assert(o.effects =~= seq![output, attached]);
    } else {
        assert(o.effects =~= seq![attached]);
    }
}

/// A client that attaches to a session with another size has the shell told that size, gets no
/// output, then the directory, where it is known, then that the screen was wiped. The session's
/// screen is empty and of that size, and no output is kept.
pub proof fn law_attach_of_other_size_wipes(
    d: DaemonView,
    conn: Connection,
    i: int,
    cols: u16,
    rows: u16,
    channel: u64,
)
    requires
        d.ok(),
        0 <= i < d.sessions.len(),
        (d.sessions[i].screen.cols != if cols == 0 {
            1
        } else {
            cols
        }) || (d.sessions[i].screen.rows != if rows == 0 {
            1
        } else {
            rows
        }),
    ensures
        ({
            let s = d.sessions[i];
            let id = s.id;
            let o = d.handles(conn, ClientMsgView::Attach { id, cols, rows }, channel);
            let t = o.daemon.sessions[i];
            let c: u16 = if cols == 0 {
                1
            } else {
                cols
            };
            let r: u16 = if rows == 0 {
                1
            } else {
                rows
            };
            let sized = EffectView::ResizeShell { id, cols: c, rows: r };
            let attached = EffectView::Reply(DaemonMsgView::Attached { id, cleared: true });
            &&& s.cwd is None ==> o.effects == seq![sized, attached]
            &&& s.cwd is Some ==> o.effects == seq![
                sized,
                EffectView::Reply(DaemonMsgView::CwdUpdate { id, cwd: s.cwd->0 }),
                attached,
            ]
            &&& t.screen == blank_screen(r, c) && t.buffer.len() == 0
            &&& t.id == s.id && t.name == s.name && t.cwd == s.cwd
            &&& t.subscribers == s.subscribers.push(channel)
            &&& t.cwd_subscribers == s.cwd_subscribers.push(channel)
            &&& o.daemon.sessions == d.sessions.update(i, t)
            &&& o.daemon.next_id == d.next_id
            &&& o.conn.attached_id == Some(id) && o.conn.channel == Some(channel)
        }),
{
    let s = d.sessions[i];
    lemma_only_place(d, s.id, i);
    let o = d.handles(conn, ClientMsgView::Attach { id: s.id, cols, rows }, channel);
    let sized = o.effects[0];
    let attached = EffectView::Reply(DaemonMsgView::Attached { id: s.id, cleared: true });
    if s.cwd is Some {
        let told = EffectView::Reply(DaemonMsgView::CwdUpdate { id: s.id, cwd: s.cwd->0 });
        assert(o.effects =~= seq![sized, told, attached]);
    } else {
        assert(o.effects =~= seq![sized, attached]);
    }
}

/// Where no session has the number that a request names, the answer is that it was not found, and
/// nothing changes. A request to delete is refused before that where there is but one session.
pub proof fn law_unknown_number_is_refused(
    d: DaemonView,
    conn: Connection,
    msg: ClientMsgView,
    id: usize,
    channel: u64,
)
    requires
        forall|k: int| 0 <= k < d.sessions.len() ==> (#[trigger] d.sessions[k]).id != id,
        match msg {
            ClientMsgView::DeleteSession { id: of } => of == id && d.sessions.len() >= 2,
            ClientMsgView::RenameSession { id: of, name } => of == id,
            ClientMsgView::ReorderSession { id: of, new_index } => of == id,
            ClientMsgView::Attach { id: of, cols, rows } => of == id,
            _ => false,
        },
    ensures
        ({
            let o = d.handles(conn, msg, channel);
            &&& o.daemon == d && o.conn == conn
            &&& o.effects == seq![
                EffectView::Reply(
                    DaemonMsgView::Error {
                        msg: "session "@ + decimal(id as nat) + " not found"@,
                    },
                ),
            ]
        }),
{
    lemma_no_place(d, id);
}

/// The last session is not deleted, whatever number the request names.
pub proof fn law_delete_of_last_is_refused(
    d: DaemonView,
    conn: Connection,
    id: usize,
    channel: u64,
)
    requires
        d.sessions.len() <= 1,
    ensures
        ({
            let o = d.handles(conn, ClientMsgView::DeleteSession { id }, channel);
            &&& o.daemon == d && o.conn == conn
            &&& o.effects == seq![
                EffectView::Reply(DaemonMsgView::Error { msg: "cannot delete last session"@ }),
            ]
        }),
{
}

/// A deleted session is taken out of its place, and those behind it move up. Its shell is ended,
/// the client told, and detached where it showed that session.
pub proof fn law_delete_takes_out_one_session(
    d: DaemonView,
    conn: Connection,
    i: int,
    channel: u64,
)
    requires
        d.ok(),
        0 <= i < d.sessions.len(),
        d.sessions.len() >= 2,
    ensures
        ({
            let id = d.sessions[i].id;
            let o = d.handles(conn, ClientMsgView::DeleteSession { id }, channel);
            let close = EffectView::Close { id };
            let deleted = EffectView::Reply(DaemonMsgView::SessionDeleted { id });
            let detached = EffectView::Reply(DaemonMsgView::Detached);
            &&& o.daemon.sessions == d.sessions.take(i) + d.sessions.skip(i + 1)
            &&& o.daemon.next_id == d.next_id
            &&& conn.attached_id == Some(id) ==> {
                &&& o.effects == seq![close, deleted, detached]
                &&& o.conn.attached_id is None && o.conn.channel is None
            }
            &&& conn.attached_id != Some(id) ==> o.effects == seq![close, deleted] && o.conn == conn
        }),
{
    let id = d.sessions[i].id;
    lemma_only_place(d, id, i);
    let o = d.handles(conn, ClientMsgView::DeleteSession { id }, channel);
    assert(o.daemon.sessions =~= d.sessions.take(i) + d.sessions.skip(i + 1));
    let close = EffectView::Close { id };
    let deleted = EffectView::Reply(DaemonMsgView::SessionDeleted { id });
    if conn.attached_id == Some(id) {
        assert(o.effects =~= seq![close, deleted, EffectView::Reply(DaemonMsgView::Detached)]);
    }
}

/// A renamed session has the new name and all else as before, and the client is told that name.
pub proof fn law_rename_changes_one_name(
    d: DaemonView,
    conn: Connection,
    i: int,
    name: Seq<char>,
    channel: u64,
)
    requires
        d.ok(),
        0 <= i < d.sessions.len(),
    ensures
        ({
            let s = d.sessions[i];
            let o = d.handles(conn, ClientMsgView::RenameSession { id: s.id, name }, channel);
            let t = o.daemon.sessions[i];
            &&& o.daemon.sessions == d.sessions.update(i, t) && o.daemon.next_id == d.next_id
            &&& t.name == name
            &&& t.id == s.id && t.screen == s.screen && t.cwd == s.cwd && t.buffer == s.buffer
            &&& t.subscribers == s.subscribers && t.cwd_subscribers == s.cwd_subscribers
            &&& o.conn == conn
            &&& o.effects == seq![
                EffectView::Reply(DaemonMsgView::SessionRenamed { id: s.id, name }),
            ]
        }),
{
    lemma_only_place(d, d.sessions[i].id, i);
}

/// A session moved to a place inside the list stands there; the others keep their order among
/// each other. A place outside the list is refused.
pub proof fn law_reorder_moves_one_session(
    d: DaemonView,
    conn: Connection,
    i: int,
    new_index: usize,
    channel: u64,
)
    requires
        d.ok(),
        0 <= i < d.sessions.len(),
    ensures
        ({
            let id = d.sessions[i].id;
            let o = d.handles(conn, ClientMsgView::ReorderSession { id, new_index }, channel);
            let all = o.daemon.sessions;
            let j = new_index as int;
            &&& o.conn == conn && o.daemon.next_id == d.next_id
            &&& j < d.sessions.len() ==> {
                &&& all.len() == d.sessions.len()
                &&& all[j] == d.sessions[i]
                &&& all.take(j) + all.skip(j + 1) == d.sessions.take(i) + d.sessions.skip(i + 1)
                &&& o.effects == seq![
                    EffectView::Reply(DaemonMsgView::SessionReordered { id, new_index }),
                ]
            }
            &&& j >= d.sessions.len() ==> {
                &&& o.daemon == d
                &&& o.effects == seq![
                    EffectView::Reply(
                        DaemonMsgView::Error {
                            msg: "invalid index "@ + decimal(new_index as nat),
                        },
                    ),
                ]
            }
        }),
{
    let id = d.sessions[i].id;
    lemma_only_place(d, id, i);
    let o = d.handles(conn, ClientMsgView::ReorderSession { id, new_index }, channel);
    let all = o.daemon.sessions;
    let j = new_index as int;
    if j < d.sessions.len() {
        assert(all.take(j) + all.skip(j + 1) =~= d.sessions.take(i) + d.sessions.skip(i + 1));
    }
}

/// The list that a client gets names every session in its place, with its number, its name and its
/// directory, and changes nothing.
pub proof fn law_list_names_every_session(d: DaemonView, conn: Connection, channel: u64)
    ensures
        ({
            let o = d.handles(conn, ClientMsgView::ListSessions, channel);
            &&& o.daemon == d && o.conn == conn && o.effects.len() == 1
            &&& o.effects[0] matches EffectView::Reply(DaemonMsgView::SessionList { sessions })
            &&& sessions.len() == d.sessions.len()
            &&& forall|k: int|
                0 <= k < sessions.len() ==> {
                    &&& (#[trigger] sessions[k]).id == d.sessions[k].id
                    &&& sessions[k].name == d.sessions[k].name
                    &&& sessions[k].cwd == d.sessions[k].cwd
                }
        }),
{
}

/// A request for a new session has a shell started with the next number and all that the request
/// says; the number after it is the next.
pub proof fn law_new_session_is_opened_as_asked(
    d: DaemonView,
    conn: Connection,
    name: Seq<char>,
    cols: u16,
    rows: u16,
    cmds: Seq<Seq<char>>,
    channel: u64,
)
    requires
        d.next_id < usize::MAX,
    ensures
        ({
            let msg = ClientMsgView::NewSession { name, cols, rows, startup_cmds: cmds };
            let o = d.handles(conn, msg, channel);
            &&& o.conn == conn && o.daemon.sessions == d.sessions
            &&& o.daemon.next_id == d.next_id + 1
            &&& o.effects == seq![
                EffectView::Open { id: d.next_id, name, cols, rows, startup_cmds: cmds },
            ]
        }),
{
}

/// What a client types goes, byte for byte, to the session that it shows, and nowhere where it
/// shows none; a session that is gone gets nothing.
pub proof fn law_input_goes_to_session_shown(
    d: DaemonView,
    conn: Connection,
    data: Seq<u8>,
    channel: u64,
    i: int,
)
    requires
        d.ok(),
        0 <= i < d.sessions.len(),
    ensures
        ({
            let o = d.handles(conn, ClientMsgView::Input { data }, channel);
            let id = d.sessions[i].id;
            &&& o.daemon == d && o.conn == conn
            &&& conn.attached_id == Some(id) ==> o.effects == seq![EffectView::Write { id, data }]
            &&& conn.attached_id is None ==> o.effects.len() == 0
            &&& (conn.attached_id matches Some(of) && forall|k: int|
                0 <= k < d.sessions.len() ==> (#[trigger] d.sessions[k]).id != of)
                ==> o.effects.len() == 0
        }),
{
    lemma_only_place(d, d.sessions[i].id, i);
    if let Some(of) = conn.attached_id {
        if forall|k: int| 0 <= k < d.sessions.len() ==> (#[trigger] d.sessions[k]).id != of {
            lemma_no_place(d, of);
        }
    }
}

/// Another size of a client's terminal goes to the session that it shows and to its shell, and
/// nowhere where it shows none.
pub proof fn law_resize_goes_to_session_shown(
    d: DaemonView,
    conn: Connection,
    cols: u16,
    rows: u16,
    channel: u64,
    i: int,
)
    requires
        d.ok(),
        0 <= i < d.sessions.len(),
    ensures
        ({
            let o = d.handles(conn, ClientMsgView::Resize { cols, rows }, channel);
            let s = d.sessions[i];
            let t = o.daemon.sessions[i];
            let c: u16 = if cols == 0 {
                1
            } else {
                cols
            };
            let r: u16 = if rows == 0 {
                1
            } else {
                rows
            };
            &&& o.conn == conn && o.daemon.next_id == d.next_id
            &&& conn.attached_id == Some(s.id) ==> {
                &&& o.effects == seq![EffectView::ResizeShell { id: s.id, cols: c, rows: r }]
                &&& o.daemon.sessions == d.sessions.update(i, t)
                &&& t.screen.rows == r && t.screen.cols == c
                &&& forall|k: (u16, u16)|
                    s.screen.cells.contains_key(k) && k.0 < r && k.1 < c
                        ==> #[trigger] t.screen.cells.contains_key(k) && t.screen.cells[k]
                        == s.screen.cells[k]
                &&& t.id == s.id && t.name == s.name && t.cwd == s.cwd && t.buffer == s.buffer
                &&& t.subscribers == s.subscribers && t.cwd_subscribers == s.cwd_subscribers
            }
            &&& conn.attached_id is None ==> o.effects.len() == 0 && o.daemon == d
            &&& (conn.attached_id matches Some(of) && forall|k: int|
                0 <= k < d.sessions.len() ==> (#[trigger] d.sessions[k]).id != of)
                ==> o.effects.len() == 0 && o.daemon == d
        }),
{
    lemma_only_place(d, d.sessions[i].id, i);
    if let Some(of) = conn.attached_id {
        if forall|k: int| 0 <= k < d.sessions.len() ==> (#[trigger] d.sessions[k]).id != of {
            lemma_no_place(d, of);
        }
    }
}

/// A client that detaches is told so, shows no session any more, and changes none.
pub proof fn law_detach_only_lets_go(d: DaemonView, conn: Connection, channel: u64)
    ensures
        ({
            let o = d.handles(conn, ClientMsgView::Detach, channel);
            &&& o.daemon == d
            &&& o.conn.attached_id is None && o.conn.channel is None
            &&& o.effects == seq![EffectView::Reply(DaemonMsgView::Detached)]
        }),
{
}

/// A request to end has every shell ended, then the client told, and then the daemon ended. No
/// session is left.
pub proof fn law_shutdown_ends_every_shell(d: DaemonView, conn: Connection, channel: u64)
    ensures
        ({
            let o = d.handles(conn, ClientMsgView::Shutdown, channel);
            let n = d.sessions.len() as int;
            &&& o.daemon.sessions.len() == 0
            &&& o.effects.len() == n + 2
            &&& forall|k: int|
                0 <= k < n ==> (#[trigger] o.effects[k]) == (EffectView::Close {
                    id: d.sessions[k].id,
                })
            &&& o.effects[n] == EffectView::Reply(DaemonMsgView::Done)
            &&& o.effects[n + 1] == EffectView::Exit
        }),
{
}

/// The value of a list of effects has each in its place.
pub proof fn law_effects_keep_order(v: Seq<Effect>)
    ensures
        effects(v).len() == v.len(),
        forall|k: int|
            0 <= k < v.len() ==> match v[k] {
                Effect::ResizeShell { id, cols, rows } => (#[trigger] effects(v)[k]) == (
                EffectView::ResizeShell { id, cols, rows }),
                Effect::Write { id, data } => effects(v)[k] == (EffectView::Write {
                    id,
                    data: data@,
                }),
                Effect::Reply(m) => effects(v)[k] == EffectView::Reply(m@),
                _ => true,
            },
{
}

} // verus!

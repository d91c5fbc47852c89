//! What a client and the daemon agree on: the list of sessions, and the size and contents of the
//! screen that the client shows.
use crate::client::{
    ids as client_ids, law_attach_goes_out_on_blank_screen, listed_session, without, ActionView,
    AppView, ClientSessionView, PrefixMode, ReactionView,
};
use crate::daemon::{
    cannot_be_done, directory, ids as daemon_ids, law_reattach_restores_or_wipes, listed, replay,
    resize_effect, session_of, Connection, DaemonView, EffectView,
};
use crate::emulator::{at_least_one, blank_screen, ScreenView};
use crate::keys::Event;
use crate::list::{
    distinct, first_at, lemma_moved_distinct, lemma_moved_from, lemma_place, lemma_place_exists,
    moved,
};
use crate::protocol::{ClientMsgView, DaemonMsgView};
use crate::session::SessionView;
use vstd::prelude::*;

verus! {

/// The client lists the daemon's sessions, in the same order and by the same names.
pub open spec fn in_step(a: AppView, d: DaemonView) -> bool {
    &&& a.sessions.len() == d.sessions.len()
    &&& forall|i: int|
        0 <= i < a.sessions.len() ==> (#[trigger] a.sessions[i]).id == d.sessions[i].id
            && a.sessions[i].name == d.sessions[i].name
}

/// The client once it has heard a message, where `feed` says what output does to a screen: output
/// is fed to the session that it is for.
pub open spec fn heard(
    a: AppView,
    m: DaemonMsgView,
    feed: spec_fn(ScreenView, Seq<u8>) -> ScreenView,
) -> AppView {
    let h = a.on_message(m);
    match h.reaction {
        ReactionView::Feed { index, data } => {
            let s = h.app.sessions[index as int];
            h.app.with(index as int, ClientSessionView { screen: feed(s.screen, data), ..s })
        },
        _ => h.app,
    }
}

/// The client once it has heard the messages among `effects`, one after the other.
pub open spec fn hears(
    a: AppView,
    effects: Seq<EffectView>,
    feed: spec_fn(ScreenView, Seq<u8>) -> ScreenView,
) -> AppView
    decreases effects.len(),
{
    if effects.len() == 0 {
        a
    } else {
        let b = hears(a, effects.drop_last(), feed);
        match effects.last() {
            EffectView::Reply(m) => heard(b, m, feed),
            _ => b,
        }
    }
}

/// The message says nothing of the list of sessions.
pub open spec fn not_of_list(m: DaemonMsgView) -> bool {
    &&& m !is SessionCreated
    &&& m !is SessionDeleted
    &&& m !is SessionRenamed
    &&& m !is SessionReordered
}

proof fn lemma_step_ids(a: AppView, d: DaemonView)
    requires
        in_step(a, d),
    ensures
        client_ids(a.sessions) == daemon_ids(d.sessions),
{
    let (c, e) = (client_ids(a.sessions), daemon_ids(d.sessions));
    assert forall|i: int| 0 <= i < c.len() implies c[i] == e[i] by {
        assert(a.sessions[i].id == d.sessions[i].id);
    }
    assert(c =~= e);
}

proof fn lemma_other_messages_keep_step(
    a: AppView,
    d: DaemonView,
    m: DaemonMsgView,
    feed: spec_fn(ScreenView, Seq<u8>) -> ScreenView,
)
    requires
        in_step(a, d),
        a.sessions.len() <= usize::MAX,
        not_of_list(m),
    ensures
        in_step(heard(a, m, feed), d),
{
    let b = heard(a, m, feed);
    let id = match m {
        DaemonMsgView::CwdUpdate { id, cwd } => id,
        DaemonMsgView::PtyOutput { id, data } => id,
        _ => 0,
    };
    if a.has(id) {
        lemma_place_exists(client_ids(a.sessions), id);
    }
    assert forall|i: int| 0 <= i < b.sessions.len() implies (#[trigger] b.sessions[i]).id
        == d.sessions[i].id && b.sessions[i].name == d.sessions[i].name by {
        assert(a.sessions[i].id == d.sessions[i].id);
    }
}

proof fn lemma_hears_keeps_step(
    a: AppView,
    d: DaemonView,
    effects: Seq<EffectView>,
    feed: spec_fn(ScreenView, Seq<u8>) -> ScreenView,
)
    requires
        in_step(a, d),
        a.sessions.len() <= usize::MAX,
        forall|k: int|
            0 <= k < effects.len() ==> ((#[trigger] effects[k]) matches EffectView::Reply(m)
                ==> not_of_list(m)),
    ensures
        in_step(hears(a, effects, feed), d),
    decreases effects.len(),
{
    if effects.len() > 0 {
        let fewer = effects.drop_last();
        assert forall|k: int| 0 <= k < fewer.len() implies ((#[trigger] fewer[k]) matches EffectView::Reply(m)
            ==> not_of_list(m)) by {
            assert(fewer[k] == effects[k]);
        }
        lemma_hears_keeps_step(a, d, fewer, feed);
        let last = effects[effects.len() - 1];
        if let EffectView::Reply(m) = last {
            lemma_other_messages_keep_step(hears(a, fewer, feed), d, m, feed);
        }
    }
}

/// Messages that come in two parts are heard one part after the other.
proof fn lemma_hears_both(
    a: AppView,
    first: Seq<EffectView>,
    second: Seq<EffectView>,
    feed: spec_fn(ScreenView, Seq<u8>) -> ScreenView,
)
    ensures
        hears(a, first + second, feed) == hears(hears(a, first, feed), second, feed),
    decreases second.len(),
{
    if second.len() == 0 {
        assert(first + second =~= first);
    } else {
        lemma_hears_both(a, first, second.drop_last(), feed);
        assert((first + second).drop_last() =~= first + second.drop_last());
        assert((first + second).last() == second.last());
    }
}

proof fn lemma_hears_one(
    a: AppView,
    e: EffectView,
    feed: spec_fn(ScreenView, Seq<u8>) -> ScreenView,
)
    ensures
        hears(a, seq![e], feed) == match e {
            EffectView::Reply(m) => heard(a, m, feed),
            _ => a,
        },
{
    assert(seq![e].drop_last() =~= Seq::<EffectView>::empty());
    reveal_with_fuel(hears, 2);
}

/// Without a number that occurs once, the session at its place is gone.
proof fn lemma_without_is_remove(s: Seq<ClientSessionView>, id: usize, i: int)
    requires
        distinct(client_ids(s)),
        0 <= i < s.len(),
        s[i].id == id,
    ensures
        without(s, id) == s.remove(i),
    decreases s.len(),
{
    reveal(Seq::filter);
    let fewer = s.drop_last();
    let all = client_ids(s);
    assert(client_ids(fewer) =~= all.drop_last());
    if i == s.len() - 1 {
        assert forall|k: int| 0 <= k < fewer.len() implies (#[trigger] fewer[k]).id != id by {
            assert(all[k] != all[i]);
        }
        lemma_without_none(fewer, id);
        assert(s.remove(i) =~= fewer);
    } else {
        assert(distinct(client_ids(fewer)));
        lemma_without_is_remove(fewer, id, i);
        assert(all[i] != all[s.len() - 1]);
        assert(s.remove(i) =~= fewer.remove(i).push(s.last()));
    }
}

/// Without a number that does not occur, all stay.
proof fn lemma_without_none(s: Seq<ClientSessionView>, id: usize)
    requires
        forall|k: int| 0 <= k < s.len() ==> (#[trigger] s[k]).id != id,
    ensures
        without(s, id) == s,
    decreases s.len(),
{
    reveal(Seq::filter);
    if s.len() > 0 {
        let fewer = s.drop_last();
        assert forall|k: int| 0 <= k < fewer.len() implies (#[trigger] fewer[k]).id != id by {
            assert(fewer[k] == s[k]);
        }
        lemma_without_none(fewer, id);
        assert(s =~= fewer.push(s.last()));
    }
}

/// A client that starts with the list which the daemon sends it is in step with the daemon.
pub proof fn law_list_starts_in_step(d: DaemonView, conn: Connection, channel: u64, cols: u16, rows: u16)
    ensures
        ({
            let o = d.handles(conn, ClientMsgView::ListSessions, channel);
            &&& o.effects.len() == 1
            &&& o.effects[0] matches EffectView::Reply(DaemonMsgView::SessionList { sessions })
            &&& in_step(AppView::new(sessions, cols, rows), o.daemon)
        }),
{
    let list = listed(d.sessions);
    let a = AppView::new(list, cols, rows);
    assert forall|i: int| 0 <= i < a.sessions.len() implies (#[trigger] a.sessions[i]).id
        == d.sessions[i].id && a.sessions[i].name == d.sessions[i].name by {
        assert(a.sessions[i] == listed_session(list[i], cols, rows));
    }
}

/// A client in step with the daemon is in step again once it has heard the answers to what it
/// asked, whatever that was, as long as the daemon goes on. The answer to a request for a new
/// session comes later.
pub proof fn law_answers_keep_client_in_step(
    a: AppView,
    d: DaemonView,
    conn: Connection,
    msg: ClientMsgView,
    channel: u64,
    feed: spec_fn(ScreenView, Seq<u8>) -> ScreenView,
)
    requires
        in_step(a, d),
        a.ok(),
        d.ok(),
        msg !is Shutdown,
    ensures
        ({
            let o = d.handles(conn, msg, channel);
            in_step(hears(a, o.effects, feed), o.daemon)
        }),
{
    lemma_step_ids(a, d);
    let all = daemon_ids(d.sessions);
    let o = d.handles(conn, msg, channel);
    if cannot_be_done(d, msg) {
        lemma_hears_keeps_step(a, d, o.effects, feed);
    } else {
        match msg {
            ClientMsgView::DeleteSession { id } => {
                lemma_place_exists(all, id);
                lemma_deleted_in_step(a, d, conn, id, channel, feed);
            },
            ClientMsgView::RenameSession { id, name } => {
                lemma_place_exists(all, id);
                assert(o.effects.drop_last() =~= Seq::<EffectView>::empty());
                let b = a.on_message(DaemonMsgView::SessionRenamed { id, name }).app;
                reveal_with_fuel(hears, 2);
                assert(hears(a, o.effects, feed) == b);
                lemma_renamed_in_step(a, d, id, name);
            },
            ClientMsgView::ReorderSession { id, new_index } => {
                lemma_place_exists(all, id);
                assert(o.effects.drop_last() =~= Seq::<EffectView>::empty());
                reveal_with_fuel(hears, 2);
                lemma_moved_in_step(a, d, a.index(id), new_index as int);
            },
            ClientMsgView::Attach { id, cols, rows } => {
                lemma_place_exists(all, id);
                lemma_hears_keeps_step(a, d, o.effects, feed);
                lemma_same_list(hears(a, o.effects, feed), d, o.daemon);
            },
            ClientMsgView::Resize { cols, rows } => {
                lemma_hears_keeps_step(a, d, o.effects, feed);
                if let Some(id) = conn.attached_id {
                    if d.has(id) {
                        lemma_place_exists(all, id);
                        lemma_same_list(hears(a, o.effects, feed), d, o.daemon);
                    }
                }
            },
            _ => {
                lemma_hears_keeps_step(a, d, o.effects, feed);
            },
        }
    }
}

proof fn lemma_same_list(a: AppView, d: DaemonView, e: DaemonView)
    requires
        in_step(a, d),
        d.sessions.len() == e.sessions.len(),
        forall|i: int|
            0 <= i < d.sessions.len() ==> (#[trigger] d.sessions[i]).id == e.sessions[i].id
                && d.sessions[i].name == e.sessions[i].name,
    ensures
        in_step(a, e),
{
    assert forall|i: int| 0 <= i < a.sessions.len() implies (#[trigger] a.sessions[i]).id
        == e.sessions[i].id && a.sessions[i].name == e.sessions[i].name by {
        assert(d.sessions[i].id == e.sessions[i].id);
    }
}

proof fn lemma_renamed_in_step(a: AppView, d: DaemonView, id: usize, name: Seq<char>)
    requires
        in_step(a, d),
        d.has(id),
    ensures
        ({
            let i = d.index(id);
            in_step(
                a.on_message(DaemonMsgView::SessionRenamed { id, name }).app,
                d.with(i, SessionView { name, ..d.sessions[i] }),
            )
        }),
{
    lemma_step_ids(a, d);
    lemma_place_exists(daemon_ids(d.sessions), id);
    let b = a.on_message(DaemonMsgView::SessionRenamed { id, name }).app;
    let e = d.with(d.index(id), SessionView { name, ..d.sessions[d.index(id)] });
    assert forall|k: int| 0 <= k < b.sessions.len() implies (#[trigger] b.sessions[k]).id
        == e.sessions[k].id && b.sessions[k].name == e.sessions[k].name by {
        assert(a.sessions[k].id == d.sessions[k].id);
    }
}

proof fn lemma_moved_in_step(a: AppView, d: DaemonView, from: int, to: int)
    requires
        in_step(a, d),
        0 <= from < d.sessions.len(),
        0 <= to < d.sessions.len(),
    ensures
        in_step(
            AppView { sessions: moved(a.sessions, from, to), ..a },
            DaemonView { sessions: moved(d.sessions, from, to), ..d },
        ),
{
    let (s, t) = (moved(a.sessions, from, to), moved(d.sessions, from, to));
    assert forall|k: int| 0 <= k < s.len() implies (#[trigger] s[k]).id == t[k].id && s[k].name
        == t[k].name by {
        lemma_moved_from(a.sessions, from, to, k);
        lemma_moved_from(d.sessions, from, to, k);
    }
}

proof fn lemma_deleted_in_step(
    a: AppView,
    d: DaemonView,
    conn: Connection,
    id: usize,
    channel: u64,
    feed: spec_fn(ScreenView, Seq<u8>) -> ScreenView,
)
    requires
        in_step(a, d),
        d.ok(),
        d.has(id),
        d.sessions.len() > 1,
    ensures
        ({
            let o = d.handles(conn, ClientMsgView::DeleteSession { id }, channel);
            in_step(hears(a, o.effects, feed), o.daemon)
        }),
{
    lemma_step_ids(a, d);
    lemma_place_exists(daemon_ids(d.sessions), id);
    let i = d.index(id);
    let o = d.handles(conn, ClientMsgView::DeleteSession { id }, channel);
    let close = EffectView::Close { id };
    let deleted = EffectView::Reply(DaemonMsgView::SessionDeleted { id });
    let b = a.on_deleted(id);
    lemma_without_is_remove(a.sessions, id, i);
    assert(b.sessions == a.sessions.remove(i));
    assert forall|k: int| 0 <= k < b.sessions.len() implies (#[trigger] b.sessions[k]).id
        == o.daemon.sessions[k].id && b.sessions[k].name == o.daemon.sessions[k].name by {
        let was = if k < i {
            k
        } else {
            k + 1
        };
        assert(a.sessions[was].id == d.sessions[was].id);
    }
    assert(in_step(b, o.daemon));
    reveal_with_fuel(hears, 4);
    let first = seq![close, deleted];
    assert(first.drop_last() =~= seq![close]);
    assert(seq![close].drop_last() =~= Seq::<EffectView>::empty());
    assert(hears(a, first, feed) == b);
    if conn.attached_id == Some(id) {
        assert(o.effects.drop_last() =~= first);
    } else {
        assert(o.effects =~= first);
    }
}

/// A new session, once the daemon has taken it in and the client has heard of it, stands in both
/// lists, and the client is in step as before.
pub proof fn law_new_session_keeps_client_in_step(
    a: AppView,
    d: DaemonView,
    id: usize,
    name: Seq<char>,
    cols: u16,
    rows: u16,
)
    requires
        in_step(a, d),
    ensures
        ({
            let e = DaemonView {
                sessions: d.sessions.push(SessionView::new(id, name, cols, rows)),
                ..d
            };
            in_step(a.on_message(DaemonMsgView::SessionCreated { id, name }).app, e)
        }),
{
}

/// The move of a session that the client shows at once is the one that the daemon makes: client
/// and daemon are in step without further ado, and the daemon's answer changes nothing more.
pub proof fn law_move_shown_at_once_is_the_daemons(
    a: AppView,
    d: DaemonView,
    conn: Connection,
    event: Event,
    channel: u64,
)
    requires
        in_step(a, d),
        a.ok(),
        d.ok(),
    ensures
        a.on_event(event).action matches ActionView::SendMsg(
            ClientMsgView::ReorderSession { id, new_index },
        ) ==> {
            let b = a.on_event(event).app;
            let o = d.handles(conn, ClientMsgView::ReorderSession { id, new_index }, channel);
            &&& in_step(b, o.daemon)
            &&& o.effects == seq![
                EffectView::Reply(DaemonMsgView::SessionReordered { id, new_index }),
            ]
            &&& b.on_message(DaemonMsgView::SessionReordered { id, new_index }).app == b
        },
{
    if let ActionView::SendMsg(ClientMsgView::ReorderSession { id, new_index }) = a.on_event(
        event,
    ).action {
        let n = AppView { prefix_mode: PrefixMode::Normal, ..a };
        lemma_reorder_event(a, event);
        assert(in_step(n, d));
        lemma_move_agrees(n, d, conn, new_index, channel);
    }
}

/// A request to move a session goes out for the selected one, which has moved already.
#[verifier::rlimit(40)]
proof fn lemma_reorder_event(a: AppView, event: Event)
    requires
        a.ok(),
        a.on_event(event).action matches ActionView::SendMsg(m) && m is ReorderSession,
    ensures
        a.on_event(event).action matches ActionView::SendMsg(
            ClientMsgView::ReorderSession { id, new_index },
        ) && {
            &&& a.selected < a.sessions.len()
            &&& new_index < a.sessions.len()
            &&& id == a.sessions[a.selected as int].id
            &&& a.on_event(event).app == AppView {
                prefix_mode: PrefixMode::Normal,
                ..a
            }.moves_to(new_index as int)
        },
{
}

/// The selected session has the first place of its number.
proof fn lemma_selected_first(a: AppView, d: DaemonView)
    requires
        in_step(a, d),
        d.ok(),
        a.selected < a.sessions.len(),
    ensures
        a.has(a.sessions[a.selected as int].id),
        d.has(a.sessions[a.selected as int].id),
        a.index(a.sessions[a.selected as int].id) == a.selected,
        d.index(a.sessions[a.selected as int].id) == a.selected,
{
    lemma_step_ids(a, d);
    let all = client_ids(a.sessions);
    let i = a.selected as int;
    let id = a.sessions[i].id;
    assert(all[i] == id);
    assert forall|k: int| 0 <= k < i implies all[k] != id by {
        assert(all[k] != all[i]);
    }
    assert(first_at(all, id, i));
    lemma_place(all, id, i);
}

proof fn lemma_move_agrees(
    a: AppView,
    d: DaemonView,
    conn: Connection,
    new_index: usize,
    channel: u64,
)
    requires
        in_step(a, d),
        a.ok(),
        d.ok(),
        a.selected < a.sessions.len(),
        new_index < a.sessions.len(),
    ensures
        ({
            let id = a.sessions[a.selected as int].id;
            let b = a.moves_to(new_index as int);
            let o = d.reorders(conn, id, new_index);
            &&& in_step(b, o.daemon)
            &&& o.effects == seq![
                EffectView::Reply(DaemonMsgView::SessionReordered { id, new_index }),
            ]
            &&& b.on_reordered(id, new_index) == b
        }),
{
    let (i, j) = (a.selected as int, new_index as int);
    let id = a.sessions[i].id;
    lemma_selected_first(a, d);
    lemma_moved_in_step(a, d, i, j);
    let b = a.moves_to(j);
    let o = d.reorders(conn, id, new_index);
    assert(in_step(b, o.daemon));
    lemma_step_ids(a, d);
    let all = client_ids(a.sessions);
    let left = client_ids(b.sessions);
    assert(left =~= moved(all, i, j));
    lemma_moved_distinct(all, i, j);
    lemma_moved_from(all, i, j, j);
    assert(left[j] == id);
    assert(b.index(id) == j) by {
        assert forall|k: int| 0 <= k < j implies left[k] != id by {
            assert(left[k] != left[j]);
        }
        assert(first_at(left, id, j));
        lemma_place(left, id, j);
    }
    assert(moved(b.sessions, j, j) =~= b.sessions);
}

/// The name that the client shows at once is the one that the daemon takes: client and daemon are
/// in step without further ado, and the daemon's answer changes nothing more.
pub proof fn law_name_shown_at_once_is_the_daemons(
    a: AppView,
    d: DaemonView,
    conn: Connection,
    event: Event,
    channel: u64,
)
    requires
        in_step(a, d),
        a.ok(),
        d.ok(),
    ensures
        a.on_event(event).action matches ActionView::SendMsg(
            ClientMsgView::RenameSession { id, name },
        ) ==> {
            let b = a.on_event(event).app;
            let o = d.handles(conn, ClientMsgView::RenameSession { id, name }, channel);
            &&& in_step(b, o.daemon)
            &&& o.effects == seq![EffectView::Reply(DaemonMsgView::SessionRenamed { id, name })]
            &&& b.on_message(DaemonMsgView::SessionRenamed { id, name }).app == b
        },
{
    if let ActionView::SendMsg(ClientMsgView::RenameSession { id, name }) = a.on_event(
        event,
    ).action {
        let i = a.selected as int;
        lemma_rename_event(a, event);
        lemma_selected_first(a, d);
        lemma_renamed_in_step(a, d, id, name);
        let b = a.on_event(event).app;
        assert(client_ids(b.sessions) =~= client_ids(a.sessions));
        assert(b.sessions =~= a.on_message(
            DaemonMsgView::SessionRenamed { id, name },
        ).app.sessions);
        assert(b.sessions.update(i, ClientSessionView { name, ..b.sessions[i] }) =~= b.sessions);
    }
}

/// A request to rename a session goes out for the selected one, which has the name already.
#[verifier::rlimit(40)]
proof fn lemma_rename_event(a: AppView, event: Event)
    requires
        a.ok(),
        a.on_event(event).action matches ActionView::SendMsg(m) && m is RenameSession,
    ensures
        a.on_event(event).action matches ActionView::SendMsg(
            ClientMsgView::RenameSession { id, name },
        ) && {
            let i = a.selected as int;
            &&& a.selected < a.sessions.len()
            &&& id == a.sessions[i].id
            &&& a.on_event(event).app.sessions == a.sessions.update(
                i,
                ClientSessionView { name, ..a.sessions[i] },
            )
        },
{
}

/// When a client attaches, its screen and the daemon's have the same size. Where that is the size
/// which the session had, the first message that the client gets holds the output kept, and goes
/// to that session's emulator, on whose screen nothing stands: what was shown is drawn again,
/// once.
#[verifier::rlimit(40)]
pub proof fn law_attached_screens_agree(
    a: AppView,
    d: DaemonView,
    conn: Connection,
    event: Event,
    channel: u64,
)
    requires
        in_step(a, d),
        a.ok(),
        d.ok(),
    ensures
        a.on_event(event).action matches ActionView::SendMsg(
            ClientMsgView::Attach { id, cols, rows },
        ) ==> {
            let b = a.on_event(event).app;
            let shown = b.sessions[b.index(id)].screen;
            let kept = session_of(d, id);
            let o = d.handles(conn, ClientMsgView::Attach { id, cols, rows }, channel);
            let held = session_of(o.daemon, id).screen;
            &&& d.has(id)
            &&& shown.rows == held.rows && shown.cols == held.cols
            &&& held.rows == at_least_one(rows) && held.cols == at_least_one(cols)
            &&& shown == blank_screen(at_least_one(rows), at_least_one(cols))
            &&& kept.screen.rows == held.rows && kept.screen.cols == held.cols && kept.buffer.len()
                > 0 ==> {
                &&& o.effects[0] matches EffectView::Reply(m)
                &&& b.on_message(m).reaction == ReactionView::Feed {
                    index: b.index(id) as usize,
                    data: kept.buffer,
                }
            }
        },
{
    if let ActionView::SendMsg(ClientMsgView::Attach { id, cols, rows }) = a.on_event(
        event,
    ).action {
        law_attach_goes_out_on_blank_screen(a, event);
        lemma_step_ids(a, d);
        let b = a.on_event(event).app;
        lemma_place_exists(client_ids(b.sessions), id);
        lemma_attach_event(a, event);
        assert(client_ids(b.sessions) =~= client_ids(a.sessions));
        law_reattach_restores_or_wipes(d, conn, id, cols, rows, channel);
    }
}

/// What a client shows of a session that it attached to when nothing stood on its screen, once it
/// has heard all that the daemon then says: where the size is that which the session had, the
/// output kept, fed once to an emulator just made; else what an emulator just made shows. Nothing
/// is doubled, whatever output does to a screen. No other screen changes.
pub proof fn law_replay_is_drawn_once(
    a: AppView,
    d: DaemonView,
    conn: Connection,
    id: usize,
    channel: u64,
    feed: spec_fn(ScreenView, Seq<u8>) -> ScreenView,
)
    requires
        in_step(a, d),
        a.ok(),
        d.ok(),
        a.has(id),
        a.sessions[a.index(id)].screen == blank_screen(
            at_least_one(a.term_rows),
            at_least_one(a.term_cols),
        ),
    ensures
        ({
            let (cols, rows) = (a.term_cols, a.term_rows);
            let blank = blank_screen(at_least_one(rows), at_least_one(cols));
            let kept = session_of(d, id);
            let o = d.handles(conn, ClientMsgView::Attach { id, cols, rows }, channel);
            let b = hears(a, o.effects, feed);
            let i = a.index(id);
            &&& b.attached_id == Some(id)
            &&& b.sessions.len() == a.sessions.len()
            &&& b.sessions[i].screen == if kept.screen.rows == at_least_one(rows) && kept.screen.cols
                == at_least_one(cols) && kept.buffer.len() > 0 {
                feed(blank, kept.buffer)
            } else {
                blank
            }
            &&& forall|k: int|
                0 <= k < a.sessions.len() && k != i ==> (#[trigger] b.sessions[k]).screen
                    == a.sessions[k].screen
        }),
{
    let (cols, rows) = (a.term_cols, a.term_rows);
    lemma_step_ids(a, d);
    lemma_place_exists(client_ids(a.sessions), id);
    let s = session_of(d, id);
    let o = d.handles(conn, ClientMsgView::Attach { id, cols, rows }, channel);
    assert(o.effects == attach_effects(id, s, cols, rows));
    lemma_attach_heard(a, id, s, cols, rows, feed);
}

/// What the daemon has done when a client attaches to session `s`.
spec fn attach_effects(id: usize, s: SessionView, cols: u16, rows: u16) -> Seq<EffectView> {
    let changed = s.size_differs(cols, rows);
    resize_effect(changed, id, cols, rows) + replay(!changed, id, s.buffer) + directory(id, s.cwd)
        + seq![EffectView::Reply(DaemonMsgView::Attached { id, cleared: changed })]
}

proof fn lemma_attach_heard(
    a: AppView,
    id: usize,
    s: SessionView,
    cols: u16,
    rows: u16,
    feed: spec_fn(ScreenView, Seq<u8>) -> ScreenView,
)
    requires
        a.sessions.len() <= usize::MAX,
        a.has(id),
    ensures
        ({
            let b = hears(a, attach_effects(id, s, cols, rows), feed);
            let i = a.index(id);
            let was = a.sessions[i].screen;
            &&& b.attached_id == Some(id)
            &&& b.sessions.len() == a.sessions.len()
            &&& b.sessions[i].screen == if !s.size_differs(cols, rows) && s.buffer.len() > 0 {
                feed(was, s.buffer)
            } else {
                was
            }
            &&& forall|k: int|
                0 <= k < a.sessions.len() && k != i ==> (#[trigger] b.sessions[k]).screen
                    == a.sessions[k].screen
        }),
{
    lemma_place_exists(client_ids(a.sessions), id);
    let changed = s.size_differs(cols, rows);
    let sized = resize_effect(changed, id, cols, rows);
    let sent = replay(!changed, id, s.buffer);
    let told = directory(id, s.cwd);
    let last = EffectView::Reply(DaemonMsgView::Attached { id, cleared: changed });
    lemma_hears_both(a, sized + sent + told, seq![last], feed);
    lemma_hears_both(a, sized + sent, told, feed);
    lemma_hears_both(a, sized, sent, feed);
    lemma_size_heard(a, changed, id, cols, rows, feed);
    lemma_replay_heard(a, !changed, id, s.buffer, feed);
    let drawn = hears(a, sent, feed);
    lemma_directory_heard(drawn, id, s.cwd, feed);
    lemma_hears_one(hears(drawn, told, feed), last, feed);
}

proof fn lemma_size_heard(
    a: AppView,
    changed: bool,
    id: usize,
    cols: u16,
    rows: u16,
    feed: spec_fn(ScreenView, Seq<u8>) -> ScreenView,
)
    ensures
        hears(a, resize_effect(changed, id, cols, rows), feed) == a,
{
    let part = resize_effect(changed, id, cols, rows);
    if changed {
        lemma_hears_one(a, part[0], feed);
        assert(part =~= seq![part[0]]);
    }
}

proof fn lemma_replay_heard(
    a: AppView,
    same_size: bool,
    id: usize,
    buffer: Seq<u8>,
    feed: spec_fn(ScreenView, Seq<u8>) -> ScreenView,
)
    requires
        a.sessions.len() <= usize::MAX,
        a.has(id),
    ensures
        ({
            let i = a.index(id);
            let s = a.sessions[i];
            hears(a, replay(same_size, id, buffer), feed) == if same_size && buffer.len() > 0 {
                a.with(i, ClientSessionView { screen: feed(s.screen, buffer), ..s })
            } else {
                a
            }
        }),
{
    let part = replay(same_size, id, buffer);
    lemma_place_exists(client_ids(a.sessions), id);
    if part.len() > 0 {
        lemma_hears_one(a, part[0], feed);
        assert(part =~= seq![part[0]]);
    }
}

proof fn lemma_directory_heard(
    a: AppView,
    id: usize,
    cwd: Option<Seq<char>>,
    feed: spec_fn(ScreenView, Seq<u8>) -> ScreenView,
)
    ensures
        ({
            let b = hears(a, directory(id, cwd), feed);
            &&& b.sessions.len() == a.sessions.len()
            &&& forall|k: int|
                0 <= k < a.sessions.len() ==> (#[trigger] b.sessions[k]).screen
                    == a.sessions[k].screen
        }),
{
    let part = directory(id, cwd);
    if part.len() > 0 {
        lemma_hears_one(a, part[0], feed);
        assert(part =~= seq![part[0]]);
        if a.has(id) {
            lemma_place_exists(client_ids(a.sessions), id);
        }
    }
}

/// Whatever happens at the client's terminal: where a request to attach goes out, the session's
/// screen then shows what [`law_replay_is_drawn_once`] says.
#[verifier::rlimit(40)]
pub proof fn law_switching_never_doubles_output(
    a: AppView,
    d: DaemonView,
    conn: Connection,
    event: Event,
    channel: u64,
    feed: spec_fn(ScreenView, Seq<u8>) -> ScreenView,
)
    requires
        in_step(a, d),
        a.ok(),
        d.ok(),
    ensures
        a.on_event(event).action matches ActionView::SendMsg(
            ClientMsgView::Attach { id, cols, rows },
        ) ==> {
            let b = a.on_event(event).app;
            let blank = blank_screen(at_least_one(rows), at_least_one(cols));
            let kept = session_of(d, id);
            let o = d.handles(conn, ClientMsgView::Attach { id, cols, rows }, channel);
            let c = hears(b, o.effects, feed);
            &&& b.current() == Some(id)
            &&& c.sessions[b.index(id)].screen == if kept.screen.rows == at_least_one(rows)
                && kept.screen.cols == at_least_one(cols) && kept.buffer.len() > 0 {
                feed(blank, kept.buffer)
            } else {
                blank
            }
        },
{
    if let ActionView::SendMsg(ClientMsgView::Attach { id, cols, rows }) = a.on_event(
        event,
    ).action {
        law_attach_goes_out_on_blank_screen(a, event);
        lemma_attach_event(a, event);
        let b = a.on_event(event).app;
        assert(in_step(b, d)) by {
            assert forall|k: int| 0 <= k < b.sessions.len() implies (#[trigger] b.sessions[k]).id
                == d.sessions[k].id && b.sessions[k].name == d.sessions[k].name by {
                assert(a.sessions[k].id == d.sessions[k].id);
            }
        }
        law_replay_is_drawn_once(b, d, conn, id, channel, feed);
    }
}

/// A request to attach changes no number and no name in the list, and leaves the client in order.
#[verifier::rlimit(40)]
proof fn lemma_attach_event(a: AppView, event: Event)
    requires
        a.ok(),
        a.on_event(event).action matches ActionView::SendMsg(m) && m is Attach,
    ensures
        ({
            let b = a.on_event(event).app;
            &&& b.ok()
            &&& b.sessions.len() == a.sessions.len()
            &&& forall|k: int|
                0 <= k < b.sessions.len() ==> (#[trigger] b.sessions[k]).id == a.sessions[k].id
                    && b.sessions[k].name == a.sessions[k].name
        }),
{
    if let ActionView::SendMsg(ClientMsgView::Attach { id, cols, rows }) = a.on_event(
        event,
    ).action {
        if a.has(id) {
            lemma_place_exists(client_ids(a.sessions), id);
        }
    }
}

} // verus!

//! What client and daemon say to each other, and how a message is framed on the wire.
use crate::text::{opt_text, texts};
use vstd::prelude::*;

verus! {

/// A session as the daemon lists it.
#[derive(Debug, PartialEq, Eq)]
pub struct SessionInfo {
    pub id: usize,
    pub name: String,
    pub cwd: Option<String>,
}

/// What a client asks of the daemon.
#[derive(Debug, PartialEq, Eq)]
pub enum ClientMsg {
    ListSessions,
    NewSession { name: String, cols: u16, rows: u16, startup_cmds: Vec<String> },
    DeleteSession { id: usize },
    RenameSession { id: usize, name: String },
    ReorderSession { id: usize, new_index: usize },
    Attach { id: usize, cols: u16, rows: u16 },
    Detach,
    Input { data: Vec<u8> },
    Resize { cols: u16, rows: u16 },
    Shutdown,
}

/// What the daemon tells a client.
#[derive(Debug, PartialEq, Eq)]
pub enum DaemonMsg {
    SessionList { sessions: Vec<SessionInfo> },
    SessionCreated { id: usize, name: String },
    SessionDeleted { id: usize },
    SessionRenamed { id: usize, name: String },
    SessionReordered { id: usize, new_index: usize },
    /// Raw terminal output, for the client's own emulator.
    PtyOutput { id: usize, data: Vec<u8> },
    /// A session's working directory changed.
    CwdUpdate { id: usize, cwd: String },
    /// `cleared`: the daemon wiped the session's screen and buffer.
    Attached { id: usize, cleared: bool },
    Detached,
    /// The daemon did what was asked, and has nothing to add.
    Done,
    Error { msg: String },
}

/// The value of a [`SessionInfo`].
#[verifier::ext_equal]
pub struct SessionInfoView {
    pub id: usize,
    pub name: Seq<char>,
    pub cwd: Option<Seq<char>>,
}

/// The value of a [`ClientMsg`].
#[verifier::ext_equal]
pub enum ClientMsgView {
    ListSessions,
    NewSession { name: Seq<char>, cols: u16, rows: u16, startup_cmds: Seq<Seq<char>> },
    DeleteSession { id: usize },
    RenameSession { id: usize, name: Seq<char> },
    ReorderSession { id: usize, new_index: usize },
    Attach { id: usize, cols: u16, rows: u16 },
    Detach,
    Input { data: Seq<u8> },
    Resize { cols: u16, rows: u16 },
    Shutdown,
}

/// The value of a [`DaemonMsg`].
#[verifier::ext_equal]
pub enum DaemonMsgView {
    SessionList { sessions: Seq<SessionInfoView> },
    SessionCreated { id: usize, name: Seq<char> },
    SessionDeleted { id: usize },
    SessionRenamed { id: usize, name: Seq<char> },
    SessionReordered { id: usize, new_index: usize },
    PtyOutput { id: usize, data: Seq<u8> },
    CwdUpdate { id: usize, cwd: Seq<char> },
    Attached { id: usize, cleared: bool },
    Detached,
    Done,
    Error { msg: Seq<char> },
}

impl View for SessionInfo {
    type V = SessionInfoView;

    open spec fn view(&self) -> SessionInfoView {
        SessionInfoView { id: self.id, name: self.name@, cwd: opt_text(self.cwd) }
    }
}

impl View for ClientMsg {
    type V = ClientMsgView;

    open spec fn view(&self) -> ClientMsgView {
        match *self {
            ClientMsg::ListSessions => ClientMsgView::ListSessions,
            ClientMsg::NewSession { name, cols, rows, startup_cmds } => ClientMsgView::NewSession {
                name: name@,
                cols,
                rows,
                startup_cmds: texts(startup_cmds@),
            },
            ClientMsg::DeleteSession { id } => ClientMsgView::DeleteSession { id },
            ClientMsg::RenameSession { id, name } => ClientMsgView::RenameSession { id, name: name@ },
            ClientMsg::ReorderSession { id, new_index } => ClientMsgView::ReorderSession {
                id,
                new_index,
            },
            ClientMsg::Attach { id, cols, rows } => ClientMsgView::Attach { id, cols, rows },
            ClientMsg::Detach => ClientMsgView::Detach,
            ClientMsg::Input { data } => ClientMsgView::Input { data: data@ },
            ClientMsg::Resize { cols, rows } => ClientMsgView::Resize { cols, rows },
            ClientMsg::Shutdown => ClientMsgView::Shutdown,
        }
    }
}

impl View for DaemonMsg {
    type V = DaemonMsgView;

    open spec fn view(&self) -> DaemonMsgView {
        match *self {
            DaemonMsg::SessionList { sessions } => DaemonMsgView::SessionList {
                sessions: infos(sessions@),
            },
            DaemonMsg::SessionCreated { id, name } => DaemonMsgView::SessionCreated {
                id,
                name: name@,
            },
            DaemonMsg::SessionDeleted { id } => DaemonMsgView::SessionDeleted { id },
            DaemonMsg::SessionRenamed { id, name } => DaemonMsgView::SessionRenamed {
                id,
                name: name@,
            },
            DaemonMsg::SessionReordered { id, new_index } => DaemonMsgView::SessionReordered {
                id,
                new_index,
            },
            DaemonMsg::PtyOutput { id, data } => DaemonMsgView::PtyOutput { id, data: data@ },
            DaemonMsg::CwdUpdate { id, cwd } => DaemonMsgView::CwdUpdate { id, cwd: cwd@ },
            DaemonMsg::Attached { id, cleared } => DaemonMsgView::Attached { id, cleared },
            DaemonMsg::Detached => DaemonMsgView::Detached,
            DaemonMsg::Done => DaemonMsgView::Done,
            DaemonMsg::Error { msg } => DaemonMsgView::Error { msg: msg@ },
        }
    }
}

/// The values of a list of sessions.
pub open spec fn infos(v: Seq<SessionInfo>) -> Seq<SessionInfoView> {
    v.map_values(|s: SessionInfo| s@)
}

/// Four bytes can hold the length `n`.
pub open spec fn fits_header(n: int) -> bool {
    0 <= n < 0x1_0000_0000
}

/// Four bytes that hold `n`, reduced to 32 bits, most significant byte first.
pub open spec fn be32(n: int) -> Seq<u8> {
    seq![
        (n / 0x100_0000 % 0x100) as u8,
        (n / 0x1_0000 % 0x100) as u8,
        (n / 0x100 % 0x100) as u8,
        (n % 0x100) as u8,
    ]
}

/// The number that four bytes hold, most significant byte first.
pub open spec fn be32_value(h: Seq<u8>) -> int {
    h[0] * 0x100_0000 + h[1] * 0x1_0000 + h[2] * 0x100 + h[3]
}

/// A message on the wire: the length of its text in four bytes, then the text.
pub open spec fn frame(payload: Seq<u8>) -> Seq<u8> {
    be32(payload.len() as int) + payload
}

/// Frames the text of a message.
pub fn encode_frame(payload: &[u8]) -> (r: Vec<u8>)
    ensures
        r@ == frame(payload@),
{
    let n: usize = payload.len();
    let mut r: Vec<u8> = Vec::new();
    r.push((n / 0x100_0000 % 0x100) as u8);
    r.push((n / 0x1_0000 % 0x100) as u8);
    r.push((n / 0x100 % 0x100) as u8);
    r.push((n % 0x100) as u8);
    assert(r@ =~= be32(n as int));
    r.extend_from_slice(payload);
    assert(r@ =~= frame(payload@));
    r
}

/// Reads how long the text is that follows a header.
pub fn frame_len(header: &[u8; 4]) -> (n: u32)
    ensures
        n == be32_value(header@),
{
    header[0] as u32 * 0x100_0000 + header[1] as u32 * 0x1_0000 + header[2] as u32 * 0x100
        + header[3] as u32
}

/// What a reader takes off the front of a stream: a header, then as many bytes as it says.
pub open spec fn first_frame(stream: Seq<u8>) -> Option<(Seq<u8>, Seq<u8>)> {
    if stream.len() >= 4 && stream.len() >= 4 + be32_value(stream) {
        let n = be32_value(stream);
        Some((stream.subrange(4, 4 + n), stream.skip(4 + n)))
    } else {
        None
    }
}

/// The header of a text that is short enough gives its length back.
pub proof fn law_header_gives_length_back(n: int)
    requires
        fits_header(n),
    ensures
        be32_value(be32(n)) == n,
{
}

/// A reader gets back what was framed, and leaves what follows it. A text of 2^32 bytes or more
/// has no header of its own.
pub proof fn law_frame_read_back(payload: Seq<u8>, rest: Seq<u8>)
    requires
        fits_header(payload.len() as int),
    ensures
        first_frame(frame(payload) + rest) == Some((payload, rest)),
{
    let s = frame(payload) + rest;
    law_header_gives_length_back(payload.len() as int);
    let h = be32(payload.len() as int);
    assert(s[0] == h[0] && s[1] == h[1] && s[2] == h[2] && s[3] == h[3]);
    assert(be32_value(s) == payload.len());
    assert(s.subrange(4, 4 + payload.len() as int) =~= payload);
    assert(s.skip(4 + payload.len() as int) =~= rest);
}

/// The messages of a stream, one after the other.
pub open spec fn frames(payloads: Seq<Seq<u8>>) -> Seq<u8>
    decreases payloads.len(),
{
    if payloads.len() == 0 {
        Seq::empty()
    } else {
        frame(payloads[0]) + frames(payloads.drop_first())
    }
}

/// What a reader takes off a stream, frame by frame, `n` times.
pub open spec fn read_frames(stream: Seq<u8>, n: nat) -> Option<Seq<Seq<u8>>>
    decreases n,
{
    if n == 0 {
        Some(Seq::empty())
    } else {
        match first_frame(stream) {
            Some((payload, rest)) => match read_frames(rest, (n - 1) as nat) {
                Some(more) => Some(seq![payload] + more),
                None => None,
            },
            None => None,
        }
    }
}

/// The messages written to a stream are read back from it, each whole and in order.
pub proof fn law_stream_read_back(payloads: Seq<Seq<u8>>)
    requires
        forall|i: int| 0 <= i < payloads.len() ==> fits_header((#[trigger] payloads[i]).len() as int),
    ensures
        read_frames(frames(payloads), payloads.len()) == Some(payloads),
    decreases payloads.len(),
{
    if payloads.len() == 0 {
        assert(payloads =~= Seq::empty());
    } else {
        let rest = payloads.drop_first();
        law_frame_read_back(payloads[0], frames(rest));
        assert forall|i: int| 0 <= i < rest.len() implies fits_header((#[trigger] rest[i]).len() as int) by {
            assert(rest[i] == payloads[i + 1]);
        }
        law_stream_read_back(rest);
        assert(seq![payloads[0]] + rest =~= payloads);
    }
}

/// How many bytes are missing after `got`, as far as they tell: those of the header, and then
/// those that it announces.
pub open spec fn missing(got: Seq<u8>) -> int {
    if got.len() < 4 {
        4 - got.len()
    } else {
        4 + be32_value(got) - got.len()
    }
}

/// What has been read of a message.
#[derive(Debug, PartialEq, Eq)]
pub struct Receiver {
    pub got: Vec<u8>,
}

impl Receiver {
    /// Nothing has been read yet.
    pub fn new() -> (r: Receiver)
        ensures
            r.got@ == Seq::<u8>::empty(),
            missing(r.got@) == 4,
    {
        Receiver { got: Vec::new() }
    }

    /// How many bytes are to be read next. The message is whole when there are none.
    pub fn wanted(&self) -> (n: usize)
        requires
            missing(self.got@) >= 0,
        ensures
            n == missing(self.got@),
    {
        let have: usize = self.got.len();
        if have < 4 {
            4 - have
        } else {
            let header = [self.got[0], self.got[1], self.got[2], self.got[3]];
            let n: u32 = frame_len(&header);
            assert(be32_value(header@) == be32_value(self.got@));
            n as usize - (have - 4)
        }
    }

    /// Takes bytes that have been read, no more than are wanted.
    pub fn accept(&mut self, bytes: &[u8])
        requires
            bytes@.len() <= missing(old(self).got@),
        ensures
            final(self).got@ == old(self).got@ + bytes@,
            missing(final(self).got@) >= 0,
    {
        self.got.extend_from_slice(bytes);
        assert(self.got@ =~= old(self).got@ + bytes@);
    }

    /// The text of a message that is whole.
    pub fn payload(self) -> (r: Vec<u8>)
        requires
            missing(self.got@) == 0,
        ensures
            first_frame(self.got@) == Some((r@, Seq::<u8>::empty())),
    {
        let mut got = self.got;
        let r = got.split_off(4);
        proof {
            let n = be32_value(self.got@);
            assert(self.got@.subrange(4, 4 + n) =~= r@);
            assert(self.got@.skip(4 + n) =~= Seq::<u8>::empty());
        }
        r
    }
}

/// A reader that asks for what is missing takes the first frame off a stream and no byte more:
/// what it has read never reaches beyond the frame, and it is done exactly at the frame's end.
pub proof fn law_receiver_takes_one_frame(payload: Seq<u8>, rest: Seq<u8>, read: int)
    requires
        fits_header(payload.len() as int),
        0 <= read <= frame(payload).len(),
    ensures
        ({
            let got = (frame(payload) + rest).take(read);
            &&& missing(got) >= 0
            &&& read + missing(got) <= frame(payload).len()
            &&& missing(got) == 0 <==> read == frame(payload).len()
        }),
{
    let s = frame(payload) + rest;
    let h = be32(payload.len() as int);
    law_header_gives_length_back(payload.len() as int);
    if read >= 4 {
        let got = s.take(read);
        assert(got[0] == h[0] && got[1] == h[1] && got[2] == h[2] && got[3] == h[3]);
        assert(be32_value(got) == payload.len());
    }
}

/// What receiving a message from a stream comes to, where `parse` reads its text: the message, or
/// nothing where the text is no message, and the rest of the stream. It takes a whole frame.
pub open spec fn recv<T>(
    stream: Seq<u8>,
    parse: spec_fn(Seq<u8>) -> Option<T>,
) -> Option<(Option<T>, Seq<u8>)> {
    match first_frame(stream) {
        Some((payload, rest)) => Some((parse(payload), rest)),
        None => None,
    }
}

/// A text that is no message does not shift the stream: it is taken off whole, and the message
/// behind it is received as if it had not been there. This holds whatever counts as a message.
pub proof fn law_bad_payload_does_not_shift_stream<T>(
    parse: spec_fn(Seq<u8>) -> Option<T>,
    bad: Seq<u8>,
    good: Seq<u8>,
    rest: Seq<u8>,
)
    requires
        fits_header(bad.len() as int),
        fits_header(good.len() as int),
        parse(bad) is None,
    ensures
        recv(frame(bad) + (frame(good) + rest), parse) == Some(
            (None::<T>, frame(good) + rest),
        ),
        recv(frame(good) + rest, parse) == Some((parse(good), rest)),
{
    law_frame_read_back(bad, frame(good) + rest);
    law_frame_read_back(good, rest);
}

/// A framed text has four bytes before it and nothing behind it. The four bytes hold its length,
/// the most significant byte first.
pub proof fn law_frame_is_length_then_text(payload: Seq<u8>)
    requires
        payload.len() < 0x1_0000_0000,
    ensures
        ({
            let f = frame(payload);
            &&& f.len() == payload.len() + 4
            &&& f.skip(4) == payload
            &&& f[0] * 0x1_000_000 + f[1] * 0x10_000 + f[2] * 0x100 + f[3] == payload.len()
        }),
{
    assert(frame(payload).skip(4) =~= payload);
}

/// A reader takes off a stream the number of bytes that its first four bytes hold, the most
/// significant one first, and nothing where they are not all there.
pub proof fn law_reader_goes_by_first_four_bytes(stream: Seq<u8>)
    ensures
        stream.len() < 4 ==> first_frame(stream) is None,
        stream.len() >= 4 ==> ({
            let n = stream[0] * 0x1_000_000 + stream[1] * 0x10_000 + stream[2] * 0x100 + stream[3];
            match first_frame(stream) {
                Some((text, rest)) => text.len() == n && stream.take(4) + text + rest == stream,
                None => stream.len() < n + 4,
            }
        }),
{
    if let Some((text, rest)) = first_frame(stream) {
        assert(stream.take(4) + text + rest =~= stream);
    }
}

/// The value of a message has the message's own fields, each in its place, and a list of sessions
/// has them in its order.
pub proof fn law_message_value_has_its_fields(m: ClientMsg, d: DaemonMsg)
    ensures
        match m {
            ClientMsg::NewSession { name, cols, rows, startup_cmds } => {
                &&& m@ is NewSession && m@->NewSession_name == name@
                &&& m@->NewSession_cols == cols && m@->NewSession_rows == rows
                &&& m@->startup_cmds.len() == startup_cmds@.len()
                &&& forall|k: int|
                    0 <= k < startup_cmds@.len() ==> (#[trigger] m@->startup_cmds[k])
                        == startup_cmds@[k]@
            },
            ClientMsg::ReorderSession { id, new_index } => m@ == (ClientMsgView::ReorderSession {
                id,
                new_index,
            }),
            ClientMsg::Attach { id, cols, rows } => m@ == (ClientMsgView::Attach {
                id,
                cols,
                rows,
            }),
            ClientMsg::Resize { cols, rows } => m@ == (ClientMsgView::Resize { cols, rows }),
            ClientMsg::Input { data } => m@ == (ClientMsgView::Input { data: data@ }),
            _ => true,
        },
        match d {
            DaemonMsg::SessionList { sessions } => {
                &&& d@ is SessionList && d@->sessions.len() == sessions@.len()
                &&& forall|k: int|
                    0 <= k < sessions@.len() ==> {
                        &&& (#[trigger] d@->sessions[k]).id == sessions@[k].id
                        &&& d@->sessions[k].name == sessions@[k].name@
                    }
            },
            DaemonMsg::SessionReordered { id, new_index } => d@ == (
            DaemonMsgView::SessionReordered { id, new_index }),
            DaemonMsg::PtyOutput { id, data } => d@ == (DaemonMsgView::PtyOutput {
                id,
                data: data@,
            }),
            DaemonMsg::Attached { id, cleared } => d@ == (DaemonMsgView::Attached { id, cleared }),
            _ => true,
        },
{
}

} // verus!

//! Where the daemon's files stand, and how the program is started.
//!
//! A path is a byte string, as the file system has it.
use crate::text::{bytes_of, decimal, to_decimal, utf8_text};
use vstd::prelude::*;
use vstd::utf8::*;

verus! {

/// `dir` extended by the relative path `name`: with a `/` between them, unless `dir` is empty or
/// ends in one.
pub open spec fn joined(dir: Seq<u8>, name: Seq<u8>) -> Seq<u8> {
    if dir.len() == 0 || dir.last() == 0x2f {
        dir + name
    } else {
        dir.push(0x2f) + name
    }
}

/// Extends a path by a relative path.
pub fn join(dir: Vec<u8>, name: &[u8]) -> (r: Vec<u8>)
    ensures
        r@ == joined(dir@, name@),
{
    let mut r = dir;
    let n: usize = r.len();
    if n > 0 && r[n - 1] != 0x2f {
        r.push(0x2f);
    }
    r.extend_from_slice(name);
    assert(r@ =~= joined(dir@, name@));
    r
}

/// The home directory, or `/tmp` where there is none.
pub open spec fn home_or_tmp(home: Option<Seq<u8>>) -> Seq<u8> {
    match home {
        Some(h) => h,
        None => encode_utf8("/tmp"@),
    }
}

/// The bytes of an optional path.
pub open spec fn opt_path(p: Option<Vec<u8>>) -> Option<Seq<u8>> {
    match p {
        Some(v) => Some(v@),
        None => None,
    }
}

/// The home directory, or `/tmp` where there is none.
pub fn home_dir(home: Option<Vec<u8>>) -> (r: Vec<u8>)
    ensures
        r@ == home_or_tmp(opt_path(home)),
{
    match home {
        Some(h) => h,
        None => bytes_of("/tmp"),
    }
}

/// `dirs::home_dir` returns the user's home directory, where the system knows one. That depends
/// on the machine, so nothing is said of it.
#[verifier::external_body]
pub(crate) fn system_home() -> (r: Option<Vec<u8>>) {
    dirs::home_dir().map(|p| p.into_os_string().into_encoded_bytes())
}

/// The directory of the daemon's files: `.local/share/mbulet` under the home directory.
pub open spec fn state_dir_of(home: Option<Seq<u8>>) -> Seq<u8> {
    joined(home_or_tmp(home), encode_utf8(".local/share/mbulet"@))
}

/// A file of the daemon's.
pub open spec fn state_file_of(home: Option<Seq<u8>>, name: Seq<char>) -> Seq<u8> {
    joined(state_dir_of(home), encode_utf8(name))
}

/// The directory of the daemon's files, given the home directory.
pub fn state_dir_in(home: Option<Vec<u8>>) -> (r: Vec<u8>)
    ensures
        r@ == state_dir_of(opt_path(home)),
{
    join(home_dir(home), ".local/share/mbulet".as_bytes())
}

/// A file of the daemon's, given the home directory.
pub fn state_file_in(home: Option<Vec<u8>>, name: &str) -> (r: Vec<u8>)
    ensures
        r@ == state_file_of(opt_path(home), name@),
{
    join(state_dir_in(home), name.as_bytes())
}

/// The directory of the daemon's files, under the home directory that the system knows.
pub fn state_dir() -> (r: Vec<u8>)
    ensures
        exists|home: Option<Seq<u8>>| r@ == #[trigger] state_dir_of(home),
{
    let home = system_home();
    let ghost h = opt_path(home);
    let r = state_dir_in(home);
    assert(r@ == state_dir_of(h));
    r
}

/// The daemon's socket.
pub fn socket_path() -> (r: Vec<u8>)
    ensures
        exists|home: Option<Seq<u8>>| r@ == #[trigger] state_file_of(home, "daemon.sock"@),
{
    let home = system_home();
    let ghost h = opt_path(home);
    let r = state_file_in(home, "daemon.sock");
    assert(r@ == state_file_of(h, "daemon.sock"@));
    r
}

/// The file that holds the daemon's process number.
pub fn pid_path() -> (r: Vec<u8>)
    ensures
        exists|home: Option<Seq<u8>>| r@ == #[trigger] state_file_of(home, "daemon.pid"@),
{
    let home = system_home();
    let ghost h = opt_path(home);
    let r = state_file_in(home, "daemon.pid");
    assert(r@ == state_file_of(h, "daemon.pid"@));
    r
}

/// What is written to the file of the daemon's process number.
pub fn pid_text(pid: u32) -> (r: String)
    ensures
        r@ == decimal(pid as nat).push('\n'),
{
    let mut r = to_decimal(pid as u128);
    r.push('\n');
    r
}

/// The socket's path as text, or `/tmp/mbulet.sock` where it is no text.
pub fn socket_text(path: &[u8]) -> (r: String)
    ensures
        r@ == if valid_utf8(path@) {
            decode_utf8(path@)
        } else {
            "/tmp/mbulet.sock"@
        },
{
    match utf8_text(path) {
        Some(s) => s,
        None => "/tmp/mbulet.sock".to_string(),
    }
}

/// The directory that a path stands in, as `std::path::Path::parent` finds it.
pub uninterp spec fn parent_of(path: Seq<char>) -> Option<Seq<u8>>;

/// The path of `name` in the directory `dir`, which stands under `above`.
pub open spec fn in_dir(above: Seq<u8>, dir: Seq<u8>, name: Seq<u8>) -> Seq<u8> {
    above + seq![0x2fu8] + dir + seq![0x2fu8] + name
}

/// A name, and not `.` or `..`.
pub open spec fn is_name(s: Seq<u8>) -> bool {
    &&& s.len() > 0
    &&& !s.contains(0x2f)
    &&& s != seq![0x2eu8]
    &&& s != seq![0x2eu8, 0x2e]
}

/// `std::path::Path::parent` returns the path without its last component, where it has one; so of
/// a name in a directory, that directory.
#[verifier::external_body]
pub(crate) fn parent_dir(path: &str) -> (r: Option<Vec<u8>>)
    ensures
        opt_path(r) == parent_of(path@),
        forall|above: Seq<u8>, dir: Seq<u8>, name: Seq<u8>|
            encode_utf8(path@) == #[trigger] in_dir(above, dir, name) && is_name(dir) && is_name(name)
                ==> opt_path(r) == Some(above + seq![0x2fu8] + dir),
{
    std::path::Path::new(path).parent().map(|p| p.as_os_str().as_encoded_bytes().to_vec())
}

/// The file of the process number in the directory `parent`.
pub fn pid_file_in(parent: Option<Vec<u8>>) -> (r: Option<Vec<u8>>)
    ensures
        opt_path(r) == match opt_path(parent) {
            Some(p) => Some(joined(p, encode_utf8("daemon.pid"@))),
            None => None::<Seq<u8>>,
        },
{
    match parent {
        Some(p) => Some(join(p, "daemon.pid".as_bytes())),
        None => None,
    }
}

/// The bytes of a text of ASCII characters.
proof fn lemma_ascii_bytes(s: Seq<char>)
    requires
        is_ascii_chars(s),
    ensures
        encode_utf8(s).len() == s.len(),
        forall|i: int| 0 <= i < s.len() ==> (#[trigger] encode_utf8(s)[i]) == s[i] as u8,
{
    is_ascii_chars_encode_utf8(s);
}

/// The daemon's files stand side by side, in a directory that has a name.
proof fn lemma_state_files(home: Option<Seq<u8>>, above: Seq<u8>, dir: Seq<u8>)
    requires
        above == joined(home_or_tmp(home), encode_utf8(".local/share"@)),
        dir == encode_utf8("mbulet"@),
    ensures
        is_name(dir),
        is_name(encode_utf8("daemon.sock"@)),
        state_file_of(home, "daemon.sock"@) == in_dir(above, dir, encode_utf8("daemon.sock"@)),
        state_file_of(home, "daemon.pid"@) == joined(
            above + seq![0x2fu8] + dir,
            encode_utf8("daemon.pid"@),
        ),
{
    reveal_strlit(".local/share/mbulet");
    reveal_strlit(".local/share");
    reveal_strlit("mbulet");
    reveal_strlit("daemon.sock");
    lemma_ascii_bytes(".local/share/mbulet"@);
    lemma_ascii_bytes(".local/share"@);
    lemma_ascii_bytes("mbulet"@);
    lemma_ascii_bytes("daemon.sock"@);
    let whole = encode_utf8(".local/share/mbulet"@);
    assert(whole =~= encode_utf8(".local/share"@) + seq![0x2fu8] + dir);
    assert(state_dir_of(home) =~= above + seq![0x2fu8] + dir);
    assert(state_dir_of(home).last() == dir.last());
    assert(state_file_of(home, "daemon.sock"@) =~= in_dir(
        above,
        dir,
        encode_utf8("daemon.sock"@),
    ));
}

/// The file of the process number of the daemon that listens at `socket`: it stands beside it. For
/// a socket under a home directory it is the daemon's own file there.
pub fn pid_file_beside(socket: &str) -> (r: Option<Vec<u8>>)
    ensures
        opt_path(r) == match parent_of(socket@) {
            Some(p) => Some(joined(p, encode_utf8("daemon.pid"@))),
            None => None::<Seq<u8>>,
        },
        forall|home: Option<Seq<u8>>|
            encode_utf8(socket@) == #[trigger] state_file_of(home, "daemon.sock"@) ==> opt_path(r)
                == Some(state_file_of(home, "daemon.pid"@)),
{
    let parent = parent_dir(socket);
    proof {
        assert forall|home: Option<Seq<u8>>|
            encode_utf8(socket@) == #[trigger] state_file_of(home, "daemon.sock"@) implies opt_path(
            parent,
        ) is Some && joined(opt_path(parent)->0, encode_utf8("daemon.pid"@)) == state_file_of(
            home,
            "daemon.pid"@,
        ) by {
            let above = joined(home_or_tmp(home), encode_utf8(".local/share"@));
            lemma_state_files(home, above, encode_utf8("mbulet"@));
        }
    }
    pid_file_in(parent)
}

/// What the program is started as.
#[derive(Debug, PartialEq, Eq)]
pub enum Launch {
    /// The daemon, listening at `socket`.
    Daemon { socket: String },
    /// The client.
    Client,
}

/// The value of a [`Launch`].
#[verifier::ext_equal]
pub enum LaunchView {
    Daemon { socket: Seq<char> },
    Client,
}

impl View for Launch {
    type V = LaunchView;

    open spec fn view(&self) -> LaunchView {
        match *self {
            Launch::Daemon { socket } => LaunchView::Daemon { socket: socket@ },
            Launch::Client => LaunchView::Client,
        }
    }
}

/// Reads the command line: `--daemon`, with a socket that may be left out, starts the daemon.
pub fn launch(args: &Vec<String>) -> (r: Launch)
    ensures
        r@ == if args@.len() > 1 && args@[1]@ == "--daemon"@ {
            LaunchView::Daemon {
                socket: if args@.len() > 2 {
                    args@[2]@
                } else {
                    "/tmp/mbulet.sock"@
                },
            }
        } else {
            LaunchView::Client
        },
{
    let flag = "--daemon".to_string();
    if args.len() > 1 && args[1] == flag {
        if args.len() > 2 {
            Launch::Daemon { socket: args[2].clone() }
        } else {
            Launch::Daemon { socket: "/tmp/mbulet.sock".to_string() }
        }
    } else {
        Launch::Client
    }
}

/// How often a client looks whether the daemon that it started is there.
pub const START_TRIES: u32 = 20;

/// How many milliseconds it waits before each look.
pub const START_WAIT_MS: u64 = 100;

/// What a client does about a daemon that it started.
#[derive(Debug, Clone, Copy, PartialEq, Eq)]
pub enum Startup {
    /// It is there.
    Ready,
    /// Wait, then look again.
    Wait,
    /// It did not come.
    Failed,
}

/// Decides after `tries` looks, the last of which found the daemon `running` or not.
pub fn startup_step(tries: u32, running: bool) -> (r: Startup)
    ensures
        r == if running {
            Startup::Ready
        } else if tries < START_TRIES {
            Startup::Wait
        } else {
            Startup::Failed
        },
        r is Wait <==> !running && tries < 20,
{
    if running {
        Startup::Ready
    } else if tries < START_TRIES {
        Startup::Wait
    } else {
        Startup::Failed
    }
}

/// A name is put behind a directory with one `/` between them.
pub proof fn law_joined_by_one_slash(dir: Seq<u8>, name: Seq<u8>)
    ensures
        ({
            let slash = '/' as u8;
            &&& dir.len() > 0 && dir.last() != slash ==> joined(dir, name) == dir + seq![slash]
                + name
            &&& dir.len() > 0 && dir.last() == slash ==> joined(dir, name) == dir + name
            &&& dir.len() == 0 ==> joined(dir, name) == name
        }),
{
    if dir.len() == 0 {
        assert(joined(dir, name) =~= name);
    } else if dir.last() != '/' as u8 {
        assert(joined(dir, name) =~= dir + seq!['/' as u8] + name);
    }
}

/// The daemon's files stand under `.local/share/mbulet` in the home directory, or in `/tmp` where
/// there is none.
pub proof fn law_daemon_files_stand_under_home(home: Seq<u8>, name: Seq<char>)
    requires
        home.len() > 0,
        home.last() != '/' as u8,
    ensures
        state_file_of(Some(home), name) == home + encode_utf8("/.local/share/mbulet/"@)
            + encode_utf8(name),
        state_file_of(None, name) == encode_utf8("/tmp/.local/share/mbulet/"@) + encode_utf8(name),
        state_dir_of(Some(home)) == home + encode_utf8("/.local/share/mbulet"@),
{
    reveal_strlit("/.local/share/mbulet/");
    reveal_strlit("/.local/share/mbulet");
    reveal_strlit("/tmp/.local/share/mbulet/");
    reveal_strlit(".local/share/mbulet");
    reveal_strlit("/tmp");
    lemma_ascii_bytes("/.local/share/mbulet/"@);
    lemma_ascii_bytes("/.local/share/mbulet"@);
    lemma_ascii_bytes("/tmp/.local/share/mbulet/"@);
    lemma_ascii_bytes(".local/share/mbulet"@);
    lemma_ascii_bytes("/tmp"@);
    let middle = encode_utf8(".local/share/mbulet"@);
    assert(seq![0x2fu8] + middle + seq![0x2fu8] =~= encode_utf8("/.local/share/mbulet/"@));
    assert(seq![0x2fu8] + middle =~= encode_utf8("/.local/share/mbulet"@));
    assert(encode_utf8("/tmp"@) + seq![0x2fu8] + middle + seq![0x2fu8] =~= encode_utf8(
        "/tmp/.local/share/mbulet/"@,
    ));
    assert(state_dir_of(Some(home)) =~= home + encode_utf8("/.local/share/mbulet"@));
    assert(state_dir_of(Some(home)).last() == 't' as u8);
    assert(state_file_of(Some(home), name) =~= home + encode_utf8("/.local/share/mbulet/"@)
        + encode_utf8(name));
    assert(state_dir_of(None).last() == 't' as u8);
    assert(state_file_of(None, name) =~= encode_utf8("/tmp/.local/share/mbulet/"@) + encode_utf8(
        name,
    ));
}

} // verus!

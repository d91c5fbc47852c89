use mbulet::paths::{
    home_dir, join, launch, pid_file_beside, pid_file_in, pid_path, pid_text, socket_path,
    socket_text, startup_step, state_dir, state_dir_in, state_file_in, Launch, Startup,
};

fn home() -> Option<Vec<u8>> {
    Some(b"/home/me".to_vec())
}

#[test]
fn paths_are_joined_by_one_slash() {
    assert_eq!(join(b"/a".to_vec(), b"b"), b"/a/b".to_vec());
    assert_eq!(join(b"/a/".to_vec(), b"b"), b"/a/b".to_vec());
    assert_eq!(join(vec![], b"b"), b"b".to_vec());
}

#[test]
fn daemon_files_stand_under_the_home_directory() {
    assert_eq!(state_dir_in(home()), b"/home/me/.local/share/mbulet".to_vec());
    assert_eq!(
        state_file_in(home(), "daemon.sock"),
        b"/home/me/.local/share/mbulet/daemon.sock".to_vec()
    );
    assert_eq!(
        state_file_in(None, "daemon.pid"),
        b"/tmp/.local/share/mbulet/daemon.pid".to_vec()
    );
    assert_eq!(home_dir(None), b"/tmp".to_vec());
}

#[test]
fn daemon_files_of_this_user_stand_in_one_directory() {
    let dir = state_dir();
    assert!(dir.ends_with(b"/.local/share/mbulet"));
    assert_eq!(socket_path(), join(dir.clone(), b"daemon.sock"));
    assert_eq!(pid_path(), join(dir, b"daemon.pid"));
}

#[test]
fn pid_file_holds_the_number_and_a_line_feed() {
    assert_eq!(pid_text(4711), "4711\n");
    assert_eq!(pid_text(0), "0\n");
}

#[test]
fn socket_path_that_is_no_text_is_replaced() {
    assert_eq!(socket_text(b"/run/s.sock"), "/run/s.sock");
    assert_eq!(socket_text(b"/run/\xff.sock"), "/tmp/mbulet.sock");
}

#[test]
fn pid_file_stands_beside_the_socket() {
    assert_eq!(pid_file_beside("/run/mbulet/x.sock"), Some(b"/run/mbulet/daemon.pid".to_vec()));
    assert_eq!(pid_file_beside("x.sock"), Some(b"daemon.pid".to_vec()));
    assert_eq!(pid_file_beside("/"), None);
    assert_eq!(pid_file_beside(""), None);
    assert_eq!(pid_file_in(None), None);
    assert_eq!(pid_file_in(Some(b"/d".to_vec())), Some(b"/d/daemon.pid".to_vec()));
}

#[test]
fn pid_file_beside_own_socket_is_own_pid_file() {
    for h in [home(), None, Some(b"/".to_vec()), Some(b"/root/".to_vec())] {
        let socket = socket_text(&state_file_in(h.clone(), "daemon.sock"));
        assert_eq!(pid_file_beside(&socket), Some(state_file_in(h, "daemon.pid")));
    }
}

fn args(list: &[&str]) -> Vec<String> {
    list.iter().map(|s| s.to_string()).collect()
}

#[test]
fn command_line_tells_daemon_from_client() {
    assert_eq!(launch(&args(&["mbulet"])), Launch::Client);
    assert_eq!(launch(&args(&[])), Launch::Client);
    assert_eq!(launch(&args(&["mbulet", "-d"])), Launch::Client);
    assert_eq!(
        launch(&args(&["mbulet", "--daemon", "/s"])),
        Launch::Daemon { socket: "/s".to_string() }
    );
    assert_eq!(
        launch(&args(&["mbulet", "--daemon"])),
        Launch::Daemon { socket: "/tmp/mbulet.sock".to_string() }
    );
}

#[test]
fn client_looks_twenty_times_for_the_daemon() {
    assert_eq!(startup_step(1, true), Startup::Ready);
    assert_eq!(startup_step(20, true), Startup::Ready);
    assert_eq!(startup_step(0, false), Startup::Wait);
    assert_eq!(startup_step(19, false), Startup::Wait);
    assert_eq!(startup_step(20, false), Startup::Failed);
}

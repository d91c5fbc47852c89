use mbulet::osc7::extract_osc7;
use mbulet::session::{shell_plan, shell_plan_in, Delivery, Session, BUFFER_LIMIT};

fn session() -> Session {
    Session::new(3, "work".to_string(), 80, 24)
}

fn size(s: &Session) -> (u16, u16) {
    s.parser.screen().size()
}

#[test]
fn new_session_is_blank() {
    let s = session();
    assert_eq!((s.id, s.name.as_str()), (3, "work"));
    assert_eq!(size(&s), (24, 80));
    assert_eq!(s.parser.screen().contents(), "");
    assert_eq!(s.current_cwd(), None);
    assert!(s.buffered_output().is_empty());
    assert_eq!(size(&Session::new(1, String::new(), 0, 0)), (1, 1));
}

#[test]
fn output_is_kept_and_directory_read() {
    let mut s = session();
    let got = s.ingest(b"ls\x1b]7;file://h/a\x07 -l\x1b]7;file://h/b\x07");
    assert_eq!(got, vec![Delivery::Feed { data: b"ls -l".to_vec() }]);
    assert_eq!(s.current_cwd(), Some("/b".to_string()));
    let more = s.ingest(b"\r\n");
    assert_eq!(more, vec![Delivery::Feed { data: b"\r\n".to_vec() }]);
    assert_eq!(s.current_cwd(), Some("/b".to_string()));
    assert_eq!(s.buffered_output(), b"ls -l\r\n".to_vec());
}

#[test]
fn buffer_holds_the_last_output() {
    let mut s = session();
    let mut all: Vec<u8> = Vec::new();
    for i in 0..20u8 {
        let chunk = vec![i; 4096];
        s.ingest(&chunk);
        all.extend(chunk);
    }
    assert_eq!(BUFFER_LIMIT, 65536);
    assert_eq!(s.buffered_output(), all[all.len() - 65536..].to_vec());
    s.ingest(b"x");
    all.push(b'x');
    assert_eq!(s.buffered_output(), all[all.len() - 65536..].to_vec());
}

#[test]
fn output_longer_than_the_buffer_is_cut_at_its_start() {
    let mut s = session();
    let mut big = vec![b'a'; 70_000];
    big[69_999] = b'z';
    s.ingest(&big);
    let kept = s.buffered_output();
    assert_eq!(kept.len(), 65536);
    assert_eq!(kept[65535], b'z');
}

#[test]
fn other_size_wipes_screen_and_buffer() {
    let mut s = session();
    s.ingest(b"text");
    s.parser.process(b"text");
    assert!(s.resize_and_reset(100, 30));
    assert_eq!(size(&s), (30, 100));
    assert_eq!(s.parser.screen().contents(), "");
    assert!(s.buffered_output().is_empty());
}

#[test]
fn same_size_keeps_screen_and_buffer() {
    let mut s = session();
    s.ingest(b"text");
    s.parser.process(b"text");
    assert!(!s.resize_and_reset(80, 24));
    assert_eq!(s.parser.screen().contents(), "text");
    assert_eq!(s.buffered_output(), b"text".to_vec());
    assert!(s.resize_and_reset(0, 0));
    assert_eq!(size(&s), (1, 1));
    assert!(!s.resize_and_reset(1, 1));
}

#[test]
fn resize_keeps_what_stands_on_the_screen() {
    let mut s = session();
    s.ingest(b"one\r\ntwo");
    s.parser.process(b"one\r\ntwo");
    s.resize(2, 1);
    assert_eq!(size(&s), (1, 2));
    assert_eq!(s.parser.screen().contents(), "on");
    assert_eq!(s.parser.screen().cursor_position(), (0, 1));
    s.resize(10, 5);
    assert_eq!(s.parser.screen().contents(), "on");
    assert_eq!(s.buffered_output(), b"one\r\ntwo".to_vec());
    s.resize(0, 0);
    assert_eq!(size(&s), (1, 1));
}

fn subscribed() -> Session {
    let mut s = session();
    for c in [5, 6, 7] {
        s.subscribe(c);
    }
    s.subscribe_cwd(15);
    s.subscribe_cwd(16);
    s
}

fn output(channel: u64, data: &[u8]) -> Delivery {
    Delivery::Output { channel, data: data.to_vec() }
}

fn cwd(channel: u64, cwd: &str) -> Delivery {
    Delivery::Cwd { channel, cwd: cwd.to_string() }
}

#[test]
fn output_reaches_each_once_and_clean() {
    let mut s = subscribed();
    assert_eq!(
        s.ingest(b"a\x1b]7;/one\x07b\x1b]7;/two\x07"),
        vec![
            cwd(15, "/two"),
            cwd(16, "/two"),
            Delivery::Feed { data: b"ab".to_vec() },
            output(5, b"ab"),
            output(6, b"ab"),
            output(7, b"ab"),
        ]
    );
    s.settle(&vec![false, true, true, true, false, true]);
    assert_eq!(s.subscribers, vec![5, 7]);
    assert_eq!(s.cwd_subscribers, vec![16]);
    assert_eq!(
        s.ingest(b"c"),
        vec![Delivery::Feed { data: b"c".to_vec() }, output(5, b"c"), output(7, b"c")]
    );
    s.settle(&vec![true, false, true]);
    assert_eq!(s.subscribers, vec![7]);
    assert_eq!(s.cwd_subscribers, vec![16]);
}

#[test]
fn output_leaves_the_emulator_to_be_fed() {
    let mut s = session();
    s.parser.process(b"\x1b[32m");
    s.ingest(b"text");
    assert!(!s.resize_and_reset(80, 24));
    s.parser.process(b"G");
    let cell = s.parser.screen().cell(0, 0).unwrap();
    assert_eq!(cell.fgcolor(), vt100::Color::Idx(2));
}

#[test]
fn other_size_makes_a_new_emulator() {
    let mut s = session();
    s.parser.process(b"\x1b[32m\x1b[?25l\x1b[");
    assert!(s.resize_and_reset(81, 24));
    s.parser.process(b"1mG");
    let screen = s.parser.screen();
    assert_eq!(screen.contents(), "1mG");
    assert!(!screen.hide_cursor());
    assert_eq!(screen.cell(0, 0).unwrap().fgcolor(), vt100::Color::Default);
}

const ZSHRC: &str = r#"# mbulet session bootstrap
__mbulet_precmd() { printf '\e]7;file://%s%s\a' "$(hostname -s)" "$PWD"; }
precmd_functions+=(__mbulet_precmd)
[[ -f /home/me/.zshrc ]] && source /home/me/.zshrc
PROMPT_SP=""
"#;

#[test]
fn shell_is_planned_for_a_session() {
    let cmds = vec!["cd /x".to_string(), "ls".to_string()];
    let p = shell_plan_in(12, 0, 40, &cmds, b"/tmp".to_vec(), Some(b"/home/me".to_vec()));
    assert_eq!(p.program, "zsh");
    assert_eq!(p.term, "xterm-256color");
    assert_eq!((p.rows, p.cols), (40, 1));
    assert_eq!(p.zdotdir, b"/tmp/mbulet-zdotdir-12".to_vec());
    assert_eq!(p.zshrc_path, b"/tmp/mbulet-zdotdir-12/.zshrc".to_vec());
    assert_eq!(p.zshrc, ZSHRC);
    assert_eq!(p.input, b"cd /x\nls\n".to_vec());
}

#[test]
fn shell_of_a_user_without_home_reads_tmp() {
    let p = shell_plan_in(1, 80, 24, &vec![], b"/t/".to_vec(), None);
    assert_eq!(p.zdotdir, b"/t/mbulet-zdotdir-1".to_vec());
    assert!(p.zshrc.contains("source /tmp/.zshrc\n"));
    assert!(p.input.is_empty());
}

#[test]
fn home_that_is_no_text_is_shown_with_replacements() {
    let p = shell_plan_in(1, 80, 24, &vec![], b"/t".to_vec(), Some(b"/h\xff".to_vec()));
    assert!(p.zshrc.contains("source /h\u{fffd}/.zshrc\n"));
}

#[test]
fn shell_of_this_user_is_planned_alike() {
    let p = shell_plan(7, 80, 24, &vec!["a".to_string()], b"/tmp".to_vec());
    assert_eq!(p.zdotdir, b"/tmp/mbulet-zdotdir-7".to_vec());
    assert!(p.zshrc.contains("/.zshrc ]] && source "));
    assert_eq!(p.input, b"a\n".to_vec());
}

#[test]
fn what_the_hook_prints_is_read() {
    let printed = format!("\x1b]7;file://{}{}\x07", "box", "/srv/data");
    assert_eq!(extract_osc7(printed.as_bytes()), (vec!["/srv/data".to_string()], vec![]));
}

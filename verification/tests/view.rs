use mbulet::client::{App, Focus, PrefixMode};
use mbulet::emulator::CellColor;
use mbulet::layout::{pane_size, Area};
use mbulet::protocol::SessionInfo;
use mbulet::view::{
    bar_bg, bold_on_bar, default_style, draw_footer, draw_sidebar, draw_terminal, draw_topbar,
    footer_text, highlight_style, on_bar, pane_title_style, ui, vt100_color, Color, Span, Style,
};

fn app(names: &[&str], cols: u16, rows: u16) -> App {
    let list = names
        .iter()
        .enumerate()
        .map(|(i, n)| SessionInfo { id: i + 1, name: n.to_string(), cwd: None })
        .collect();
    App::new(list, cols, rows)
}

fn area(x: u16, y: u16, width: u16, height: u16) -> Area {
    Area { x, y, width, height }
}

fn span(text: &str, style: Style) -> Span {
    Span { text: text.to_string(), style }
}

fn plain_text(line: &[Span]) -> String {
    line.iter().map(|s| s.text.as_str()).collect()
}

#[test]
fn top_bar_counts_the_sessions() {
    let a = app(&["a", "b"], 10, 5);
    let t = draw_topbar(&a, area(0, 0, 80, 1));
    assert_eq!(t.left.area, area(0, 0, 80, 1));
    assert_eq!(t.left.line, vec![span("  mbulet", bold_on_bar(Color::Cyan))]);
    let right = t.right.unwrap();
    assert_eq!(right.area, area(67, 0, 13, 1));
    assert_eq!(right.line, vec![span("Sessions: 2  ", on_bar(Color::DarkGray))]);
}

#[test]
fn top_bar_without_room_counts_nothing() {
    let a = app(&[], 10, 5);
    assert!(draw_topbar(&a, area(0, 0, 13, 1)).right.is_none());
    assert_eq!(draw_topbar(&a, area(2, 3, 14, 1)).right.unwrap().area, area(3, 3, 13, 1));
}

#[test]
fn footer_tells_the_commands() {
    let mut a = app(&["a"], 10, 5);
    a.prefix_mode = PrefixMode::Pending;
    let f = draw_footer(&a);
    assert_eq!(
        plain_text(&f),
        "  ⌨  ^B → d: detach   q: shutdown   Tab: terminal   ^B: send prefix   w: worktree   \
         ↑/↓: move session  "
    );
    assert_eq!(f[0].style, bold_on_bar(Color::Yellow));
    assert_eq!(f[1].style, on_bar(Color::DarkGray));
    assert_eq!(f[2].style, on_bar(Color::Cyan));
    a.focus = Focus::Terminal;
    assert_eq!(draw_footer(&a)[7].text, ": sidebar   ");
}

#[test]
fn footer_tells_what_is_typed() {
    let mut a = app(&["a"], 10, 5);
    a.new_mode = true;
    assert_eq!(
        plain_text(&draw_footer(&a)),
        "  new session: type session name  Enter: create   Esc: cancel  "
    );
    a.rename_mode = true;
    assert_eq!(plain_text(&draw_footer(&a)), "  Esc: cancel   Enter: confirm  ");
    a.worktree_mode = true;
    assert_eq!(
        plain_text(&draw_footer(&a)),
        "  worktree branch: type branch name  Enter: create   Esc: cancel  "
    );
}

#[test]
fn footer_tells_the_keys_of_the_focus() {
    let mut a = app(&["a"], 10, 5);
    assert_eq!(
        plain_text(&draw_footer(&a)),
        "  j/k: nav   n: new   r: rename   d: delete   Enter: open   ^B w: worktree   \
         ^B d: detach   ^B q: shutdown  "
    );
    a.focus = Focus::Terminal;
    assert_eq!(
        plain_text(&draw_footer(&a)),
        "  ^B ↑/↓: switch session   ^B Tab: sidebar   ^B d: detach   ^B q: shutdown   \
         ^B ^B: send prefix  "
    );
    assert_eq!(footer_text(&a, "M-x")[1].text, "M-x ↑/↓");
}

#[test]
fn sidebar_lists_and_marks_the_sessions() {
    let mut a = app(&["a", "b"], 10, 5);
    a.next();
    let s = draw_sidebar(&a, area(0, 1, 22, 22));
    assert_eq!(s.area, area(0, 1, 22, 22));
    assert_eq!(s.title, span(" sessions ", bold_on_bar(Color::Cyan)));
    assert_eq!(
        s.items[1],
        vec![span(" ● ", on_bar(Color::Green)), span("b", on_bar(Color::White))]
    );
    assert_eq!(s.items.len(), 2);
    assert_eq!(s.selected, Some(1));
    assert_eq!(s.highlight, highlight_style());
    assert_eq!(s.symbol, "▶ ");
    assert_eq!(s.border, Color::Cyan);
    assert!(s.input.is_none());
    a.focus = Focus::Terminal;
    assert_eq!(draw_sidebar(&a, area(0, 1, 22, 22)).border, Color::DarkGray);
}

#[test]
fn sidebar_has_a_box_for_what_is_typed() {
    let mut a = app(&["a"], 10, 5);
    a.worktree_mode = true;
    a.worktree_input = "fe".to_string();
    let s = draw_sidebar(&a, area(0, 1, 22, 22));
    assert_eq!(s.area, area(0, 1, 22, 19));
    assert_eq!(s.border, Color::DarkGray);
    let b = s.input.unwrap();
    assert_eq!(b.area, area(0, 20, 22, 3));
    assert_eq!(b.title, Some(span(" worktree ", on_bar(Color::Yellow))));
    assert_eq!(
        b.line,
        vec![span("Branch: ", on_bar(Color::Yellow)), span("fe_", on_bar(Color::White))]
    );
    assert_eq!(b.border, Color::Yellow);
    a.rename_mode = true;
    a.rename_input = "na".to_string();
    let c = draw_sidebar(&a, area(0, 1, 22, 6)).input.unwrap();
    assert_eq!(c.area, area(0, 4, 22, 3));
    assert_eq!(plain_text(&c.line), "Name: na_");
    assert_eq!((c.title, c.border), (None, Color::Cyan));
    assert!(draw_sidebar(&a, area(0, 1, 22, 5)).input.is_none());
}

#[test]
fn sidebar_has_a_box_for_the_name_of_a_new_session() {
    let mut a = app(&["a"], 10, 5);
    a.new_mode = true;
    a.new_input = "x".to_string();
    let s = draw_sidebar(&a, area(0, 1, 22, 22));
    assert_eq!((s.area, s.border), (area(0, 1, 22, 19), Color::DarkGray));
    let b = s.input.unwrap();
    assert_eq!(b.area, area(0, 20, 22, 3));
    assert_eq!(b.title, Some(span(" new session ", on_bar(Color::Cyan))));
    assert_eq!(
        b.line,
        vec![span("Name: ", on_bar(Color::Cyan)), span("x_", on_bar(Color::White))]
    );
    assert_eq!(b.border, Color::Cyan);
}

#[test]
fn drawing_leaves_other_emulators_alone() {
    let mut a = app(&["a", "b"], 6, 2);
    a.sessions[0].parser.process(b"\x1b[31m");
    a.sessions[1].parser.process(b"\x1b[32m");
    draw_terminal(&mut a, area(0, 0, 8, 4));
    draw_terminal(&mut a, area(0, 0, 9, 5));
    assert_eq!(a.sessions[1].parser.screen().size(), (2, 6));
    for (i, color) in [(0, 1), (1, 2)] {
        a.sessions[i].parser.process(b"x");
        let cell = a.sessions[i].parser.screen().cell(0, 0).unwrap();
        assert_eq!(cell.fgcolor(), vt100::Color::Idx(color));
    }
}

#[test]
fn terminal_shows_cells_in_their_colors() {
    let mut a = app(&["sh"], 6, 2);
    a.sessions[0].parser.process(b"A\x1b[1;3;4;31;44mB\x1b[38;2;1;2;3;48;5;200mC");
    let p = draw_terminal(&mut a, area(22, 1, 8, 4)).unwrap();
    assert_eq!(p.inner, area(23, 2, 6, 2));
    assert_eq!(p.title, span(" sh ", pane_title_style()));
    assert_eq!(p.border, Color::DarkGray);
    let base = Style {
        fg: Some(Color::Reset),
        bg: Some(Color::Reset),
        bold: false,
        italic: false,
        underlined: false,
    };
    assert_eq!(p.lines[0][0], span("A", base));
    let b = Style {
        fg: Some(Color::Red),
        bg: Some(Color::Blue),
        bold: true,
        italic: true,
        underlined: true,
    };
    assert_eq!(p.lines[0][1], span("B", b));
    let c = Style { fg: Some(Color::Rgb(1, 2, 3)), bg: Some(Color::Indexed(200)), ..b };
    assert_eq!(p.lines[0][2], span("C", c));
    assert_eq!(p.lines[1][0], span(" ", base));
    assert_eq!((p.lines.len(), p.lines[0].len()), (2, 6));
    assert_eq!(p.cursor, None);
}

#[test]
fn wide_characters_are_followed_by_a_space() {
    let mut a = app(&["sh"], 6, 2);
    a.sessions[0].parser.process("目x".as_bytes());
    let p = draw_terminal(&mut a, area(0, 0, 8, 4)).unwrap();
    assert_eq!(p.lines[0][0].text, "目");
    assert_eq!(p.lines[0][1].text, " ");
    assert_eq!(p.lines[0][2].text, "x");
}

#[test]
fn cursor_is_shown_where_the_keys_go() {
    let mut a = app(&["sh"], 6, 2);
    a.focus = Focus::Terminal;
    a.sessions[0].parser.process(b"ab\r\nc");
    let p = draw_terminal(&mut a, area(22, 1, 8, 4)).unwrap();
    assert_eq!(p.cursor, Some((24, 3)));
    assert_eq!(p.border, Color::Cyan);
    a.sessions[0].parser.process(b"defghi");
    assert_eq!(draw_terminal(&mut a, area(22, 1, 8, 4)).unwrap().cursor, Some((24, 3)));
}

#[test]
fn cursor_behind_the_last_column_is_not_shown() {
    let mut a = app(&["sh"], 6, 2);
    a.focus = Focus::Terminal;
    a.sessions[0].parser.process(b"abcdef");
    assert_eq!(draw_terminal(&mut a, area(0, 0, 8, 4)).unwrap().cursor, None);
}

#[test]
fn screen_gets_the_size_it_is_drawn_in() {
    let mut a = app(&["sh"], 6, 2);
    a.sessions[0].parser.process(b"abcdef");
    let first = draw_terminal(&mut a, area(0, 0, 5, 7)).unwrap();
    assert_eq!(a.sessions[0].parser.screen().size(), (5, 3));
    assert_eq!(plain_text(&first.lines[0]), "abc");
    assert_eq!((first.lines.len(), first.lines[4].len()), (5, 3));
    assert_eq!(draw_terminal(&mut a, area(0, 0, 5, 7)).unwrap(), first);
    assert_eq!(draw_terminal(&mut app(&[], 6, 2), area(0, 0, 5, 7)), None);
}

#[test]
fn colors_are_named_or_numbered() {
    let names = [
        Color::Black,
        Color::Red,
        Color::Green,
        Color::Yellow,
        Color::Blue,
        Color::Magenta,
        Color::Cyan,
        Color::Gray,
        Color::DarkGray,
        Color::LightRed,
        Color::LightGreen,
        Color::LightYellow,
        Color::LightBlue,
        Color::LightMagenta,
        Color::LightCyan,
        Color::White,
    ];
    for (i, c) in names.iter().enumerate() {
        assert_eq!(vt100_color(CellColor::Idx(i as u8)), *c);
    }
    assert_eq!(vt100_color(CellColor::Idx(16)), Color::Indexed(16));
    assert_eq!(vt100_color(CellColor::Idx(255)), Color::Indexed(255));
    assert_eq!(vt100_color(CellColor::Default), Color::Reset);
    assert_eq!(vt100_color(CellColor::Rgb(9, 8, 7)), Color::Rgb(9, 8, 7));
    assert_eq!(bar_bg(), Color::Rgb(18, 18, 28));
    assert_eq!(default_style().fg, None);
}

#[test]
fn whole_screen_is_drawn_from_its_parts() {
    let (cols, rows) = pane_size(80, 24);
    let mut a = app(&["one", "two"], cols, rows);
    a.sessions[0].parser.process(b"hello");
    let u = ui(&mut a, area(0, 0, 80, 24));
    assert_eq!(u.top.left.area, area(0, 0, 80, 1));
    assert_eq!(u.sidebar.area, area(0, 1, 22, 22));
    let t = u.terminal.unwrap();
    assert_eq!((t.area, t.inner), (area(22, 1, 58, 22), area(23, 2, 56, 20)));
    assert_eq!(plain_text(&t.lines[0]).trim_end(), "hello");
    assert_eq!(u.footer.area, area(0, 23, 80, 1));
    assert_eq!(u.footer.line, draw_footer(&a));
    assert_eq!(a.sessions[0].parser.screen().size(), (rows, cols));
}

#[test]
fn screen_without_sessions_can_have_any_size() {
    for (w, h) in [(80, 24), (10, 3), (0, 0), (30, 1)] {
        let mut a = app(&[], 1, 1);
        let u = ui(&mut a, area(0, 0, w, h));
        assert!(u.terminal.is_none());
        assert!(u.sidebar.items.is_empty());
    }
}

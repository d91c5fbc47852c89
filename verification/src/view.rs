//! What the client draws, as plain values: texts with their styles, and where they stand.
use crate::client::{App, AppView, ClientSession, ClientSessionView, Focus, PrefixMode};
use crate::emulator::{
    parser_cell, parser_cursor, parser_size, screen, screen_size, set_parser_size, CellColor,
    CellView, ScreenView,
};
use crate::keys::{prefix_display, prefix_modifiers, prefix_name, PREFIX_KEY};
use crate::layout::{
    inner_area, inner_part, is_determined, law_pane_size_matches_screen, offset, pane,
    screen_parts, split, total_length, ui_areas, Area, Constraint, Direction,
};
use crate::text::{chars_of, decimal, to_decimal};
use vstd::prelude::*;

verus! {

/// A colour, as the screen knows it.
#[derive(Debug, Clone, Copy, PartialEq, Eq, Structural)]
pub enum Color {
    Reset,
    Black,
    Red,
    Green,
    Yellow,
    Blue,
    Magenta,
    Cyan,
    Gray,
    DarkGray,
    LightRed,
    LightGreen,
    LightYellow,
    LightBlue,
    LightMagenta,
    LightCyan,
    White,
    Rgb(u8, u8, u8),
    Indexed(u8),
}

/// How a text is drawn.
#[derive(Debug, Clone, Copy, PartialEq, Eq, Structural)]
pub struct Style {
    pub fg: Option<Color>,
    pub bg: Option<Color>,
    pub bold: bool,
    pub italic: bool,
    pub underlined: bool,
}

/// A text and how it is drawn.
#[derive(Debug, PartialEq, Eq)]
pub struct Span {
    pub text: String,
    pub style: Style,
}

/// The value of a [`Span`].
#[verifier::ext_equal]
pub struct SpanView {
    pub text: Seq<char>,
    pub style: Style,
}

impl View for Span {
    type V = SpanView;

    open spec fn view(&self) -> SpanView {
        SpanView { text: self.text@, style: self.style }
    }
}

/// The values of a line.
pub open spec fn spans(v: Seq<Span>) -> Seq<SpanView> {
    v.map_values(|s: Span| s@)
}

/// The values of some lines.
pub open spec fn lines(v: Seq<Vec<Span>>) -> Seq<Seq<SpanView>> {
    v.map_values(|l: Vec<Span>| spans(l@))
}

/// A text in a style.
pub open spec fn styled(text: Seq<char>, style: Style) -> SpanView {
    SpanView { text, style }
}

/// The background of the sidebar and of the bars.
#[verifier::allow_in_spec]
pub fn bar_bg() -> (c: Color)
    returns
        Color::Rgb(18, 18, 28),
{
    Color::Rgb(18, 18, 28)
}

/// A colour on the background of the bars.
#[verifier::allow_in_spec]
pub fn on_bar(fg: Color) -> (s: Style)
    returns
        (Style {
            fg: Some(fg),
            bg: Some(Color::Rgb(18, 18, 28)),
            bold: false,
            italic: false,
            underlined: false,
        }),
{
    Style { fg: Some(fg), bg: Some(bar_bg()), bold: false, italic: false, underlined: false }
}

/// A colour on the background of the bars, in bold type.
#[verifier::allow_in_spec]
pub fn bold_on_bar(fg: Color) -> (s: Style)
    returns
        (Style {
            fg: Some(fg),
            bg: Some(Color::Rgb(18, 18, 28)),
            bold: true,
            italic: false,
            underlined: false,
        }),
{
    Style { fg: Some(fg), bg: Some(bar_bg()), bold: true, italic: false, underlined: false }
}

/// How text is drawn where nothing is said of it.
#[verifier::allow_in_spec]
pub fn default_style() -> (s: Style)
    returns
        (Style { fg: None, bg: None, bold: false, italic: false, underlined: false }),
{
    Style { fg: None, bg: None, bold: false, italic: false, underlined: false }
}

/// The colour of a border: bright where the keys go.
#[verifier::allow_in_spec]
pub fn border_color(focused: bool) -> (c: Color)
    returns
        (if focused {
            Color::Cyan
        } else {
            Color::DarkGray
        }),
{
    if focused {
        Color::Cyan
    } else {
        Color::DarkGray
    }
}

/// The screen's colour for a cell's: the first sixteen colours by their names, the others by
/// their numbers.
pub open spec fn color_of(c: CellColor) -> Color {
    match c {
        CellColor::Default => Color::Reset,
        CellColor::Idx(n) => if n == 0 {
            Color::Black
        } else if n == 1 {
            Color::Red
        } else if n == 2 {
            Color::Green
        } else if n == 3 {
            Color::Yellow
        } else if n == 4 {
            Color::Blue
        } else if n == 5 {
            Color::Magenta
        } else if n == 6 {
            Color::Cyan
        } else if n == 7 {
            Color::Gray
        } else if n == 8 {
            Color::DarkGray
        } else if n == 9 {
            Color::LightRed
        } else if n == 10 {
            Color::LightGreen
        } else if n == 11 {
            Color::LightYellow
        } else if n == 12 {
            Color::LightBlue
        } else if n == 13 {
            Color::LightMagenta
        } else if n == 14 {
            Color::LightCyan
        } else if n == 15 {
            Color::White
        } else {
            Color::Indexed(n)
        },
        CellColor::Rgb(r, g, b) => Color::Rgb(r, g, b),
    }
}

/// The screen's colour for a cell's.
pub fn vt100_color(color: CellColor) -> (r: Color)
    ensures
        r == color_of(color),
{
    match color {
        CellColor::Default => Color::Reset,
        CellColor::Idx(0) => Color::Black,
        CellColor::Idx(1) => Color::Red,
        CellColor::Idx(2) => Color::Green,
        CellColor::Idx(3) => Color::Yellow,
        CellColor::Idx(4) => Color::Blue,
        CellColor::Idx(5) => Color::Magenta,
        CellColor::Idx(6) => Color::Cyan,
        CellColor::Idx(7) => Color::Gray,
        CellColor::Idx(8) => Color::DarkGray,
        CellColor::Idx(9) => Color::LightRed,
        CellColor::Idx(10) => Color::LightGreen,
        CellColor::Idx(11) => Color::LightYellow,
        CellColor::Idx(12) => Color::LightBlue,
        CellColor::Idx(13) => Color::LightMagenta,
        CellColor::Idx(14) => Color::LightCyan,
        CellColor::Idx(15) => Color::White,
        CellColor::Idx(n) => Color::Indexed(n),
        CellColor::Rgb(r, g, b) => Color::Rgb(r, g, b),
    }
}

/// No two colours of a cell look the same.
pub proof fn law_colors_stay_apart(a: CellColor, b: CellColor)
    requires
        color_of(a) == color_of(b),
    ensures
        a == b,
{
}

/// A text in a style.
fn span(text: &str, style: Style) -> (s: Span)
    ensures
        s@ == styled(text@, style),
{
    Span { text: text.to_string(), style }
}

/// Appends a text in a style to a line.
fn put(line: &mut Vec<Span>, text: &str, style: Style)
    ensures
        spans(final(line)@) == spans(old(line)@).push(styled(text@, style)),
{
    let s = span(text, style);
    line.push(s);
    assert(spans(line@) =~= spans(old(line)@).push(s@));
}

/// An empty line.
fn empty_line() -> (line: Vec<Span>)
    ensures
        spans(line@) == Seq::<SpanView>::empty(),
{
    let line: Vec<Span> = Vec::new();
    assert(spans(line@) =~= Seq::<SpanView>::empty());
    line
}

/// Two texts, one behind the other.
fn both(a: &str, b: &str) -> (s: String)
    ensures
        s@ == a@ + b@,
{
    let mut s = a.to_string();
    s.push_str(b);
    s
}

/// A key in the footer.
pub open spec fn key_span(text: Seq<char>) -> SpanView {
    styled(text, on_bar(Color::Cyan))
}

/// What stands between keys in the footer.
pub open spec fn sep_span(text: Seq<char>) -> SpanView {
    styled(text, on_bar(Color::DarkGray))
}

/// Something to take notice of in the footer.
pub open spec fn warn_span(text: Seq<char>) -> SpanView {
    styled(text, bold_on_bar(Color::Yellow))
}

/// Where the command `Tab` goes from a focus.
pub open spec fn tab_goal(focus: Focus) -> Seq<char> {
    if focus is Sidebar {
        ": terminal   "@
    } else {
        ": sidebar   "@
    }
}

/// The footer once the prefix key, whose name is `p`, has been pressed: the commands.
pub open spec fn pending_footer(p: Seq<char>, focus: Focus) -> Seq<SpanView> {
    seq![
        warn_span("  ⌨  "@ + p + " "@),
        sep_span("→ "@),
        key_span("d"@),
        sep_span(": detach   "@),
        key_span("q"@),
        sep_span(": shutdown   "@),
        key_span("Tab"@),
        sep_span(tab_goal(focus)),
        key_span(p),
        sep_span(": send prefix   "@),
        key_span("w"@),
        sep_span(": worktree   "@),
        key_span("↑/↓"@),
        sep_span(": move session  "@),
    ]
}

/// The footer while a branch is typed.
pub open spec fn worktree_footer() -> Seq<SpanView> {
    seq![
        sep_span("  "@),
        warn_span("worktree branch: "@),
        sep_span("type branch name  "@),
        key_span("Enter"@),
        sep_span(": create   "@),
        key_span("Esc"@),
        sep_span(": cancel  "@),
    ]
}

/// The footer while a name is typed.
pub open spec fn rename_footer() -> Seq<SpanView> {
    seq![
        sep_span("  "@),
        key_span("Esc"@),
        sep_span(": cancel   "@),
        key_span("Enter"@),
        sep_span(": confirm  "@),
    ]
}

/// The footer while the name of a new session is typed.
pub open spec fn new_footer() -> Seq<SpanView> {
    seq![
        sep_span("  "@),
        warn_span("new session: "@),
        sep_span("type session name  "@),
        key_span("Enter"@),
        sep_span(": create   "@),
        key_span("Esc"@),
        sep_span(": cancel  "@),
    ]
}

/// The footer in the sidebar.
pub open spec fn sidebar_footer(p: Seq<char>) -> Seq<SpanView> {
    seq![
        sep_span("  "@),
        key_span("j/k"@),
        sep_span(": nav   "@),
        key_span("n"@),
        sep_span(": new   "@),
        key_span("r"@),
        sep_span(": rename   "@),
        key_span("d"@),
        sep_span(": delete   "@),
        key_span("Enter"@),
        sep_span(": open   "@),
        key_span(p + " w"@),
        sep_span(": worktree   "@),
        key_span(p + " d"@),
        sep_span(": detach   "@),
        key_span(p + " q"@),
        sep_span(": shutdown  "@),
    ]
}

/// The footer in the terminal.
pub open spec fn terminal_footer(p: Seq<char>) -> Seq<SpanView> {
    seq![
        sep_span("  "@),
        key_span(p + " ↑/↓"@),
        sep_span(": switch session   "@),
        key_span(p + " Tab"@),
        sep_span(": sidebar   "@),
        key_span(p + " d"@),
        sep_span(": detach   "@),
        key_span(p + " q"@),
        sep_span(": shutdown   "@),
        key_span(p + " "@ + p),
        sep_span(": send prefix  "@),
    ]
}

/// The footer, where the prefix key's name is `p`.
pub open spec fn footer_line(a: AppView, p: Seq<char>) -> Seq<SpanView> {
    if a.prefix_mode is Pending {
        pending_footer(p, a.focus)
    } else if a.worktree_mode {
        worktree_footer()
    } else if a.rename_mode {
        rename_footer()
    } else if a.new_mode {
        new_footer()
    } else if a.focus is Sidebar {
        sidebar_footer(p)
    } else {
        terminal_footer(p)
    }
}

fn put_key(line: &mut Vec<Span>, text: &str)
    ensures
        spans(final(line)@) == spans(old(line)@).push(key_span(text@)),
{
    put(line, text, on_bar(Color::Cyan));
}

fn put_sep(line: &mut Vec<Span>, text: &str)
    ensures
        spans(final(line)@) == spans(old(line)@).push(sep_span(text@)),
{
    put(line, text, on_bar(Color::DarkGray));
}

fn put_warn(line: &mut Vec<Span>, text: &str)
    ensures
        spans(final(line)@) == spans(old(line)@).push(warn_span(text@)),
{
    put(line, text, bold_on_bar(Color::Yellow));
}

fn draw_pending_footer(p: &str, focus: Focus) -> (r: Vec<Span>)
    ensures
        spans(r@) == pending_footer(p@, focus),
{
    let mut l = empty_line();
    let lead = both("  ⌨  ", p);
    let notice = both(lead.as_str(), " ");
    put_warn(&mut l, notice.as_str());
    put_sep(&mut l, "→ ");
    put_key(&mut l, "d");
    put_sep(&mut l, ": detach   ");
    put_key(&mut l, "q");
    put_sep(&mut l, ": shutdown   ");
    put_key(&mut l, "Tab");
    if focus == Focus::Sidebar {
        put_sep(&mut l, ": terminal   ");
    } else {
        put_sep(&mut l, ": sidebar   ");
    }
    put_key(&mut l, p);
    put_sep(&mut l, ": send prefix   ");
    put_key(&mut l, "w");
    put_sep(&mut l, ": worktree   ");
    put_key(&mut l, "↑/↓");
    put_sep(&mut l, ": move session  ");
    l
}

fn draw_worktree_footer() -> (r: Vec<Span>)
    ensures
        spans(r@) == worktree_footer(),
{
    let mut l = empty_line();
    put_sep(&mut l, "  ");
    put_warn(&mut l, "worktree branch: ");
    put_sep(&mut l, "type branch name  ");
    put_key(&mut l, "Enter");
    put_sep(&mut l, ": create   ");
    put_key(&mut l, "Esc");
    put_sep(&mut l, ": cancel  ");
    l
}

fn draw_rename_footer() -> (r: Vec<Span>)
    ensures
        spans(r@) == rename_footer(),
{
    let mut l = empty_line();
    put_sep(&mut l, "  ");
    put_key(&mut l, "Esc");
    put_sep(&mut l, ": cancel   ");
    put_key(&mut l, "Enter");
    put_sep(&mut l, ": confirm  ");
    l
}

fn draw_new_footer() -> (r: Vec<Span>)
    ensures
        spans(r@) == new_footer(),
{
    let mut l = empty_line();
    put_sep(&mut l, "  ");
    put_warn(&mut l, "new session: ");
    put_sep(&mut l, "type session name  ");
    put_key(&mut l, "Enter");
    put_sep(&mut l, ": create   ");
    put_key(&mut l, "Esc");
    put_sep(&mut l, ": cancel  ");
    l
}

fn put_prefixed(line: &mut Vec<Span>, p: &str, text: &str)
    ensures
        spans(final(line)@) == spans(old(line)@).push(key_span(p@ + text@)),
{
    let s = both(p, text);
    put_key(line, s.as_str());
}

fn draw_sidebar_footer(p: &str) -> (r: Vec<Span>)
    ensures
        spans(r@) == sidebar_footer(p@),
{
    let mut l = empty_line();
    put_sep(&mut l, "  ");
    put_key(&mut l, "j/k");
    put_sep(&mut l, ": nav   ");
    put_key(&mut l, "n");
    put_sep(&mut l, ": new   ");
    put_key(&mut l, "r");
    put_sep(&mut l, ": rename   ");
    put_key(&mut l, "d");
    put_sep(&mut l, ": delete   ");
    put_key(&mut l, "Enter");
    put_sep(&mut l, ": open   ");
    put_prefixed(&mut l, p, " w");
    put_sep(&mut l, ": worktree   ");
    put_prefixed(&mut l, p, " d");
    put_sep(&mut l, ": detach   ");
    put_prefixed(&mut l, p, " q");
    put_sep(&mut l, ": shutdown  ");
    l
}

fn draw_terminal_footer(p: &str) -> (r: Vec<Span>)
    ensures
        spans(r@) == terminal_footer(p@),
{
    let mut l = empty_line();
    put_sep(&mut l, "  ");
    put_prefixed(&mut l, p, " ↑/↓");
    put_sep(&mut l, ": switch session   ");
    put_prefixed(&mut l, p, " Tab");
    put_sep(&mut l, ": sidebar   ");
    put_prefixed(&mut l, p, " d");
    put_sep(&mut l, ": detach   ");
    put_prefixed(&mut l, p, " q");
    put_sep(&mut l, ": shutdown   ");
    let spaced = both(p, " ");
    put_prefixed(&mut l, spaced.as_str(), p);
    put_sep(&mut l, ": send prefix  ");
    l
}

/// The footer, where the prefix key's name is `p`.
pub fn footer_text(app: &App, p: &str) -> (r: Vec<Span>)
    ensures
        spans(r@) == footer_line(app@, p@),
{
    if app.prefix_mode == PrefixMode::Pending {
        draw_pending_footer(p, app.focus)
    } else if app.worktree_mode {
        draw_worktree_footer()
    } else if app.rename_mode {
        draw_rename_footer()
    } else if app.new_mode {
        draw_new_footer()
    } else if app.focus == Focus::Sidebar {
        draw_sidebar_footer(p)
    } else {
        draw_terminal_footer(p)
    }
}

/// The name of the prefix key.
pub open spec fn prefix_label() -> Seq<char> {
    prefix_name(PREFIX_KEY, seq!['B'], prefix_modifiers())
}

/// The footer: the keys that do something.
pub fn draw_footer(app: &App) -> (r: Vec<Span>)
    ensures
        spans(r@) == footer_line(app@, prefix_label()),
{
    let p = prefix_display(PREFIX_KEY, prefix_modifiers());
    assert(p@ == prefix_label()) by {
        assert(PREFIX_KEY as int - 32 == 'B' as int);
    }
    footer_text(app, p.as_str())
}

/// A line in its place.
#[derive(Debug, PartialEq, Eq)]
pub struct Placed {
    pub area: Area,
    pub line: Vec<Span>,
}

/// The value of a [`Placed`].
#[verifier::ext_equal]
pub struct PlacedView {
    pub area: Area,
    pub line: Seq<SpanView>,
}

impl View for Placed {
    type V = PlacedView;

    open spec fn view(&self) -> PlacedView {
        PlacedView { area: self.area, line: spans(self.line@) }
    }
}

/// The top bar: the program's name, and at its end, where there is room, the number of sessions.
#[derive(Debug, PartialEq, Eq)]
pub struct TopBar {
    pub left: Placed,
    pub right: Option<Placed>,
}

/// The value of a [`TopBar`].
#[verifier::ext_equal]
pub struct TopBarView {
    pub left: PlacedView,
    pub right: Option<PlacedView>,
}

impl View for TopBar {
    type V = TopBarView;

    open spec fn view(&self) -> TopBarView {
        TopBarView {
            left: self.left@,
            right: match self.right {
                Some(p) => Some(p@),
                None => None,
            },
        }
    }
}

/// What the top bar says of `n` sessions.
pub open spec fn session_count(n: nat) -> Seq<char> {
    "Sessions: "@ + decimal(n) + "  "@
}

/// The top bar over `n` sessions.
pub open spec fn top_bar(n: nat, area: Area) -> TopBarView {
    let text = session_count(n);
    let width = text.len();
    TopBarView {
        left: PlacedView { area, line: seq![styled("  mbulet"@, bold_on_bar(Color::Cyan))] },
        right: if area.width > width {
            Some(
                PlacedView {
                    area: Area {
                        x: (area.x + area.width - width) as u16,
                        y: area.y,
                        width: width as u16,
                        height: 1,
                    },
                    line: seq![styled(text, on_bar(Color::DarkGray))],
                },
            )
        } else {
            None
        },
    }
}

/// A line of one text.
fn one_span(text: &str, style: Style) -> (line: Vec<Span>)
    ensures
        spans(line@) == seq![styled(text@, style)],
{
    let mut line = empty_line();
    put(&mut line, text, style);
    line
}

/// The top bar.
pub fn draw_topbar(app: &App, area: Area) -> (r: TopBar)
    requires
        area.ok(),
    ensures
        r@ == top_bar(app@.sessions.len(), area),
{
    let count = to_decimal(app.sessions.len() as u128);
    let head = both("Sessions: ", count.as_str());
    let text = both(head.as_str(), "  ");
    let left = Placed { area, line: one_span("  mbulet", bold_on_bar(Color::Cyan)) };
    let width: usize = text.as_str().unicode_len();
    if area.width as usize > width {
        let w: u16 = width as u16;
        let place = Area { x: area.x + area.width - w, y: area.y, width: w, height: 1 };
        let line = one_span(text.as_str(), on_bar(Color::DarkGray));
        TopBar { left, right: Some(Placed { area: place, line }) }
    } else {
        TopBar { left, right: None }
    }
}

/// The box in which a name or a branch is typed.
#[derive(Debug, PartialEq, Eq)]
pub struct InputBox {
    pub area: Area,
    pub title: Option<Span>,
    pub line: Vec<Span>,
    pub border: Color,
}

/// The value of an [`InputBox`].
#[verifier::ext_equal]
pub struct InputBoxView {
    pub area: Area,
    pub title: Option<SpanView>,
    pub line: Seq<SpanView>,
    pub border: Color,
}

impl View for InputBox {
    type V = InputBoxView;

    open spec fn view(&self) -> InputBoxView {
        InputBoxView {
            area: self.area,
            title: match self.title {
                Some(t) => Some(t@),
                None => None,
            },
            line: spans(self.line@),
            border: self.border,
        }
    }
}

/// The sidebar: the list of sessions and, while something is typed, the box for it.
#[derive(Debug, PartialEq, Eq)]
pub struct Sidebar {
    pub area: Area,
    pub title: Span,
    pub items: Vec<Vec<Span>>,
    pub selected: Option<usize>,
    pub highlight: Style,
    pub symbol: String,
    pub border: Color,
    pub input: Option<InputBox>,
}

/// The value of a [`Sidebar`].
#[verifier::ext_equal]
pub struct SidebarView {
    pub area: Area,
    pub title: SpanView,
    pub items: Seq<Seq<SpanView>>,
    pub selected: Option<usize>,
    pub highlight: Style,
    pub symbol: Seq<char>,
    pub border: Color,
    pub input: Option<InputBoxView>,
}

impl View for Sidebar {
    type V = SidebarView;

    open spec fn view(&self) -> SidebarView {
        SidebarView {
            area: self.area,
            title: self.title@,
            items: lines(self.items@),
            selected: self.selected,
            highlight: self.highlight,
            symbol: self.symbol@,
            border: self.border,
            input: match self.input {
                Some(b) => Some(b@),
                None => None,
            },
        }
    }
}

/// A session in the list.
pub open spec fn list_item(name: Seq<char>) -> Seq<SpanView> {
    seq![styled(" ● "@, on_bar(Color::Green)), styled(name, on_bar(Color::White))]
}

/// How the selected session is drawn.
#[verifier::allow_in_spec]
pub fn highlight_style() -> (s: Style)
    returns
        (Style {
            fg: Some(Color::White),
            bg: Some(Color::Rgb(40, 60, 120)),
            bold: true,
            italic: false,
            underlined: false,
        }),
{
    Style {
        fg: Some(Color::White),
        bg: Some(Color::Rgb(40, 60, 120)),
        bold: true,
        italic: false,
        underlined: false,
    }
}

/// The box for what is typed. A session's name comes first, then a branch, then the name of a new
/// session, where several are typed.
pub open spec fn input_box(a: AppView, area: Area) -> InputBoxView {
    if a.rename_mode {
        InputBoxView {
            area,
            title: None,
            line: seq![
                styled("Name: "@, on_bar(Color::Cyan)),
                styled(a.rename_input + "_"@, on_bar(Color::White)),
            ],
            border: Color::Cyan,
        }
    } else if a.worktree_mode {
        InputBoxView {
            area,
            title: Some(styled(" worktree "@, on_bar(Color::Yellow))),
            line: seq![
                styled("Branch: "@, on_bar(Color::Yellow)),
                styled(a.worktree_input + "_"@, on_bar(Color::White)),
            ],
            border: Color::Yellow,
        }
    } else {
        InputBoxView {
            area,
            title: Some(styled(" new session "@, on_bar(Color::Cyan))),
            line: seq![
                styled("Name: "@, on_bar(Color::Cyan)),
                styled(a.new_input + "_"@, on_bar(Color::White)),
            ],
            border: Color::Cyan,
        }
    }
}

/// The sidebar. While something is typed, its last three rows hold the box, if there are more
/// than five.
pub open spec fn sidebar(a: AppView, area: Area) -> SidebarView {
    let typing = a.rename_mode || a.worktree_mode || a.new_mode;
    let boxed = typing && area.height > 5;
    SidebarView {
        area: if boxed {
            Area { height: (area.height - 3) as u16, ..area }
        } else {
            area
        },
        title: styled(" sessions "@, bold_on_bar(Color::Cyan)),
        items: a.sessions.map_values(|s: ClientSessionView| list_item(s.name)),
        selected: a.list_selected,
        highlight: highlight_style(),
        symbol: "▶ "@,
        border: border_color(a.focus is Sidebar && !typing),
        input: if boxed {
            Some(
                input_box(
                    a,
                    Area { y: (area.y + area.height - 3) as u16, height: 3, ..area },
                ),
            )
        } else {
            None
        },
    }
}

fn draw_input_box(app: &App, area: Area) -> (r: InputBox)
    ensures
        r@ == input_box(app@, area),
{
    let mut line = empty_line();
    if app.rename_mode {
        put(&mut line, "Name: ", on_bar(Color::Cyan));
        let text = both(app.rename_input.as_str(), "_");
        put(&mut line, text.as_str(), on_bar(Color::White));
        InputBox { area, title: None, line, border: Color::Cyan }
    } else if app.worktree_mode {
        put(&mut line, "Branch: ", on_bar(Color::Yellow));
        let text = both(app.worktree_input.as_str(), "_");
        put(&mut line, text.as_str(), on_bar(Color::White));
        let title = span(" worktree ", on_bar(Color::Yellow));
        InputBox { area, title: Some(title), line, border: Color::Yellow }
    } else {
        put(&mut line, "Name: ", on_bar(Color::Cyan));
        let text = both(app.new_input.as_str(), "_");
        put(&mut line, text.as_str(), on_bar(Color::White));
        let title = span(" new session ", on_bar(Color::Cyan));
        InputBox { area, title: Some(title), line, border: Color::Cyan }
    }
}

fn draw_items(app: &App) -> (r: Vec<Vec<Span>>)
    ensures
        lines(r@) == app@.sessions.map_values(|s: ClientSessionView| list_item(s.name)),
{
    let mut r: Vec<Vec<Span>> = Vec::new();
    let mut i: usize = 0;
    while i < app.sessions.len()
        invariant
            i <= app.sessions@.len(),
            r@.len() == i,
            forall|k: int|
                0 <= k < i ==> spans((#[trigger] r@[k])@) == list_item(app.sessions@[k].name@),
        decreases app.sessions@.len() - i,
    {
        let mut line = empty_line();
        put(&mut line, " ● ", on_bar(Color::Green));
        put(&mut line, app.sessions[i].name.as_str(), on_bar(Color::White));
        r.push(line);
        i += 1;
    }
    assert(lines(r@) =~= app@.sessions.map_values(|s: ClientSessionView| list_item(s.name)));
    r
}

/// Splits the box for what is typed from the sidebar.
fn split_input(area: Area) -> (r: (Area, Area))
    requires
        area.ok(),
        area.height > 5,
    ensures
        r.0 == (Area { height: (area.height - 3) as u16, ..area }),
        r.1 == (Area { y: (area.y + area.height - 3) as u16, height: 3, ..area }),
{
    let mut rows: Vec<Constraint> = Vec::new();
    rows.push(Constraint::Min(0));
    rows.push(Constraint::Length(3));
    let v = split(area, Direction::Vertical, &rows);
    proof {
        reveal_with_fuel(total_length, 3);
        reveal_with_fuel(offset, 3);
        assert(rows@[0] == Constraint::Min(0));
        assert(rows@.drop_last().drop_last() =~= Seq::<Constraint>::empty());
        assert(total_length(rows@) == 3);
        assert(is_determined(rows@, area.height as int));
    }
    (v[0], v[1])
}

/// The sidebar.
pub fn draw_sidebar(app: &App, area: Area) -> (r: Sidebar)
    requires
        area.ok(),
    ensures
        r@ == sidebar(app@, area),
{
    let typing = app.rename_mode || app.worktree_mode || app.new_mode;
    let focused = app.focus == Focus::Sidebar && !typing;
    let (list_area, input) = if typing && area.height > 5 {
        let (a, b) = split_input(area);
        (a, Some(draw_input_box(app, b)))
    } else {
        (area, None)
    };
    Sidebar {
        area: list_area,
        title: span(" sessions ", bold_on_bar(Color::Cyan)),
        items: draw_items(app),
        selected: app.list_selected,
        highlight: highlight_style(),
        symbol: "▶ ".to_string(),
        border: border_color(focused),
        input,
    }
}

/// The characters of Unicode's category `Cc`.
pub open spec fn control_char(c: char) -> bool {
    c as int <= 0x1f || 0x7f <= c as int <= 0x9f
}

/// Some character is a control character.
pub open spec fn has_control(s: Seq<char>) -> bool {
    exists|i: int| 0 <= i < s.len() && control_char(#[trigger] s[i])
}

/// Whether a character is a control character.
fn is_control(c: char) -> (r: bool)
    ensures
        r == control_char(c),
{
    let n: u32 = c as u32;
    n <= 0x1f || (0x7f <= n && n <= 0x9f)
}

/// Whether some character is a control character.
fn any_control(s: &str) -> (r: bool)
    ensures
        r == has_control(s@),
{
    let v = chars_of(s);
    let mut i: usize = 0;
    while i < v.len()
        invariant
            i <= v@.len(),
            v@ == s@,
            forall|k: int| 0 <= k < i ==> !control_char(#[trigger] s@[k]),
        decreases v@.len() - i,
    {
        if is_control(v[i]) {
            assert(control_char(s@[i as int]));
            return true;
        }
        i += 1;
    }
    false
}

/// What is drawn of a cell: its text, where it can be drawn, else a space.
pub open spec fn cell_text(contents: Seq<char>) -> Seq<char> {
    if contents.len() == 0 || has_control(contents) {
        " "@
    } else {
        contents
    }
}

/// How a cell is drawn.
pub open spec fn cell_span(c: CellView) -> SpanView {
    styled(
        cell_text(c.contents),
        Style {
            fg: Some(color_of(c.fg)),
            bg: Some(color_of(c.bg)),
            bold: c.bold,
            italic: c.italic,
            underlined: c.underline,
        },
    )
}

/// What is drawn at a place of the screen.
pub open spec fn place_span(s: ScreenView, row: u16, col: u16) -> SpanView {
    if s.cells.contains_key((row, col)) {
        cell_span(s.cells[(row, col)])
    } else {
        styled(" "@, default_style())
    }
}

/// What is drawn of a screen: its first rows and columns.
pub open spec fn screen_lines(s: ScreenView, rows: u16, cols: u16) -> Seq<Seq<SpanView>> {
    Seq::new(
        rows as nat,
        |r: int| Seq::new(cols as nat, |c: int| place_span(s, r as u16, c as u16)),
    )
}

/// The terminal pane.
#[derive(Debug, PartialEq, Eq)]
pub struct Pane {
    pub area: Area,
    pub title: Span,
    pub border: Color,
    pub inner: Area,
    pub lines: Vec<Vec<Span>>,
    /// Where the cursor is shown: column, then row.
    pub cursor: Option<(u16, u16)>,
}

/// The value of a [`Pane`].
#[verifier::ext_equal]
pub struct PaneView {
    pub area: Area,
    pub title: SpanView,
    pub border: Color,
    pub inner: Area,
    pub lines: Seq<Seq<SpanView>>,
    pub cursor: Option<(u16, u16)>,
}

impl View for Pane {
    type V = PaneView;

    open spec fn view(&self) -> PaneView {
        PaneView {
            area: self.area,
            title: self.title@,
            border: self.border,
            inner: self.inner,
            lines: lines(self.lines@),
            cursor: self.cursor,
        }
    }
}

/// How the pane's title is drawn.
#[verifier::allow_in_spec]
pub fn pane_title_style() -> (s: Style)
    returns
        (Style {
            fg: Some(Color::White),
            bg: None,
            bold: true,
            italic: false,
            underlined: false,
        }),
{
    Style { fg: Some(Color::White), bg: None, bold: true, italic: false, underlined: false }
}

/// The screen of the given size: as it is, where it has that size.
pub open spec fn fitted(s: ScreenView, rows: u16, cols: u16) -> ScreenView {
    if s.rows == rows && s.cols == cols {
        s
    } else {
        s.resized(rows, cols)
    }
}

/// The client once the selected session's screen has the size that it is drawn in.
pub open spec fn pane_synced(a: AppView, area: Area) -> AppView {
    if a.selected < a.sessions.len() {
        let i = a.selected as int;
        let inner = inner_part(area);
        a.with(
            i,
            ClientSessionView {
                screen: fitted(a.sessions[i].screen, inner.height, inner.width),
                ..a.sessions[i]
            },
        )
    } else {
        a
    }
}

/// The terminal pane of a client: the selected session's screen, and its cursor where the keys go
/// there and it lies inside.
pub open spec fn terminal_pane(a: AppView, area: Area) -> Option<PaneView> {
    if a.selected < a.sessions.len() {
        let s = a.sessions[a.selected as int];
        let inner = inner_part(area);
        let shown = fitted(s.screen, inner.height, inner.width);
        let (row, col) = shown.cursor;
        Some(
            PaneView {
                area,
                title: styled(" "@ + s.name + " "@, pane_title_style()),
                border: border_color(a.focus is Terminal),
                inner,
                lines: screen_lines(shown, inner.height, inner.width),
                cursor: if a.focus is Terminal && row < inner.height && col < inner.width {
                    Some(((inner.x + col) as u16, (inner.y + row) as u16))
                } else {
                    None
                },
            },
        )
    } else {
        None
    }
}

/// The value of an optional pane.
pub open spec fn opt_pane(p: Option<Pane>) -> Option<PaneView> {
    match p {
        Some(p) => Some(p@),
        None => None,
    }
}

/// What is drawn at a place of an emulator's screen.
fn draw_place(p: &vt100::Parser, row: u16, col: u16) -> (s: Span)
    requires
        screen(*p).ok(),
    ensures
        s@ == place_span(screen(*p), row, col),
{
    match parser_cell(p, row, col) {
        Some(c) => {
            let blank = c.contents.as_str().unicode_len() == 0 || any_control(c.contents.as_str());
            let style = Style {
                fg: Some(vt100_color(c.fg)),
                bg: Some(vt100_color(c.bg)),
                bold: c.bold,
                italic: c.italic,
                underlined: c.underline,
            };
            if blank {
                span(" ", style)
            } else {
                span(c.contents.as_str(), style)
            }
        },
        None => span(" ", default_style()),
    }
}

/// A row of an emulator's screen.
fn draw_row(p: &vt100::Parser, row: u16, cols: u16) -> (line: Vec<Span>)
    requires
        screen(*p).ok(),
    ensures
        spans(line@) == Seq::new(
            cols as nat,
            |c: int| place_span(screen(*p), row, c as u16),
        ),
{
    let mut line: Vec<Span> = Vec::new();
    let mut col: u16 = 0;
    while col < cols
        invariant
            screen(*p).ok(),
            col <= cols,
            line@.len() == col,
            forall|c: int|
                0 <= c < col ==> (#[trigger] line@[c])@ == place_span(screen(*p), row, c as u16),
        decreases cols - col,
    {
        let s = draw_place(p, row, col);
        line.push(s);
        col += 1;
    }
    assert(spans(line@) =~= Seq::new(cols as nat, |c: int| place_span(screen(*p), row, c as u16)));
    line
}

/// The rows of an emulator's screen.
fn draw_screen(p: &vt100::Parser, rows: u16, cols: u16) -> (r: Vec<Vec<Span>>)
    requires
        screen(*p).ok(),
    ensures
        lines(r@) == screen_lines(screen(*p), rows, cols),
{
    let mut r: Vec<Vec<Span>> = Vec::new();
    let mut row: u16 = 0;
    while row < rows
        invariant
            screen(*p).ok(),
            row <= rows,
            r@.len() == row,
            forall|k: int|
                0 <= k < row ==> spans((#[trigger] r@[k])@) == screen_lines(
                    screen(*p),
                    rows,
                    cols,
                )[k],
        decreases rows - row,
    {
        let line = draw_row(p, row, cols);
        r.push(line);
        row += 1;
    }
    assert(lines(r@) =~= screen_lines(screen(*p), rows, cols));
    r
}

/// Every emulator is left alone, but for that of the selected session, where it does not have the
/// size that it is drawn in.
pub open spec fn emulators_drawn(
    before: Seq<ClientSession>,
    after: Seq<ClientSession>,
    selected: usize,
    inner: Area,
) -> bool {
    &&& after.len() == before.len()
    &&& forall|k: int|
        0 <= k < before.len() && (k != selected || screen_size(before[k].parser) == (
            inner.height,
            inner.width,
        )) ==> (#[trigger] after[k]).parser == before[k].parser
}

/// The terminal pane. The selected session's emulator first gets the size that it is drawn in.
pub fn draw_terminal(app: &mut App, area: Area) -> (r: Option<Pane>)
    requires
        old(app)@.ok(),
        old(app)@.sessions.len() > 0 ==> area.ok() && area.width > 2 && area.height > 2,
    ensures
        final(app)@ == pane_synced(old(app)@, area),
        opt_pane(r) == terminal_pane(old(app)@, area),
        final(app)@.ok(),
        forall|k: int|
            0 <= k < old(app).sessions@.len() && k != old(app).selected ==> (
            #[trigger] final(app).sessions@[k]).parser == old(app).sessions@[k].parser,
        emulators_drawn(
            old(app).sessions@,
            final(app).sessions@,
            old(app).selected,
            inner_part(area),
        ),
{
    if app.selected >= app.sessions.len() {
        return None;
    }
    let i: usize = app.selected;
    let focused = app.focus == Focus::Terminal;
    let inner = inner_area(area);
    let lead = both(" ", app.sessions[i].name.as_str());
    let title = both(lead.as_str(), " ");
    let (rows, cols) = parser_size(&app.sessions[i].parser);
    let ghost s = old(app)@.sessions[i as int];
    assert(s.screen.ok());
    if rows != inner.height || cols != inner.width {
        set_parser_size(&mut app.sessions[i].parser, inner.height, inner.width);
    }
    let ghost shown = fitted(s.screen, inner.height, inner.width);
    proof {
        assert(screen(app.sessions@[i as int].parser) =~= shown);
        assert(app.sessions@[i as int]@ =~= (ClientSessionView { screen: shown, ..s }));
        assert(app@.sessions =~= old(app)@.sessions.update(i as int, app.sessions@[i as int]@));
        assert(app@ =~= pane_synced(old(app)@, area));
    }
    let drawn = draw_screen(&app.sessions[i].parser, inner.height, inner.width);
    let (row, col) = parser_cursor(&app.sessions[i].parser);
    let cursor: Option<(u16, u16)> = if focused && row < inner.height && col < inner.width {
        Some((inner.x + col, inner.y + row))
    } else {
        None
    };
    Some(
        Pane {
            area,
            title: span(title.as_str(), pane_title_style()),
            border: border_color(focused),
            inner,
            lines: drawn,
            cursor,
        },
    )
}

/// All that the client draws.
#[derive(Debug, PartialEq, Eq)]
pub struct Ui {
    pub top: TopBar,
    pub sidebar: Sidebar,
    pub terminal: Option<Pane>,
    pub footer: Placed,
}

/// Draws the client on a screen of 25 columns and 5 rows at least, or of any size where there is
/// no session.
pub fn ui(app: &mut App, full: Area) -> (r: Ui)
    requires
        old(app)@.ok(),
        full.ok(),
        old(app)@.sessions.len() > 0 ==> full.width >= 25 && full.height >= 5,
    ensures
        full.height >= 2 ==> {
            let parts = screen_parts(full);
            let a = old(app)@;
            &&& r.top@ == top_bar(a.sessions.len(), parts.top)
            &&& r.sidebar@ == sidebar(a, parts.sidebar)
            &&& opt_pane(r.terminal) == terminal_pane(a, parts.terminal)
            &&& r.footer@ == (PlacedView {
                area: parts.footer,
                line: footer_line(a, prefix_label()),
            })
            &&& final(app)@ == pane_synced(a, parts.terminal)
            &&& emulators_drawn(
                old(app).sessions@,
                final(app).sessions@,
                old(app).selected,
                inner_part(parts.terminal),
            )
        },
        full.height < 2 ==> {
            let a = old(app)@;
            &&& r.top@ == top_bar(a.sessions.len(), r.top@.left.area)
            &&& r.sidebar@ == sidebar(a, r.sidebar@.area)
            &&& r.terminal is None
            &&& r.footer@.line == footer_line(a, prefix_label())
            &&& r.top@.left.area.inside(full) && r.sidebar@.area.inside(full)
                && r.footer@.area.inside(full)
            &&& final(app)@ == a
        },
        final(app)@.ok(),
{
    let parts = ui_areas(full);
    let top = draw_topbar(app, parts.top);
    let side = draw_sidebar(app, parts.sidebar);
    let footer = Placed { area: parts.footer, line: draw_footer(app) };
    let terminal = draw_terminal(app, parts.terminal);
    Ui { top, sidebar: side, terminal, footer }
}

/// A screen that was drawn keeps the size that it was drawn in: drawn again in the same place, it
/// is left as it is.
pub proof fn law_drawing_twice_changes_nothing(a: AppView, area: Area)
    requires
        a.ok(),
    ensures
        pane_synced(pane_synced(a, area), area) == pane_synced(a, area),
        terminal_pane(pane_synced(a, area), area) == terminal_pane(a, area),
{
    if a.selected < a.sessions.len() {
        let b = pane_synced(a, area);
        let inner = inner_part(area);
        let shown = fitted(a.sessions[a.selected as int].screen, inner.height, inner.width);
        assert(fitted(shown, inner.height, inner.width) == shown);
        assert(b.sessions[a.selected as int].screen == shown);
        assert(pane_synced(b, area) =~= b);
    }
}

/// The selected session's screen has the size that it is drawn in, once it has been drawn, so
/// that every line and every column of it is seen.
pub proof fn law_drawn_screen_fills_pane(a: AppView, area: Area)
    requires
        a.ok(),
        a.sessions.len() > 0,
    ensures
        ({
            let s = pane_synced(a, area).sessions[a.selected as int].screen;
            let inner = inner_part(area);
            s.rows == inner.height && s.cols == inner.width
        }),
{
}

/// A screen made for the pane of a screen of 25 columns and 5 rows at least is drawn there as it
/// is: nothing is cut off and nothing added.
pub proof fn law_screen_of_pane_size_is_not_resized(s: ScreenView, full: Area)
    requires
        full.ok(),
        full.width >= 25,
        full.height >= 5,
        s.cols == pane(full.width, full.height).0,
        s.rows == pane(full.width, full.height).1,
    ensures
        ({
            let inner = inner_part(screen_parts(full).terminal);
            fitted(s, inner.height, inner.width) == s
        }),
{
    law_pane_size_matches_screen(full);
}

/// The sidebar marks the session that the client takes for the selected one.
pub proof fn law_sidebar_marks_selected_session(a: AppView, area: Area)
    requires
        a.ok(),
    ensures
        match sidebar(a, area).selected {
            Some(i) => {
                &&& i < a.sessions.len()
                &&& a.current() == Some(a.sessions[i as int].id)
                &&& sidebar(a, area).items[i as int] == list_item(a.sessions[i as int].name)
            },
            None => a.current() is None,
        },
{
}

/// What the terminal pane shows at a row and a column inside its border is what the selected
/// session's screen has there: the cell's text, where there is any and no control character in it,
/// else one space, in the cell's colours and with its attributes.
pub proof fn law_pane_shows_cell_at_its_place(a: AppView, area: Area, r: int, c: int)
    requires
        a.selected < a.sessions.len(),
        area.ok(),
        0 <= r < area.height - 2,
        0 <= c < area.width - 2,
        a.sessions[a.selected as int].screen.cells.contains_key((r as u16, c as u16)),
    ensures
        ({
            let cell = a.sessions[a.selected as int].screen.cells[(r as u16, c as u16)];
            let plain = cell.contents.len() > 0 && forall|i: int|
                0 <= i < cell.contents.len() ==> {
                    let n = (#[trigger] cell.contents[i]) as int;
                    0x20 <= n <= 0x7e || n >= 0xa0
                };
            &&& terminal_pane(a, area) matches Some(p)
            &&& p.lines.len() == area.height - 2
            &&& p.lines[r].len() == area.width - 2
            &&& plain ==> p.lines[r][c].text == cell.contents
            &&& !plain ==> p.lines[r][c].text == seq![' ']
            &&& p.lines[r][c].style == (Style {
                fg: Some(color_of(cell.fg)),
                bg: Some(color_of(cell.bg)),
                bold: cell.bold,
                italic: cell.italic,
                underlined: cell.underline,
            })
        }),
{
    reveal_strlit(" ");
    assert(" "@ =~= seq![' ']);
    let cell = a.sessions[a.selected as int].screen.cells[(r as u16, c as u16)];
    if has_control(cell.contents) {
        let i = choose|i: int| 0 <= i < cell.contents.len() && control_char(cell.contents[i]);
        assert(control_char(cell.contents[i]));
    } else {
        assert forall|i: int| 0 <= i < cell.contents.len() implies {
            let n = (#[trigger] cell.contents[i]) as int;
            0x20 <= n <= 0x7e || n >= 0xa0
        } by {
            assert(!control_char(cell.contents[i]));
        }
    }
}

/// Where the selected session's screen has no cell, the pane shows a space that is neither bold nor
/// italic nor underlined, in the colours that a text has of which nothing is said.
pub proof fn law_pane_is_blank_where_screen_is(a: AppView, area: Area, r: int, c: int)
    requires
        a.selected < a.sessions.len(),
        area.ok(),
        0 <= r < area.height - 2,
        0 <= c < area.width - 2,
        !a.sessions[a.selected as int].screen.cells.contains_key((r as u16, c as u16)),
    ensures
        ({
            let s = a.sessions[a.selected as int].screen;
            let of_size = s.rows == area.height - 2 && s.cols == area.width - 2;
            &&& terminal_pane(a, area) matches Some(p)
            &&& p.lines[r][c].text == seq![' ']
            &&& p.lines[r][c].style == (Style {
                fg: if of_size {
                    None
                } else {
                    Some(Color::Reset)
                },
                bg: if of_size {
                    None
                } else {
                    Some(Color::Reset)
                },
                bold: false,
                italic: false,
                underlined: false,
            })
        }),
{
    reveal_strlit(" ");
    assert(" "@ =~= seq![' ']);
}

/// The pane stands in the area it is given, with a border of one row and one column on each side,
/// bright where the keys go there, and the selected session's name, between spaces, in bold white
/// for its title.
pub proof fn law_pane_bears_selected_name(a: AppView, area: Area)
    requires
        a.selected < a.sessions.len(),
        area.ok(),
        area.width > 2,
        area.height > 2,
    ensures
        ({
            &&& terminal_pane(a, area) matches Some(p)
            &&& p.area == area
            &&& p.inner.x == area.x + 1 && p.inner.y == area.y + 1
            &&& p.inner.width == area.width - 2 && p.inner.height == area.height - 2
            &&& p.title.text == " "@ + a.sessions[a.selected as int].name + " "@
            &&& p.title.style == (Style {
                fg: Some(Color::White),
                bg: None,
                bold: true,
                italic: false,
                underlined: false,
            })
            &&& a.focus is Terminal ==> p.border is Cyan
            &&& a.focus is Sidebar ==> p.border is DarkGray
        }),
{
}

/// Where no session is selected, there is no pane.
pub proof fn law_no_session_no_pane(a: AppView, area: Area)
    requires
        a.selected >= a.sessions.len(),
    ensures
        terminal_pane(a, area) is None,
        pane_synced(a, area) == a,
{
}

/// The cursor is shown where the screen has it, and only where the keys go to the terminal. One
/// that lies outside the pane is not shown, or, on a screen of another size, at the nearest place
/// inside.
pub proof fn law_cursor_is_shown_at_its_place(a: AppView, area: Area)
    requires
        a.selected < a.sessions.len(),
        area.ok(),
        area.width > 2,
        area.height > 2,
    ensures
        ({
            let s = a.sessions[a.selected as int].screen;
            let (rows, cols) = (area.height - 2, area.width - 2);
            let (row, col) = (s.cursor.0 as int, s.cursor.1 as int);
            &&& terminal_pane(a, area) matches Some(p)
            &&& a.focus is Sidebar ==> p.cursor is None
            &&& a.focus is Terminal && row < rows && col < cols ==> {
                &&& p.cursor matches Some(at)
                &&& at.0 == area.x + 1 + col && at.1 == area.y + 1 + row
            }
            &&& a.focus is Terminal && !(row < rows && col < cols) && s.rows == rows && s.cols
                == cols ==> p.cursor is None
            &&& a.focus is Terminal && !(s.rows == rows && s.cols == cols) ==> {
                &&& p.cursor matches Some(at)
                &&& row >= rows ==> at.1 == area.y + 1 + rows - 1
                &&& row < rows ==> at.1 == area.y + 1 + row
                &&& col >= cols ==> at.0 == area.x + 1 + cols - 1
                &&& col < cols ==> at.0 == area.x + 1 + col
            }
        }),
{
}

/// Drawing changes nothing but the size of the selected session's screen, and that only where it
/// is not the pane's. What both sizes hold stays.
pub proof fn law_drawing_changes_size_only(a: AppView, area: Area, r: u16, c: u16)
    requires
        a.selected < a.sessions.len(),
        area.ok(),
        area.width > 2,
        area.height > 2,
    ensures
        ({
            let b = pane_synced(a, area);
            let i = a.selected as int;
            let (s, t) = (a.sessions[i].screen, b.sessions[i].screen);
            &&& b == (AppView {
                sessions: a.sessions.update(
                    i,
                    ClientSessionView { screen: t, ..a.sessions[i] },
                ),
                ..a
            })
            &&& t.rows == area.height - 2 && t.cols == area.width - 2
            &&& s.rows == area.height - 2 && s.cols == area.width - 2 ==> t == s
            &&& s.cells.contains_key((r, c)) && r < t.rows && c < t.cols
                ==> t.cells.contains_key((r, c)) && t.cells[(r, c)] == s.cells[(r, c)]
        }),
{
}

/// The colours of a cell: the sixteen that have names by their names, in the order of the
/// terminals, the other numbers as they are, true colours as they are, and the default as the
/// default.
pub proof fn law_colors_by_number(n: u8, r: u8, g: u8, b: u8)
    ensures
        ({
            let named = seq![
                Color::Black,
                Color::Red,
                Color::Green,
                Color::Yellow,
                Color::Blue,
                Color::Magenta,
                Color::Cyan,
                Color::Gray,
                Color::DarkGray,
                Color::LightRed,
                Color::LightGreen,
                Color::LightYellow,
                Color::LightBlue,
                Color::LightMagenta,
                Color::LightCyan,
                Color::White,
            ];
            &&& n < 16 ==> color_of(CellColor::Idx(n)) == named[n as int]
            &&& n >= 16 ==> color_of(CellColor::Idx(n)) == Color::Indexed(n)
            &&& color_of(CellColor::Rgb(r, g, b)) == Color::Rgb(r, g, b)
            &&& color_of(CellColor::Default) == Color::Reset
        }),
{
}

/// Once the prefix key has been pressed, the footer names the commands, whatever is typed, and
/// where `Tab` goes.
pub proof fn law_footer_of_commands(a: AppView, p: Seq<char>)
    requires
        a.prefix_mode is Pending,
    ensures
        ({
            let bar = |fg: Color, bold: bool| Style {
                fg: Some(fg),
                bg: Some(Color::Rgb(18, 18, 28)),
                bold,
                italic: false,
                underlined: false,
            };
            let key = |text: Seq<char>| SpanView { text, style: bar(Color::Cyan, false) };
            let say = |text: Seq<char>| SpanView { text, style: bar(Color::DarkGray, false) };
            let warn = |text: Seq<char>| SpanView { text, style: bar(Color::Yellow, true) };
            footer_line(a, p) == seq![
                warn("  ⌨  "@ + p + " "@),
                say("→ "@),
                key("d"@),
                say(": detach   "@),
                key("q"@),
                say(": shutdown   "@),
                key("Tab"@),
                say(
                    if a.focus is Terminal {
                        ": sidebar   "@
                    } else {
                        ": terminal   "@
                    },
                ),
                key(p),
                say(": send prefix   "@),
                key("w"@),
                say(": worktree   "@),
                key("↑/↓"@),
                say(": move session  "@),
            ]
        }),
{
}

/// While something is typed, the footer says what, and how it is confirmed and given up: for a
/// branch before a session's name, and that before the name of a new session.
pub proof fn law_footer_of_typing(a: AppView, p: Seq<char>)
    requires
        a.prefix_mode is Normal,
        a.worktree_mode || a.rename_mode || a.new_mode,
    ensures
        ({
            let bar = |fg: Color, bold: bool| Style {
                fg: Some(fg),
                bg: Some(Color::Rgb(18, 18, 28)),
                bold,
                italic: false,
                underlined: false,
            };
            let key = |text: Seq<char>| SpanView { text, style: bar(Color::Cyan, false) };
            let say = |text: Seq<char>| SpanView { text, style: bar(Color::DarkGray, false) };
            let warn = |text: Seq<char>| SpanView { text, style: bar(Color::Yellow, true) };
            let ending = seq![
                key("Enter"@),
                say(": create   "@),
                key("Esc"@),
                say(": cancel  "@),
            ];
            if a.worktree_mode {
                footer_line(a, p) == seq![
                    say("  "@),
                    warn("worktree branch: "@),
                    say("type branch name  "@),
                ] + ending
            } else if a.rename_mode {
                footer_line(a, p) == seq![
                    say("  "@),
                    key("Esc"@),
                    say(": cancel   "@),
                    key("Enter"@),
                    say(": confirm  "@),
                ]
            } else {
                footer_line(a, p) == seq![
                    say("  "@),
                    warn("new session: "@),
                    say("type session name  "@),
                ] + ending
            }
        }),
{
}

/// At rest, the footer names the keys of the sidebar or those of the terminal, where the keys go.
pub proof fn law_footer_at_rest(a: AppView, p: Seq<char>)
    requires
        a.prefix_mode is Normal,
        !a.worktree_mode && !a.rename_mode && !a.new_mode,
    ensures
        ({
            let bar = |fg: Color, bold: bool| Style {
                fg: Some(fg),
                bg: Some(Color::Rgb(18, 18, 28)),
                bold,
                italic: false,
                underlined: false,
            };
            let key = |text: Seq<char>| SpanView { text, style: bar(Color::Cyan, false) };
            let say = |text: Seq<char>| SpanView { text, style: bar(Color::DarkGray, false) };
            let warn = |text: Seq<char>| SpanView { text, style: bar(Color::Yellow, true) };
            &&& a.focus is Sidebar ==> footer_line(a, p) == seq![
                say("  "@),
                key("j/k"@),
                say(": nav   "@),
                key("n"@),
                say(": new   "@),
                key("r"@),
                say(": rename   "@),
                key("d"@),
                say(": delete   "@),
                key("Enter"@),
                say(": open   "@),
                key(p + " w"@),
                say(": worktree   "@),
                key(p + " d"@),
                say(": detach   "@),
                key(p + " q"@),
                say(": shutdown  "@),
            ]
            &&& a.focus is Terminal ==> footer_line(a, p) == seq![
                say("  "@),
                key(p + " ↑/↓"@),
                say(": switch session   "@),
                key(p + " Tab"@),
                say(": sidebar   "@),
                key(p + " d"@),
                say(": detach   "@),
                key(p + " q"@),
                say(": shutdown   "@),
                key(p + " "@ + p),
                say(": send prefix  "@),
            ]
        }),
{
}

/// The prefix key is written `^B`.
pub proof fn law_prefix_is_named_control_b()
    ensures
        prefix_label() == seq!['^', 'B'],
{
    reveal_strlit("^");
    assert("^"@ + seq!['B'] =~= seq!['^', 'B']);
}

/// The top bar has the program's name over its whole width. The number of sessions stands at its
/// right end, in one row and as wide as it is long, where the bar is wider than that, and else
/// nowhere.
pub proof fn law_top_bar_counts_sessions(n: nat, area: Area)
    requires
        area.ok(),
    ensures
        ({
            let bar = |fg: Color, bold: bool| Style {
                fg: Some(fg),
                bg: Some(Color::Rgb(18, 18, 28)),
                bold,
                italic: false,
                underlined: false,
            };
            let count = "Sessions: "@ + decimal(n) + "  "@;
            let bar_view = top_bar(n, area);
            &&& bar_view.left.area == area
            &&& bar_view.left.line == seq![
                SpanView { text: "  mbulet"@, style: bar(Color::Cyan, true) },
            ]
            &&& area.width <= count.len() ==> bar_view.right is None
            &&& area.width > count.len() ==> {
                &&& bar_view.right matches Some(p)
                &&& p.line == seq![SpanView { text: count, style: bar(Color::DarkGray, false) }]
                &&& p.area.width == count.len() && p.area.height == 1
                &&& p.area.x + p.area.width == area.x + area.width && p.area.y == area.y
            }
        }),
{
}

/// The sidebar lists the sessions in their order, each by its name behind a green dot, marks the
/// selected one with an arrow and in bold white on blue, and has a border that is bright where the
/// keys go there and nothing is typed.
pub proof fn law_sidebar_lists_names(a: AppView, area: Area)
    ensures
        ({
            let bar = |fg: Color, bold: bool| Style {
                fg: Some(fg),
                bg: Some(Color::Rgb(18, 18, 28)),
                bold,
                italic: false,
                underlined: false,
            };
            let side = sidebar(a, area);
            &&& side.items.len() == a.sessions.len()
            &&& forall|k: int|
                0 <= k < a.sessions.len() ==> (#[trigger] side.items[k]) == seq![
                    SpanView { text: " ● "@, style: bar(Color::Green, false) },
                    SpanView { text: a.sessions[k].name, style: bar(Color::White, false) },
                ]
            &&& side.selected == a.list_selected
            &&& side.symbol == "▶ "@
            &&& side.highlight == (Style {
                fg: Some(Color::White),
                bg: Some(Color::Rgb(40, 60, 120)),
                bold: true,
                italic: false,
                underlined: false,
            })
            &&& side.title == (SpanView { text: " sessions "@, style: bar(Color::Cyan, true) })
        }),
{
}

/// While something is typed, the sidebar's last three rows, where there are more than five, hold a
/// box for it, and the list has the others. Else the list has them all, and there is no box.
pub proof fn law_sidebar_makes_room_for_box(a: AppView, area: Area)
    requires
        area.ok(),
    ensures
        ({
            let side = sidebar(a, area);
            let typing = a.rename_mode || a.worktree_mode || a.new_mode;
            &&& side.border is Cyan <==> a.focus is Sidebar && !typing
            &&& side.border is DarkGray <==> a.focus is Terminal || typing
            &&& side.area.x == area.x && side.area.y == area.y && side.area.width == area.width
            &&& !typing || area.height <= 5 ==> side.input is None && side.area.height
                == area.height
            &&& typing && area.height > 5 ==> {
                &&& side.input matches Some(b)
                &&& side.area.height + 3 == area.height
                &&& b.area.height == 3 && b.area.y + 3 == area.y + area.height
                &&& b.area.x == area.x && b.area.width == area.width
            }
        }),
{
}

/// The box shows what is typed with a line behind it for the cursor: a session's name before a
/// branch, and that before the name of a new session.
pub proof fn law_box_shows_what_is_typed(a: AppView, area: Area)
    requires
        area.ok(),
        area.height > 5,
        a.rename_mode || a.worktree_mode || a.new_mode,
    ensures
        ({
            let bar = |fg: Color, bold: bool| Style {
                fg: Some(fg),
                bg: Some(Color::Rgb(18, 18, 28)),
                bold,
                italic: false,
                underlined: false,
            };
            let typed = |label: Seq<char>, color: Color, text: Seq<char>| seq![
                SpanView { text: label, style: bar(color, false) },
                SpanView { text: text + "_"@, style: bar(Color::White, false) },
            ];
            &&& sidebar(a, area).input matches Some(b)
            &&& a.rename_mode ==> {
                &&& b.line == typed("Name: "@, Color::Cyan, a.rename_input)
                &&& b.title is None && b.border is Cyan
            }
            &&& !a.rename_mode && a.worktree_mode ==> {
                &&& b.line == typed("Branch: "@, Color::Yellow, a.worktree_input)
                &&& b.title == Some(
                    SpanView { text: " worktree "@, style: bar(Color::Yellow, false) },
                )
                &&& b.border is Yellow
            }
            &&& !a.rename_mode && !a.worktree_mode ==> {
                &&& b.line == typed("Name: "@, Color::Cyan, a.new_input)
                &&& b.title == Some(
                    SpanView { text: " new session "@, style: bar(Color::Cyan, false) },
                )
                &&& b.border is Cyan
            }
        }),
{
}

/// The value of some lines has each text in its place, in its style.
pub proof fn law_lines_keep_order(v: Seq<Vec<Span>>)
    ensures
        lines(v).len() == v.len(),
        forall|r: int|
            0 <= r < v.len() ==> (#[trigger] lines(v)[r]).len() == v[r]@.len() && forall|c: int|
                0 <= c < v[r]@.len() ==> (#[trigger] lines(v)[r][c]).text == v[r]@[c].text@
                    && lines(v)[r][c].style == v[r]@[c].style,
{
}

} // verus!

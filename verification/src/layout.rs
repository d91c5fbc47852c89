//! Where things stand on the client's screen.
use vstd::prelude::*;

verus! {

/// A rectangle of the screen.
#[derive(Debug, Clone, Copy, PartialEq, Eq, Structural)]
pub struct Area {
    pub x: u16,
    pub y: u16,
    pub width: u16,
    pub height: u16,
}

/// Which way a rectangle is split: into columns or into rows.
#[derive(Debug, Clone, Copy, PartialEq, Eq, Structural)]
pub enum Direction {
    Horizontal,
    Vertical,
}

/// How large a piece of a split is to be: as large as said, or at least so.
#[derive(Debug, Clone, Copy, PartialEq, Eq, Structural)]
pub enum Constraint {
    Length(u16),
    Min(u16),
}

impl Area {
    /// Every place in the rectangle has coordinates that fit.
    pub open spec fn ok(self) -> bool {
        self.x + self.width <= u16::MAX && self.y + self.height <= u16::MAX
    }

    /// The rectangle lies inside `outer`.
    pub open spec fn inside(self, outer: Area) -> bool {
        &&& outer.x <= self.x
        &&& outer.y <= self.y
        &&& self.x + self.width <= outer.x + outer.width
        &&& self.y + self.height <= outer.y + outer.height
    }

    /// How much there is to split.
    pub open spec fn size(self, direction: Direction) -> int {
        match direction {
            Direction::Horizontal => self.width as int,
            Direction::Vertical => self.height as int,
        }
    }

    /// The part of the rectangle that is `size` long, `offset` from its start.
    pub open spec fn part(self, direction: Direction, offset: int, size: int) -> Area {
        match direction {
            Direction::Horizontal => Area {
                x: (self.x + offset) as u16,
                width: size as u16,
                ..self
            },
            Direction::Vertical => Area { y: (self.y + offset) as u16, height: size as u16, ..self },
        }
    }
}

/// The lengths asked for, all together.
pub open spec fn total_length(rules: Seq<Constraint>) -> int
    decreases rules.len(),
{
    if rules.len() == 0 {
        0
    } else {
        let rest = total_length(rules.drop_last());
        match rules.last() {
            Constraint::Length(n) => rest + n,
            Constraint::Min(n) => rest,
        }
    }
}

/// One of at most three pieces takes what the others leave, and what the others ask for leaves no
/// doubt: they fit, or there is only one of them.
pub open spec fn is_determined(rules: Seq<Constraint>, size: int) -> bool {
    &&& rules.len() <= 3
    &&& exists|m: int|
        0 <= m < rules.len() && (#[trigger] rules[m]) == Constraint::Min(0) && forall|k: int|
            0 <= k < rules.len() && k != m ==> (#[trigger] rules[k]) is Length
    &&& total_length(rules) <= size || rules.len() == 2
}

/// The size of a piece.
pub open spec fn share(rules: Seq<Constraint>, size: int, k: int) -> int {
    let asked = match rules[k] {
        Constraint::Length(n) => n as int,
        Constraint::Min(n) => size - total_length(rules),
    };
    if asked < 0 {
        0
    } else if asked > size {
        size
    } else {
        asked
    }
}

/// Where a piece starts, from the start of all.
pub open spec fn offset(rules: Seq<Constraint>, size: int, k: int) -> int
    decreases k,
{
    if k <= 0 {
        0
    } else {
        offset(rules, size, k - 1) + share(rules, size, k - 1)
    }
}

/// `ratatui::layout::Layout::split` splits a rectangle into as many pieces as there are
/// constraints, which lie in it and have its other coordinates. Where all but one of up to three
/// pieces have a length and the other is to be as large as can be, and the lengths fit, the pieces
/// stand one behind the other, have their lengths, and that one has the rest; where there are two
/// pieces, a length that does not fit is cut. What the solver makes of lengths that exclude each
/// other is left unsaid: it walks hash maps whose order differs from run to run.
#[verifier::external_body]
pub(crate) fn split(area: Area, direction: Direction, rules: &Vec<Constraint>) -> (r: Vec<Area>)
    requires
        area.ok(),
    ensures
        r@.len() == rules@.len(),
        forall|k: int|
            0 <= k < r@.len() ==> {
                &&& (#[trigger] r@[k]).inside(area)
                &&& direction is Horizontal ==> r@[k].y == area.y && r@[k].height == area.height
                &&& direction is Vertical ==> r@[k].x == area.x && r@[k].width == area.width
            },
        is_determined(rules@, area.size(direction)) ==> forall|k: int|
            0 <= k < r@.len() ==> (#[trigger] r@[k]) == area.part(
                direction,
                offset(rules@, area.size(direction), k),
                share(rules@, area.size(direction), k),
            ),
{
    let rules = rules.iter().map(|c| match c {
        Constraint::Length(n) => ratatui::layout::Constraint::Length(*n),
        Constraint::Min(n) => ratatui::layout::Constraint::Min(*n),
    });
    let direction = match direction {
        Direction::Horizontal => ratatui::layout::Direction::Horizontal,
        Direction::Vertical => ratatui::layout::Direction::Vertical,
    };
    let area = ratatui::layout::Rect { x: area.x, y: area.y, width: area.width, height: area.height };
    let pieces = ratatui::layout::Layout::default().direction(direction).constraints(rules).split(area);
    pieces.iter().map(|r| Area { x: r.x, y: r.y, width: r.width, height: r.height }).collect()
}

/// `a - b`, or zero where `b` is larger.
pub open spec fn minus(a: u16, b: u16) -> u16 {
    if a < b {
        0
    } else {
        (a - b) as u16
    }
}

/// The size of the terminal pane, without its border, on a screen of the given size: columns,
/// then rows.
pub open spec fn pane(cols: u16, rows: u16) -> (u16, u16) {
    (
        if cols <= 24 {
            1
        } else {
            (cols - 24) as u16
        },
        if rows <= 4 {
            1
        } else {
            (rows - 4) as u16
        },
    )
}

/// The size of the terminal pane on a screen of the given size: what is left of the top bar, the
/// footer, the sidebar and the pane's border, and one column and one row at least.
pub fn pane_size(cols: u16, rows: u16) -> (r: (u16, u16))
    ensures
        r == pane(cols, rows),
{
    let content_rows: u16 = rows.saturating_sub(2);
    let inner_rows: u16 = content_rows.saturating_sub(2);
    let content_cols: u16 = cols.saturating_sub(22);
    let inner_cols: u16 = content_cols.saturating_sub(2);
    let term_rows: u16 = if inner_rows == 0 {
        1
    } else {
        inner_rows
    };
    let term_cols: u16 = if inner_cols == 0 {
        1
    } else {
        inner_cols
    };
    (term_cols, term_rows)
}

/// The parts of the client's screen.
#[derive(Debug, Clone, Copy, PartialEq, Eq, Structural)]
pub struct Screen {
    pub top: Area,
    pub sidebar: Area,
    pub terminal: Area,
    pub footer: Area,
}

/// The parts of a screen of two rows at least: the top bar in the first row, the footer in the
/// last, between them the sidebar, of 22 columns as far as there are so many, and the terminal.
pub open spec fn screen_parts(full: Area) -> Screen {
    let left: u16 = if full.width < 22 {
        full.width
    } else {
        22
    };
    let middle = Area { y: (full.y + 1) as u16, height: (full.height - 2) as u16, ..full };
    Screen {
        top: Area { height: 1, ..full },
        sidebar: Area { width: left, ..middle },
        terminal: Area {
            x: (full.x + left) as u16,
            width: (full.width - left) as u16,
            ..middle
        },
        footer: Area { y: (full.y + full.height - 1) as u16, height: 1, ..full },
    }
}

/// Splits the screen. On a screen of fewer than two rows, top bar and footer exclude each other:
/// which of them has the row is left open.
pub fn ui_areas(full: Area) -> (s: Screen)
    requires
        full.ok(),
    ensures
        full.height >= 2 ==> s == screen_parts(full),
        s.top.inside(full) && s.sidebar.inside(full) && s.terminal.inside(full)
            && s.footer.inside(full),
        s.top.width == full.width && s.footer.width == full.width,
        s.terminal.width == minus(full.width, 22),
{
    let mut rows: Vec<Constraint> = Vec::new();
    rows.push(Constraint::Length(1));
    rows.push(Constraint::Min(0));
    rows.push(Constraint::Length(1));
    let v = split(full, Direction::Vertical, &rows);
    let mut cols: Vec<Constraint> = Vec::new();
    cols.push(Constraint::Length(22));
    cols.push(Constraint::Min(0));
    let h = split(v[1], Direction::Horizontal, &cols);
    proof {
        reveal_with_fuel(total_length, 4);
        reveal_with_fuel(offset, 4);
        assert(rows@[1] == Constraint::Min(0));
        assert(rows@.drop_last().drop_last().drop_last() =~= Seq::<Constraint>::empty());
        assert(total_length(rows@) == 2);
        if full.height >= 2 {
            assert(is_determined(rows@, full.height as int));
        }
        assert(cols@[1] == Constraint::Min(0));
        assert(cols@.drop_last().drop_last() =~= Seq::<Constraint>::empty());
        assert(total_length(cols@) == 22);
        assert(is_determined(cols@, v@[1].width as int));
    }
    Screen { top: v[0], sidebar: h[0], terminal: h[1], footer: v[2] }
}

/// The inside of a rectangle with a border, as far as there is one.
pub open spec fn inner_part(area: Area) -> Area {
    Area {
        x: (area.x + 1) as u16,
        y: (area.y + 1) as u16,
        width: minus(area.width, 2),
        height: minus(area.height, 2),
    }
}

/// The inside of a rectangle with a border.
pub fn inner_area(area: Area) -> (r: Area)
    requires
        area.x < u16::MAX,
        area.y < u16::MAX,
    ensures
        r == inner_part(area),
{
    Area {
        x: area.x + 1,
        y: area.y + 1,
        width: area.width.saturating_sub(2),
        height: area.height.saturating_sub(2),
    }
}

/// The size that the client gives its emulators is the size that the terminal is drawn in, on
/// every screen of 25 columns and 5 rows at least.
pub proof fn law_pane_size_matches_screen(full: Area)
    requires
        full.ok(),
        full.width >= 25,
        full.height >= 5,
    ensures
        ({
            let inner = inner_part(screen_parts(full).terminal);
            pane(full.width, full.height) == (inner.width, inner.height)
        }),
{
}

/// The parts of the screen cover it: every place lies in exactly one of them.
pub proof fn law_parts_cover_screen(full: Area, x: int, y: int)
    requires
        full.ok(),
        full.height >= 2,
        full.x <= x < full.x + full.width,
        full.y <= y < full.y + full.height,
    ensures
        ({
            let s = screen_parts(full);
            let n = |a: Area|
                if a.x <= x < a.x + a.width && a.y <= y < a.y + a.height {
                    1int
                } else {
                    0int
                };
            n(s.top) + n(s.sidebar) + n(s.terminal) + n(s.footer) == 1
        }),
{
}

/// The pane has what the screen has beyond 24 columns and 4 rows, which go to the sidebar, the
/// bars and the border, and one column and one row at least.
pub proof fn law_pane_leaves_room_for_the_rest(cols: u16, rows: u16)
    ensures
        ({
            let p = pane(cols, rows);
            &&& p.0 >= 1 && p.1 >= 1
            &&& cols >= 25 ==> p.0 + 24 == cols
            &&& cols < 25 ==> p.0 == 1
            &&& rows >= 5 ==> p.1 + 4 == rows
            &&& rows < 5 ==> p.1 == 1
        }),
{
}

/// Where the parts of a screen of two rows at least stand.
pub proof fn law_parts_stand_in_their_places(full: Area)
    requires
        full.ok(),
        full.height >= 2,
    ensures
        ({
            let s = screen_parts(full);
            let right = full.x + full.width;
            let bottom = full.y + full.height;
            &&& s.top.x == full.x && s.top.y == full.y && s.top.width == full.width && s.top.height
                == 1
            &&& s.footer.x == full.x && s.footer.y + 1 == bottom && s.footer.width == full.width
                && s.footer.height == 1
            &&& s.sidebar.x == full.x && s.sidebar.y == full.y + 1 && s.sidebar.y + s.sidebar.height
                == bottom - 1
            &&& full.width >= 22 ==> s.sidebar.width == 22
            &&& full.width < 22 ==> s.sidebar.width == full.width
            &&& s.terminal.x == s.sidebar.x + s.sidebar.width && s.terminal.x + s.terminal.width
                == right
            &&& s.terminal.y == full.y + 1 && s.terminal.y + s.terminal.height == bottom - 1
        }),
{
}

/// A border takes one row and one column at each side, and leaves nothing where there are no more.
pub proof fn law_border_is_one_wide(area: Area)
    requires
        area.x < u16::MAX,
        area.y < u16::MAX,
    ensures
        ({
            let i = inner_part(area);
            &&& i.x == area.x + 1 && i.y == area.y + 1
            &&& area.width >= 2 ==> i.x + i.width == area.x + area.width - 1
            &&& area.height >= 2 ==> i.y + i.height == area.y + area.height - 1
            &&& area.width < 2 ==> i.width == 0
            &&& area.height < 2 ==> i.height == 0
        }),
{
}

} // verus!

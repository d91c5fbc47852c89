use mbulet::layout::{inner_area, pane_size, ui_areas, Area};

fn area(x: u16, y: u16, width: u16, height: u16) -> Area {
    Area { x, y, width, height }
}

#[test]
fn pane_is_what_bars_sidebar_and_border_leave() {
    assert_eq!(pane_size(80, 24), (56, 20));
    assert_eq!(pane_size(220, 50), (196, 46));
    assert_eq!(pane_size(25, 5), (1, 1));
    assert_eq!(pane_size(24, 4), (1, 1));
    assert_eq!(pane_size(0, 0), (1, 1));
    assert_eq!(pane_size(u16::MAX, u16::MAX), (65511, 65531));
}

#[test]
fn screen_is_split_into_its_parts() {
    let s = ui_areas(area(0, 0, 80, 24));
    assert_eq!(s.top, area(0, 0, 80, 1));
    assert_eq!(s.sidebar, area(0, 1, 22, 22));
    assert_eq!(s.terminal, area(22, 1, 58, 22));
    assert_eq!(s.footer, area(0, 23, 80, 1));
}

#[test]
fn narrow_and_low_screens_are_split() {
    let s = ui_areas(area(0, 0, 10, 2));
    assert_eq!(s.top, area(0, 0, 10, 1));
    assert_eq!(s.sidebar, area(0, 1, 10, 0));
    assert_eq!(s.terminal, area(10, 1, 0, 0));
    assert_eq!(s.footer, area(0, 1, 10, 1));
}

#[test]
fn split_keeps_the_corner_it_starts_from() {
    let s = ui_areas(area(5, 7, 60, 10));
    assert_eq!(s.top, area(5, 7, 60, 1));
    assert_eq!(s.sidebar, area(5, 8, 22, 8));
    assert_eq!(s.terminal, area(27, 8, 38, 8));
    assert_eq!(s.footer, area(5, 16, 60, 1));
}

#[test]
fn parts_of_a_flat_screen_stay_inside() {
    for height in 0..2u16 {
        let full = area(3, 4, 40, height);
        let s = ui_areas(full);
        for a in [s.top, s.sidebar, s.terminal, s.footer] {
            assert!(a.x >= full.x && a.y >= full.y);
            assert!(a.x + a.width <= full.x + full.width);
            assert!(a.y + a.height <= full.y + full.height);
        }
        assert_eq!(s.terminal.width, 18);
        assert_eq!(s.top.width, 40);
    }
}

#[test]
fn every_place_lies_in_one_part() {
    for (w, h) in [(80, 24), (21, 3), (23, 6), (1, 2)] {
        let s = ui_areas(area(0, 0, w, h));
        for x in 0..w {
            for y in 0..h {
                let n = [s.top, s.sidebar, s.terminal, s.footer]
                    .iter()
                    .filter(|a| a.x <= x && x < a.x + a.width && a.y <= y && y < a.y + a.height)
                    .count();
                assert_eq!(n, 1);
            }
        }
    }
}

#[test]
fn pane_size_is_the_size_drawn() {
    for (w, h) in [(25, 5), (80, 24), (123, 45), (1000, 700), (65535, 65535)] {
        let inner = inner_area(ui_areas(area(0, 0, w, h)).terminal);
        assert_eq!(pane_size(w, h), (inner.width, inner.height));
    }
}

#[test]
fn inside_of_a_border() {
    assert_eq!(inner_area(area(22, 1, 58, 22)), area(23, 2, 56, 20));
    assert_eq!(inner_area(area(0, 0, 1, 0)), area(1, 1, 0, 0));
}

use vtui::{
    AnyWidget, Color, GridH, GridV, IntoWidget, VChar, VTerm, VText, Widget, WithBackground,
    WithBox, WithCenter, WithMargin, WithMax, WithSpacer, SIMPLE_BOX,
};

fn cell_is_empty(c: Option<VChar>) -> bool {
    match c {
        None => true,
        Some(v) => v == VChar::full(' ', Color::Unset, Color::Unset),
    }
}

#[test]
fn cell_at_outside_is_empty_after_assign() {
    let mut w = VText::simple("abcdef").maximized();
    w.try_set_size(4, 2);
    for x in [-3isize, -1, 4, 5, 100] {
        for y in [-2isize, 0, 2, 7] {
            if x < 0 || x >= 4 || y < 0 || y >= 2 {
                assert!(cell_is_empty(w.get(x, y)), "({}, {}) not empty", x, y);
            }
        }
    }
}

#[test]
fn cell_at_outside_is_empty_for_negative_assign() {
    let mut w = VText::simple("abcdef").maximized();
    w.try_set_size(-5, -2);
    for x in -3isize..6 {
        for y in -3isize..6 {
            assert!(cell_is_empty(w.get(x, y)));
        }
    }
}

#[test]
fn text_wraps_hello_world_wide() {
    let mut t = VText::simple("Hello World");
    t.try_set_size(20, 10);
    let (w, h) = t.size();
    assert_eq!((w, h), (11, 1));
    let row: String = (0..11).map(|x| t.get(x, 0).unwrap().ch).collect();
    assert_eq!(row, "Hello World");
}

#[test]
fn text_wraps_hello_world_narrow() {
    // At width six the space still fits after the first word and the
    // second word starts a fresh line.
    let mut t = VText::simple("Hello World");
    t.try_set_size(6, 10);
    let (w, h) = t.size();
    assert_eq!((w, h), (6, 2));
    let row0: String = (0..6).map(|x| t.get(x, 0).unwrap().ch).collect();
    let row1: String = (0..5).map(|x| t.get(x, 1).unwrap().ch).collect();
    assert_eq!(row0, "Hello ");
    assert_eq!(row1, "World");
}

#[test]
fn text_wraps_hello_world_exact_width() {
    // At width five the text wraps to two lines: a segment as wide as the
    // buffer is never broken apart; it overflows its line whole, and the
    // columns past the width render empty.
    let mut t = VText::simple("Hello World");
    t.try_set_size(5, 10);
    let (_, h) = t.size();
    assert_eq!(h, 2);
    let row0: String = (0..5).map(|x| t.get(x, 0).unwrap().ch).collect();
    assert_eq!(row0, "Hello");
    assert_eq!(t.get(1, 1).unwrap().ch, 'W');
    assert_eq!(t.get(4, 1).unwrap().ch, 'l');
    assert!(t.get(5, 1).is_none());
}

#[test]
fn long_word_overflows_without_hyphenation() {
    // A word wider than the buffer stays on one line instead of being
    // split across lines.
    let mut t = VText::simple("abcdef");
    t.try_set_size(3, 10);
    let (w, h) = t.size();
    assert_eq!((w, h), (6, 1));
    assert_eq!(t.get(2, 0).unwrap().ch, 'c');
    assert!(t.get(3, 0).is_none());
}

#[test]
fn text_rewraps_after_width_change() {
    let mut t = VText::simple("one two three");
    t.try_set_size(100, 1);
    let (w1, _) = t.size();
    assert_eq!(w1, 13);
    t.try_set_size(4, 1);
    let (w2, h2) = t.size();
    assert_eq!((w2, h2), (9, 2));
}

#[test]
fn text_write_color_appends_fragment() {
    let mut t = VText::simple("ab");
    t.write_color(String::from("cd"), Color::Red);
    t.try_set_size(10, 1);
    let (w, h) = t.size();
    assert_eq!((w, h), (4, 1));
    assert_eq!(t.get(2, 0).unwrap().foreground, Color::Red);
    t.clear();
    let (w, h) = t.size();
    assert_eq!((w, h), (0, 0));
}

#[test]
fn margin_adds_bands() {
    let mut m = VText::simple("ab").margin(2, 1);
    m.try_set_size(8, 3);
    let (w, h) = m.size();
    assert_eq!((w, h), (6, 3));
    assert!(cell_is_empty(m.get(0, 0)));
    assert_eq!(m.get(2, 1).unwrap().ch, 'a');
    assert_eq!(m.get(3, 1).unwrap().ch, 'b');
}

#[test]
fn margin_composed_twice_equals_double_margin() {
    let mut m1 = VText::simple("xy").margin(1, 1).margin(1, 1);
    let mut m2 = VText::simple("xy").margin(2, 2);
    let (w1, h1) = m1.size();
    let (w2, h2) = m2.size();
    assert_eq!((w1, h1), (w2, h2));
    for x in -1isize..8 {
        for y in -1isize..6 {
            assert_eq!(m1.get(x, y), m2.get(x, y), "differ at ({}, {})", x, y);
        }
    }
}

#[test]
fn center_offsets_child_by_half_slack() {
    let mut c = VText::simple("ab").centered();
    c.try_set_size(6, 3);
    let (w, h) = c.size();
    assert_eq!((w, h), (6, 3));
    assert_eq!(c.get(2, 1).unwrap().ch, 'a');
    assert_eq!(c.get(3, 1).unwrap().ch, 'b');
    assert!(cell_is_empty(c.get(0, 0)));
}

#[test]
fn center_reassignment_is_idempotent() {
    let mut a = VText::simple("hi").centered();
    let mut b = VText::simple("hi").centered();
    a.try_set_size(7, 5);
    b.try_set_size(7, 5);
    b.try_set_size(7, 5);
    for x in 0isize..7 {
        for y in 0isize..5 {
            assert_eq!(a.get(x, y), b.get(x, y));
        }
    }
}

#[test]
fn spacer_fills_out_of_range_with_space() {
    let mut s = VText::simple("a").maximized();
    s.try_set_size(4, 4);
    let (w, h) = s.size();
    assert_eq!((w, h), (4, 4));
    assert_eq!(s.get(3, 3).unwrap().ch, ' ');
    assert_eq!(s.get(0, 0).unwrap().ch, 'a');
}

#[test]
fn vmax_clamps_size() {
    let mut m = VText::simple("abcdef").max_size(3, 1);
    let (w, h) = m.size();
    assert_eq!((w, h), (3, 1));
    assert_eq!(m.get(0, 0).unwrap().ch, 'a');
    assert!(cell_is_empty(m.get(3, 0)));
}

#[test]
fn background_fills_only_unset() {
    let mut b = VText::colored(Color::Red, "a").maximized().with_background(Color::Blue);
    b.try_set_size(2, 1);
    let c0 = b.get(0, 0).unwrap();
    assert_eq!(c0.ch, 'a');
    assert_eq!(c0.foreground, Color::Red);
    assert_eq!(c0.background, Color::Blue);
    let c1 = b.get(1, 0).unwrap();
    assert_eq!(c1.ch, ' ');
    assert_eq!(c1.background, Color::Blue);
    assert!(cell_is_empty(b.get(5, 0)));
}

#[test]
fn vbox_draws_frame() {
    let mut b = VText::simple("x").boxed(SIMPLE_BOX, Color::Yellow);
    let (w, h) = b.size();
    assert_eq!((w, h), (3, 3));
    assert_eq!(b.get(0, 0).unwrap().ch, '*');
    assert_eq!(b.get(1, 0).unwrap().ch, '-');
    assert_eq!(b.get(2, 0).unwrap().ch, '*');
    assert_eq!(b.get(0, 1).unwrap().ch, '|');
    assert_eq!(b.get(1, 1).unwrap().ch, 'x');
    assert_eq!(b.get(2, 2).unwrap().ch, '*');
    assert_eq!(b.get(0, 0).unwrap().foreground, Color::Yellow);
}

#[test]
fn grid_h_divides_evenly_and_leftover_is_empty() {
    let mut g = GridH::new()
        .add(VText::simple("aa").maximized().into_widget())
        .add(VText::simple("bb").maximized().into_widget())
        .add(VText::simple("cc").maximized().into_widget());
    g.try_set_size(10, 1);
    // Each child gets floor(10 / 3) == 3 columns; 3 * 3 + 1 <= 10.
    let (w, h) = g.size();
    assert_eq!((w, h), (9, 1));
    assert_eq!(g.get(0, 0).unwrap().ch, 'a');
    assert_eq!(g.get(3, 0).unwrap().ch, 'b');
    assert_eq!(g.get(6, 0).unwrap().ch, 'c');
    // The dropped remainder renders empty.
    assert!(cell_is_empty(g.get(9, 0)));
    assert!(cell_is_empty(g.get(10, 0)));
}

#[test]
fn grid_v_divides_evenly() {
    let mut g = GridV::new();
    g.push(VText::simple("a").maximized().into_widget());
    g.push(VText::simple("b").maximized().into_widget());
    g.try_set_size(2, 5);
    let (w, h) = g.size();
    assert_eq!((w, h), (2, 4));
    assert_eq!(g.get(0, 0).unwrap().ch, 'a');
    assert_eq!(g.get(0, 2).unwrap().ch, 'b');
    assert!(cell_is_empty(g.get(0, 4)));
}

#[test]
fn empty_grid_is_degenerate() {
    let mut g = GridH::new();
    g.try_set_size(10, 10);
    let (w, h) = g.size();
    assert_eq!((w, h), (0, 0));
    assert!(cell_is_empty(g.get(0, 0)));
}

#[test]
fn vterm_wraps_and_drops_control_chars() {
    let mut t = VTerm::new(4);
    t.write("abcdefg");
    let (w, h) = t.size();
    assert_eq!((w, h), (4, 2));
    assert_eq!(t.get(0, 0).unwrap().ch, 'a');
    assert_eq!(t.get(0, 1).unwrap().ch, 'e');
    let mut u = VTerm::new(10);
    u.write("a\u{1}\u{2}\u{1b}\u{1f}b");
    let (w, h) = u.size();
    assert_eq!((w, h), (10, 1));
    assert_eq!(u.get(1, 0).unwrap().ch, 'b');
    assert!(u.get(2, 0).is_none());
}

#[test]
fn vterm_tab_advances_to_stop() {
    let mut t = VTerm::new(20);
    t.write("ab\tc");
    assert_eq!(t.get(3, 0).unwrap().ch, ' ');
    assert_eq!(t.get(4, 0).unwrap().ch, 'c');
}

#[test]
fn vterm_refuses_width_below_longest_line() {
    let mut t = VTerm::new(10);
    t.write("abcdef");
    t.try_set_size(3, 1);
    let (w, _) = t.size();
    assert_eq!(w, 10);
    t.try_set_size(8, 1);
    let (w, _) = t.size();
    assert_eq!(w, 8);
}

#[test]
fn vterm_single_word_breaks_line() {
    let mut t = VTerm::new(8);
    t.write_single_word_color("abcde", Color::Unset);
    t.write_single_word_color("fghi", Color::Unset);
    let (_, h) = t.size();
    assert_eq!(h, 2);
    assert_eq!(t.get(0, 1).unwrap().ch, 'f');
}

#[test]
fn color_rgb_splits_channels() {
    assert_eq!(Color::rgb(0x123456), Color::Custom(0x12, 0x34, 0x56));
}

#[test]
fn vchar_constructors() {
    let c = VChar::new('x', Color::Red);
    assert_eq!(c.ch, 'x');
    assert_eq!(c.foreground, Color::Red);
    assert_eq!(c.background, Color::Unset);
    let f = VChar::full('y', Color::Blue, Color::Green);
    assert_eq!(f.background, Color::Green);
}

#[test]
fn deep_tree_composes() {
    let inner = GridH::new()
        .add(VText::simple("1").boxed(SIMPLE_BOX, Color::Yellow).into_widget())
        .add(VText::simple("2").boxed(SIMPLE_BOX, Color::Yellow).into_widget());
    let mut root: AnyWidget =
        inner.margin(1, 1).centered().with_background(Color::Cyan).into_widget();
    root.try_set_size(20, 9);
    let (w, h) = root.size();
    assert_eq!((w, h), (20, 9));
    let mut found_one = false;
    for y in 0..9 {
        for x in 0..20 {
            if let Some(c) = root.get(x, y) {
                if c.ch == '1' {
                    found_one = true;
                }
                assert_eq!(c.background, Color::Cyan);
            }
        }
    }
    assert!(found_one);
}

#[test]
fn tidy_trims_and_drops_empty_lines() {
    assert_eq!(vtui::tidy("  a  \n\n\t b\nc "), "\na\nb\nc");
    assert_eq!(vtui::tidy(""), "");
    assert_eq!(vtui::tidy("  \n \t "), "");
    assert_eq!(vtui::tidy("x"), "\nx");
}

#[test]
fn transpose_swaps_axes_and_pads() {
    let rows = vec![
        vec![String::from("a1"), String::from("a2")],
        vec![String::from("b1")],
        vec![String::from("c1"), String::from("c2"), String::from("c3")],
    ];
    let t = vtui::transpose(&rows);
    assert_eq!(t.len(), 3);
    assert_eq!(t[0], vec!["a1", "b1", "c1"]);
    assert_eq!(t[1], vec!["a2", "", "c2"]);
    assert_eq!(t[2], vec!["", "", "c3"]);
}

#[test]
fn vterm_tab_breaks_line_when_overflowing() {
    // At width five a tab from column four would overflow: the line is
    // broken first and a full tab stop is written on the fresh line.
    let mut t = VTerm::new(5);
    t.write("abcd\te");
    let (_, h) = t.size();
    assert_eq!(h, 2);
    assert_eq!(t.get(0, 1).unwrap().ch, ' ');
    assert_eq!(t.get(3, 1).unwrap().ch, ' ');
    assert_eq!(t.get(4, 1).unwrap().ch, 'e');
}

#[test]
fn vterm_tab_policy_is_configurable() {
    let mut t = VTerm::new(20);
    t.set_tab(2, VChar::new('.', Color::Unset));
    t.write("a\tb");
    assert_eq!(t.get(1, 0).unwrap().ch, '.');
    assert_eq!(t.get(2, 0).unwrap().ch, 'b');
}

#[test]
fn string_hash_mixes_characters_and_positions() {
    assert_eq!(vtui::textutil::string_hash(""), 0x11);
    assert_eq!(vtui::textutil::string_hash("AI4"), 0xd27eb31e36476005);
    assert_eq!(vtui::textutil::string_hash("ab"), 0x7fedf7a95655aa02);
    assert_ne!(
        vtui::textutil::string_hash("ab"),
        vtui::textutil::string_hash("ba")
    );
}

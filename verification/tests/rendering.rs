use vtui::{
    render_to_string, AnyWidget, Color, GridH, GridV, IntoWidget, VText, Widget, WithBackground,
    WithBox, WithSpacer, SIMPLE_BOX,
};

#[test]
fn degenerate_frame_renders_empty() {
    let mut root: AnyWidget = VText::simple("").maximized().into_widget();
    root.try_set_size(0, 0);
    assert_eq!(render_to_string(&mut root), "");
    root.try_set_size(-4, -7);
    assert_eq!(render_to_string(&mut root), "");
    root.try_set_size(5, 0);
    assert_eq!(render_to_string(&mut root), "");
    // A buffer holding text but assigned a negative width also shows
    // nothing: degenerate size always renders as the empty string.
    let mut t = vtui::VTerm::new(-3);
    t.write("abc");
    let mut buf_root: AnyWidget = t.into_widget();
    assert_eq!(render_to_string(&mut buf_root), "");
}

#[test]
fn uncolored_frame_is_reset_plus_text() {
    let mut root: AnyWidget = VText::simple("ab").into_widget();
    root.try_set_size(2, 1);
    let s = render_to_string(&mut root);
    assert_eq!(s, "\u{1b}[0m\u{1b}[0mab");
}

#[test]
fn rows_are_newline_separated_without_trailing_newline() {
    let mut t = vtui::VTerm::new(2);
    t.write("abcd");
    let mut root: AnyWidget = t.into_widget();
    let s = render_to_string(&mut root);
    assert_eq!(s, "\u{1b}[0m\u{1b}[0mab\ncd");
}

#[test]
fn color_changes_are_coalesced() {
    // Two adjacent cells of the same foreground emit one escape.
    let mut root: AnyWidget = VText::colored(Color::Red, "ab").into_widget();
    root.try_set_size(2, 1);
    let s = render_to_string(&mut root);
    assert_eq!(s, "\u{1b}[0m\u{1b}[0m\u{1b}[31mab");
}

#[test]
fn background_escape_uses_background_code() {
    let mut root: AnyWidget =
        VText::simple("a").maximized().with_background(Color::Blue).into_widget();
    root.try_set_size(1, 1);
    let s = render_to_string(&mut root);
    assert_eq!(s, "\u{1b}[0m\u{1b}[0m\u{1b}[44ma");
}

#[test]
fn custom_color_renders_rgb_escape() {
    let mut root: AnyWidget = VText::colored(Color::Custom(1, 23, 234), "x").into_widget();
    root.try_set_size(1, 1);
    let s = render_to_string(&mut root);
    assert_eq!(s, "\u{1b}[0m\u{1b}[0m\u{1b}[38;2;1;23;234mx");
}

#[test]
fn palette_color_renders_indexed_escape() {
    let mut root: AnyWidget = VText::colored(Color::Bits8(200), "x").into_widget();
    root.try_set_size(1, 1);
    let s = render_to_string(&mut root);
    assert_eq!(s, "\u{1b}[0m\u{1b}[0m\u{1b}[38;5;200mx");
}

#[test]
fn unfilled_cells_render_as_spaces() {
    let mut g = GridV::new();
    g.push(VText::simple("a").into_widget());
    g.push(VText::simple("bc").into_widget());
    let mut root: AnyWidget = g.into_widget();
    let (w, h) = root.size();
    assert_eq!((w, h), (2, 2));
    let s = render_to_string(&mut root);
    assert_eq!(s, "\u{1b}[0m\u{1b}[0ma \nbc");
}

#[test]
fn theme_constructors_pick_colors() {
    let t = vtui::Theme::solarized();
    assert_eq!(t.error, Color::Custom(0xdc, 0x32, 0x2f));
    let s = vtui::Theme::simple();
    assert_eq!(s.background, Color::Cyan);
    assert_eq!(s.error, Color::Red);
}

#[test]
fn color_escape_strings() {
    assert_eq!(Color::Unset.to_ansi_foreground(), "\u{1b}[0m");
    assert_eq!(Color::Black.to_ansi_foreground(), "\u{1b}[30m");
    assert_eq!(Color::BrightWhite.to_ansi_foreground(), "\u{1b}[97m");
    assert_eq!(Color::Bits8(7).to_ansi_foreground(), "\u{1b}[38;5;7m");
    assert_eq!(Color::Black.to_ansi_background(), "\u{1b}[40m");
    assert_eq!(Color::BrightBlack.to_ansi_background(), "\u{1b}[100m");
    assert_eq!(
        Color::Custom(0, 128, 255).to_ansi_background(),
        "\u{1b}[48;2;0;128;255m"
    );
}

#[test]
fn demo_tree_renders_full_frame() {
    // A tree of boxed texts inside two grid rows, assigned a fixed size:
    // every glyph of the borders and the labels must land somewhere.
    let mut root: AnyWidget = GridV::new()
        .add(
            GridH::new()
                .add(VText::simple("1").boxed(SIMPLE_BOX, Color::BrightYellow).into_widget())
                .add(VText::simple("2").boxed(SIMPLE_BOX, Color::BrightYellow).into_widget())
                .into_widget(),
        )
        .add(
            GridH::new()
                .add(VText::simple("Full").boxed(SIMPLE_BOX, Color::BrightYellow).into_widget())
                .into_widget(),
        )
        .into_widget();
    root.try_set_size(12, 6);
    let s = render_to_string(&mut root);
    assert!(s.contains('1'));
    assert!(s.contains('2'));
    assert!(s.contains("Full"));
    assert!(s.contains('*'));
    assert_eq!(s.matches('\n').count(), 5);
}

//! The frame renderer.
//!
//! Walks a sized widget's cell grid row by row and serializes it into a
//! single ANSI escape stream. The renderer tracks the last emitted
//! foreground and background color and emits a color change only when a
//! cell differs from it; resetting the foreground to the terminal default
//! also resets the background, matching how a terminal treats the reset
//! sequence. Rows are separated by a newline with none after the last
//! row, and a degenerate frame renders as the empty string.

use vstd::prelude::*;
use crate::cell::{Color, VChar, eff_cell};
use crate::model::WView;
use crate::widget::{Widget, AnyWidget};

verus! {

/// The decimal digit character for a value below ten.
pub open spec fn digit(d: u8) -> char {
    ((0x30 + d) as char)
}

/// The decimal digits of a byte, without leading zeros.
pub open spec fn dec_u8(n: u8) -> Seq<char> {
    if n < 10 {
        seq![digit(n)]
    } else if n < 100 {
        seq![digit(n / 10), digit(n % 10)]
    } else {
        seq![digit(n / 100), digit((n / 10) % 10), digit(n % 10)]
    }
}

/// A control sequence: the escape introducer, the code, and the final
/// byte.
pub open spec fn csi(code: Seq<char>) -> Seq<char> {
    seq!['\u{1b}', '['] + code + seq!['m']
}

/// The escape sequence that selects a foreground color. The unset color
/// maps to the full reset, never to black.
pub open spec fn ansi_fg(c: Color) -> Seq<char> {
    match c {
        Color::Unset => csi(seq!['0']),
        Color::Black => csi(seq!['3', '0']),
        Color::Red => csi(seq!['3', '1']),
        Color::Green => csi(seq!['3', '2']),
        Color::Yellow => csi(seq!['3', '3']),
        Color::Blue => csi(seq!['3', '4']),
        Color::Magenta => csi(seq!['3', '5']),
        Color::Cyan => csi(seq!['3', '6']),
        Color::White => csi(seq!['3', '7']),
        Color::BrightBlack => csi(seq!['9', '0']),
        Color::BrightRed => csi(seq!['9', '1']),
        Color::BrightGreen => csi(seq!['9', '2']),
        Color::BrightYellow => csi(seq!['9', '3']),
        Color::BrightBlue => csi(seq!['9', '4']),
        Color::BrightMagenta => csi(seq!['9', '5']),
        Color::BrightCyan => csi(seq!['9', '6']),
        Color::BrightWhite => csi(seq!['9', '7']),
        Color::Bits8(n) => csi(seq!['3', '8', ';', '5', ';'] + dec_u8(n)),
        Color::Custom(r, g, b) => csi(
            seq!['3', '8', ';', '2', ';'] + dec_u8(r) + seq![';'] + dec_u8(g) + seq![';'] + dec_u8(
                b,
            ),
        ),
    }
}

/// The escape sequence that selects a background color.
pub open spec fn ansi_bg(c: Color) -> Seq<char> {
    match c {
        Color::Unset => csi(seq!['0']),
        Color::Black => csi(seq!['4', '0']),
        Color::Red => csi(seq!['4', '1']),
        Color::Green => csi(seq!['4', '2']),
        Color::Yellow => csi(seq!['4', '3']),
        Color::Blue => csi(seq!['4', '4']),
        Color::Magenta => csi(seq!['4', '5']),
        Color::Cyan => csi(seq!['4', '6']),
        Color::White => csi(seq!['4', '7']),
        Color::BrightBlack => csi(seq!['1', '0', '0']),
        Color::BrightRed => csi(seq!['1', '0', '1']),
        Color::BrightGreen => csi(seq!['1', '0', '2']),
        Color::BrightYellow => csi(seq!['1', '0', '3']),
        Color::BrightBlue => csi(seq!['1', '0', '4']),
        Color::BrightMagenta => csi(seq!['1', '0', '5']),
        Color::BrightCyan => csi(seq!['1', '0', '6']),
        Color::BrightWhite => csi(seq!['1', '0', '7']),
        Color::Bits8(n) => csi(seq!['4', '8', ';', '5', ';'] + dec_u8(n)),
        Color::Custom(r, g, b) => csi(
            seq!['4', '8', ';', '2', ';'] + dec_u8(r) + seq![';'] + dec_u8(g) + seq![';'] + dec_u8(
                b,
            ),
        ),
    }
}

/// The text emitted for one cell, together with the colors the renderer
/// tracks afterwards: a foreground change is emitted first (a reset also
/// forgets the background), then a background change (a background reset
/// re-emits the foreground), then the character itself.
pub open spec fn cell_step(fg: Color, bg: Color, c: VChar) -> (Seq<char>, Color, Color) {
    let (s1, fg1, bg1) = if c.foreground != fg {
        (
            ansi_fg(c.foreground),
            c.foreground,
            if c.foreground == Color::Unset {
                Color::Unset
            } else {
                bg
            },
        )
    } else {
        (Seq::empty(), fg, bg)
    };
    let (s2, bg2) = if c.background != bg1 {
        (
            ansi_bg(c.background) + (if c.background == Color::Unset {
                ansi_fg(fg1)
            } else {
                Seq::empty()
            }),
            c.background,
        )
    } else {
        (Seq::<char>::empty(), bg1)
    };
    (s1 + s2 + seq![c.ch], fg1, bg2)
}

/// The emission for the cells of row `y` from column `x` to the frame
/// width, threading the tracked colors.
pub open spec fn row_emit(v: WView, y: int, w: int, x: int, fg: Color, bg: Color) -> (
    Seq<char>,
    Color,
    Color,
)
    decreases w - x,
{
    if x >= w {
        (Seq::empty(), fg, bg)
    } else {
        let (s1, f1, b1) = cell_step(fg, bg, eff_cell(v.cell(x, y)));
        let (s2, f2, b2) = row_emit(v, y, w, x + 1, f1, b1);
        (s1 + s2, f2, b2)
    }
}

/// The emission for the rows from `y` down, separated by newlines, with
/// no newline after the last row.
pub open spec fn rows_emit(v: WView, w: int, h: int, y: int, fg: Color, bg: Color) -> (
    Seq<char>,
    Color,
    Color,
)
    decreases h - y,
{
    if y >= h {
        (Seq::empty(), fg, bg)
    } else {
        let (s1, f1, b1) = row_emit(v, y, w, 0, fg, bg);
        let nl: Seq<char> = if y != h - 1 {
            seq!['\n']
        } else {
            Seq::empty()
        };
        let (s2, f2, b2) = rows_emit(v, w, h, y + 1, f1, b1);
        (s1 + nl + s2, f2, b2)
    }
}

/// The full frame of a widget: empty for a degenerate size, otherwise an
/// initial color reset followed by every cell of every row.
pub open spec fn render_spec(v: WView) -> Seq<char> {
    let w = v.width();
    let h = v.height();
    if w <= 0 || h <= 0 {
        Seq::empty()
    } else {
        ansi_fg(Color::Unset) + ansi_fg(Color::Unset) + rows_emit(v, w, h, 0, Color::Unset, Color::Unset).0
    }
}

/// Relies on `String::from_iter` through `Iterator::collect`: the string
/// of exactly these characters, in order.
#[verifier::external_body]
pub(crate) fn chars_to_string(v: Vec<char>) -> (r: String)
    ensures
        r@ == v@,
{
    v.into_iter().collect()
}

/// The decimal digits of a byte appended to the output.
fn push_dec_u8(out: &mut Vec<char>, n: u8)
    ensures
        final(out)@ == old(out)@ + dec_u8(n),
{
    if n >= 100 {
        out.push(((0x30 + n / 100) as char));
    }
    if n >= 10 {
        out.push(((0x30 + (n / 10) % 10) as char));
    }
    out.push(((0x30 + n % 10) as char));
    proof {
        assert(out@ =~= old(out)@ + dec_u8(n));
    }
}

/// A foreground escape sequence appended to the output.
fn push_ansi_fg(out: &mut Vec<char>, c: Color)
    ensures
        final(out)@ == old(out)@ + ansi_fg(c),
{
    out.push('\u{1b}');
    out.push('[');
    match c {
        Color::Unset => out.push('0'),
        Color::Black => {
            out.push('3');
            out.push('0');
        },
        Color::Red => {
            out.push('3');
            out.push('1');
        },
        Color::Green => {
            out.push('3');
            out.push('2');
        },
        Color::Yellow => {
            out.push('3');
            out.push('3');
        },
        Color::Blue => {
            out.push('3');
            out.push('4');
        },
        Color::Magenta => {
            out.push('3');
            out.push('5');
        },
        Color::Cyan => {
            out.push('3');
            out.push('6');
        },
        Color::White => {
            out.push('3');
            out.push('7');
        },
        Color::BrightBlack => {
            out.push('9');
            out.push('0');
        },
        Color::BrightRed => {
            out.push('9');
            out.push('1');
        },
        Color::BrightGreen => {
            out.push('9');
            out.push('2');
        },
        Color::BrightYellow => {
            out.push('9');
            out.push('3');
        },
        Color::BrightBlue => {
            out.push('9');
            out.push('4');
        },
        Color::BrightMagenta => {
            out.push('9');
            out.push('5');
        },
        Color::BrightCyan => {
            out.push('9');
            out.push('6');
        },
        Color::BrightWhite => {
            out.push('9');
            out.push('7');
        },
        Color::Bits8(n) => {
            out.push('3');
            out.push('8');
            out.push(';');
            out.push('5');
            out.push(';');
            push_dec_u8(out, n);
        },
        Color::Custom(r, g, b) => {
            out.push('3');
            out.push('8');
            out.push(';');
            out.push('2');
            out.push(';');
            push_dec_u8(out, r);
            out.push(';');
            push_dec_u8(out, g);
            out.push(';');
            push_dec_u8(out, b);
        },
    }
    out.push('m');
    proof {
        assert(out@ =~= old(out)@ + ansi_fg(c));
    }
}

/// A background escape sequence appended to the output.
fn push_ansi_bg(out: &mut Vec<char>, c: Color)
    ensures
        final(out)@ == old(out)@ + ansi_bg(c),
{
    out.push('\u{1b}');
    out.push('[');
    match c {
        Color::Unset => out.push('0'),
        Color::Black => {
            out.push('4');
            out.push('0');
        },
        Color::Red => {
            out.push('4');
            out.push('1');
        },
        Color::Green => {
            out.push('4');
            out.push('2');
        },
        Color::Yellow => {
            out.push('4');
            out.push('3');
        },
        Color::Blue => {
            out.push('4');
            out.push('4');
        },
        Color::Magenta => {
            out.push('4');
            out.push('5');
        },
        Color::Cyan => {
            out.push('4');
            out.push('6');
        },
        Color::White => {
            out.push('4');
            out.push('7');
        },
        Color::BrightBlack => {
            out.push('1');
            out.push('0');
            out.push('0');
        },
        Color::BrightRed => {
            out.push('1');
            out.push('0');
            out.push('1');
        },
        Color::BrightGreen => {
            out.push('1');
            out.push('0');
            out.push('2');
        },
        Color::BrightYellow => {
            out.push('1');
            out.push('0');
            out.push('3');
        },
        Color::BrightBlue => {
            out.push('1');
            out.push('0');
            out.push('4');
        },
        Color::BrightMagenta => {
            out.push('1');
            out.push('0');
            out.push('5');
        },
        Color::BrightCyan => {
            out.push('1');
            out.push('0');
            out.push('6');
        },
        Color::BrightWhite => {
            out.push('1');
            out.push('0');
            out.push('7');
        },
        Color::Bits8(n) => {
            out.push('4');
            out.push('8');
            out.push(';');
            out.push('5');
            out.push(';');
            push_dec_u8(out, n);
        },
        Color::Custom(r, g, b) => {
            out.push('4');
            out.push('8');
            out.push(';');
            out.push('2');
            out.push(';');
            push_dec_u8(out, r);
            out.push(';');
            push_dec_u8(out, g);
            out.push(';');
            push_dec_u8(out, b);
        },
    }
    out.push('m');
    proof {
        assert(out@ =~= old(out)@ + ansi_bg(c));
    }
}

impl Color {
    /// The escape sequence that selects this color as the foreground.
    pub fn to_ansi_foreground(&self) -> (r: String)
        ensures
            r@ == ansi_fg(*self),
    {
        let mut out: Vec<char> = Vec::new();
        push_ansi_fg(&mut out, *self);
        proof {
            assert(out@ =~= ansi_fg(*self));
        }
        chars_to_string(out)
    }

    /// The escape sequence that selects this color as the background.
    pub fn to_ansi_background(&self) -> (r: String)
        ensures
            r@ == ansi_bg(*self),
    {
        let mut out: Vec<char> = Vec::new();
        push_ansi_bg(&mut out, *self);
        proof {
            assert(out@ =~= ansi_bg(*self));
        }
        chars_to_string(out)
    }
}

/// One cell's emission: escapes for any color change, then the
/// character; returns the colors the renderer tracks afterwards.
fn emit_cell(out: &mut Vec<char>, fg: Color, bg: Color, vch: VChar) -> (r: (Color, Color))
    ensures
        ({
            let (s, f2, b2) = cell_step(fg, bg, vch);
            final(out)@ == old(out)@ + s && r.0 == f2 && r.1 == b2
        }),
{
    let mut nfg = fg;
    let mut nbg = bg;
    if nfg != vch.foreground {
        nfg = vch.foreground;
        if matches!(nfg, Color::Unset) {
            nbg = Color::Unset;
        }
        push_ansi_fg(out, nfg);
    }
    if nbg != vch.background {
        nbg = vch.background;
        push_ansi_bg(out, nbg);
        if matches!(nbg, Color::Unset) {
            push_ansi_fg(out, nfg);
        }
    }
    out.push(vch.ch);
    proof {
        let (s, f2, b2) = cell_step(fg, bg, vch);
        assert(out@ =~= old(out)@ + s);
    }
    (nfg, nbg)
}

/// One row's emission: every cell from column zero to the frame width.
#[verifier::loop_isolation(false)]
#[verifier::rlimit(100)]
fn render_row(root: &mut AnyWidget, out: &mut Vec<char>, fg: Color, bg: Color, y: isize, w: isize)
    -> (r: (Color, Color))
    requires
        old(root).wf(),
    ensures
        final(root).wf(),
        final(root)@ == old(root)@,
        ({
            let (s, f2, b2) = row_emit(old(root)@, y as int, w as int, 0, fg, bg);
            final(out)@ == old(out)@ + s && r.0 == f2 && r.1 == b2
        }),
{
    let ghost v = old(root)@;
    let ghost base = old(out)@;
    let mut cfg = fg;
    let mut cbg = bg;
    let mut x: isize = 0;
    proof {
        assert(out@ =~= base + Seq::<char>::empty());
    }
    while x < w
        invariant
            0 <= x,
            w > 0 ==> x <= w,
            root.wf(),
            root@ == v,
            row_emit(v, y as int, w as int, 0, fg, bg) == ({
                let (s2, f2, b2) = row_emit(v, y as int, w as int, x as int, cfg, cbg);
                (out@.skip(base.len() as int) + s2, f2, b2)
            }),
            base.len() <= out@.len(),
            out@.take(base.len() as int) == base,
        decreases w - x,
    {
        let ghost out_pre = out@;
        let c = root.get(x, y);
        let vch = match c {
            Option::Some(cc) => cc,
            Option::None => VChar::space(),
        };
        proof {
            assert(vch == eff_cell(v.cell(x as int, y as int)));
        }
        let (f2, b2) = emit_cell(out, cfg, cbg, vch);
        proof {
            let (s, sf, sb) = cell_step(cfg, cbg, vch);
            let (s2, rf, rb) = row_emit(v, y as int, w as int, x + 1, sf, sb);
            assert(row_emit(v, y as int, w as int, x as int, cfg, cbg) == (s + s2, rf, rb));
            assert(out_pre.take(base.len() as int) == base);
            assert(out_pre.take(base.len() as int).len() == base.len());
            assert(base.len() <= out_pre.len());
            assert(out@ == out_pre + s);
            assert(out@.take(base.len() as int) =~= base);
            assert(out@.skip(base.len() as int) =~= out_pre.skip(base.len() as int) + s);
            assert(out_pre.skip(base.len() as int) + (s + s2) =~= out@.skip(base.len() as int)
                + s2);
        }
        cfg = f2;
        cbg = b2;
        x = x + 1;
    }
    proof {
        assert(row_emit(v, y as int, w as int, x as int, cfg, cbg) == (
            Seq::<char>::empty(),
            cfg,
            cbg,
        ));
        assert(out@.skip(base.len() as int) + Seq::<char>::empty() =~= out@.skip(
            base.len() as int,
        ));
        assert(out@ =~= out@.take(base.len() as int) + out@.skip(base.len() as int));
    }
    (cfg, cbg)
}

/// Renders a sized widget to a single frame string: every cell of the
/// widget's box, colors coalesced, rows separated by newlines. A
/// degenerate frame is the empty string.
#[verifier::loop_isolation(false)]
#[verifier::rlimit(100)]
pub fn render_to_string(root: &mut AnyWidget) -> (out: String)
    requires
        old(root).wf(),
    ensures
        final(root).wf(),
        final(root)@ == old(root)@,
        out@ == render_spec(old(root)@),
        old(root)@.width() <= 0 || old(root)@.height() <= 0 ==> out@ == Seq::<char>::empty(),
{
    let ghost v = old(root)@;
    let (w, h) = root.size();
    if w <= 0 || h <= 0 {
        return String::new();
    }
    let mut out: Vec<char> = Vec::new();
    push_ansi_fg(&mut out, Color::Unset);
    push_ansi_fg(&mut out, Color::Unset);
    let mut fg = Color::Unset;
    let mut bg = Color::Unset;
    let ghost prefix = ansi_fg(Color::Unset) + ansi_fg(Color::Unset);
    proof {
        assert(out@ =~= prefix);
        assert(out@.skip(prefix.len() as int) =~= Seq::<char>::empty());
        assert(out@.take(prefix.len() as int) =~= prefix);
        assert(Seq::<char>::empty() + rows_emit(
            v,
            w as int,
            h as int,
            0,
            Color::Unset,
            Color::Unset,
        ).0 =~= rows_emit(v, w as int, h as int, 0, Color::Unset, Color::Unset).0);
    }
    let mut y: isize = 0;
    while y < h
        invariant
            0 <= y <= h,
            root.wf(),
            root@ == v,
            rows_emit(v, w as int, h as int, 0, Color::Unset, Color::Unset) == ({
                let (s2, f2, b2) = rows_emit(v, w as int, h as int, y as int, fg, bg);
                (out@.skip(prefix.len() as int) + s2, f2, b2)
            }),
            prefix.len() <= out@.len(),
            out@.take(prefix.len() as int) == prefix,
        decreases h - y,
    {
        let ghost out_pre = out@;
        let ghost fg0 = fg;
        let ghost bg0 = bg;
        let (f2, b2) = render_row(root, &mut out, fg, bg, y, w);
        fg = f2;
        bg = b2;
        let ghost out_row = out@;
        if y != h - 1 {
            out.push('\n');
        }
        proof {
            let (s1, rf, rb) = row_emit(v, y as int, w as int, 0, fg0, bg0);
            let nl: Seq<char> = if y != h - 1 {
                seq!['\n']
            } else {
                Seq::empty()
            };
            let (s2, f3, b3) = rows_emit(v, w as int, h as int, y + 1, fg, bg);
            assert(rows_emit(v, w as int, h as int, y as int, fg0, bg0) == (s1 + nl + s2, f3, b3));
            assert(out_row =~= out_pre + s1);
            assert(out@ =~= out_row + nl);
            assert(out@.take(prefix.len() as int) =~= prefix);
            assert(out@.skip(prefix.len() as int) =~= out_pre.skip(prefix.len() as int) + s1 + nl);
            assert(out_pre.skip(prefix.len() as int) + (s1 + nl + s2) =~= out@.skip(
                prefix.len() as int,
            ) + s2);
        }
        y = y + 1;
    }
    proof {
        assert(rows_emit(v, w as int, h as int, h as int, fg, bg) == (
            Seq::<char>::empty(),
            fg,
            bg,
        ));
        assert(out@.skip(prefix.len() as int) + Seq::<char>::empty() =~= out@.skip(
            prefix.len() as int,
        ));
        assert(out@ =~= out@.take(prefix.len() as int) + out@.skip(prefix.len() as int));
        assert(out@ =~= prefix + rows_emit(v, w as int, h as int, 0, Color::Unset, Color::Unset).0);
    }
    chars_to_string(out)
}

} // verus!

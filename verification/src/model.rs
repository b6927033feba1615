//! The mathematical model of the widget tree.
//!
//! Every widget value maps to a [`WView`], a ghost tree that fully
//! determines the widget's size negotiation and per-cell output. The
//! executable widgets in [`crate::widget`] are specified against the
//! functions here: `width`/`height` give the reported size, `cell` gives
//! the cell at a coordinate, and `set_size` is the state transformer of a
//! size assignment.

use vstd::prelude::*;
use vstd::utf8::encode_utf8;
use crate::cell::{Color, VChar, eff_cell};
use crate::geom::{sat_i, tdiv, max_i, min_i};

verus! {

/// Hard capacity bound on the text buffer: line count and line length are
/// silently capped here so that counts always fit an `isize` on every
/// machine. The bound is far beyond anything a terminal can show.
pub const LINE_CAP: usize = 0x1000_0000;

/// What the word segmenter returns for a string: the substrings between
/// successive word boundaries, in order. Left uninterpreted; the result
/// depends on the characters alone.
pub uninterp spec fn word_bounds_of(s: Seq<char>) -> Seq<Seq<char>>;

/// Relies on `unicode_segmentation`'s `split_word_bounds`: the substrings
/// of `s` between UAX#29 word boundaries, in order, which depend on the
/// characters of `s` alone.
#[verifier::external_body]
pub fn split_words(s: &str) -> (r: Vec<String>)
    ensures
        r.deep_view() == word_bounds_of(s@),
{
    unicode_segmentation::UnicodeSegmentation::split_word_bounds(s).map(|w| w.to_string()).collect()
}

/// The model of the internal text buffer: a fixed width, a tab policy,
/// and the wrapped lines accumulated so far.
pub struct TermView {
    pub width: int,
    pub tab_size: int,
    pub tab_char: VChar,
    pub lines: Seq<Seq<VChar>>,
}

impl TermView {
    /// A fresh buffer of the given width: no lines, tab stops every four
    /// columns, tabs drawn as plain spaces.
    pub open spec fn init(width: int) -> TermView {
        TermView { width, tab_size: 4, tab_char: VChar::spec_space(), lines: Seq::empty() }
    }

    /// Buffer invariants: the tab policy is sane and the accumulated
    /// lines respect the capacity bound.
    pub open spec fn wf(self) -> bool {
        &&& isize::MIN as int <= self.width <= isize::MAX as int
        &&& 0 <= self.tab_size <= isize::MAX as int
        &&& self.tab_char.ch != '\t'
        &&& self.lines.len() <= LINE_CAP as int
        &&& forall|i: int| 0 <= i < self.lines.len() ==> (#[trigger] self.lines[i]).len() <= LINE_CAP as int
    }

    /// The column the next character would land in.
    pub open spec fn cursor(self) -> int {
        if self.lines.len() == 0 {
            0
        } else {
            self.lines.last().len() as int
        }
    }

    /// Opens a fresh line.
    pub open spec fn newline(self) -> TermView {
        if self.lines.len() >= LINE_CAP as int {
            self
        } else {
            TermView { lines: self.lines.push(Seq::empty()), ..self }
        }
    }

    /// Appends one printable character, wrapping to a fresh line when the
    /// current one is full.
    pub open spec fn put_plain(self, ch: char, color: Color) -> TermView {
        let cellv = VChar { ch, foreground: color, background: Color::Unset };
        let needs_new = self.lines.len() == 0 || (self.width >= 0 && self.lines.last().len()
            >= self.width);
        if needs_new {
            if self.lines.len() >= LINE_CAP as int {
                self
            } else {
                TermView { lines: self.lines.push(seq![cellv]), ..self }
            }
        } else {
            if self.lines.last().len() >= LINE_CAP as int {
                self
            } else {
                TermView {
                    lines: self.lines.update(
                        self.lines.len() - 1,
                        self.lines.last().push(cellv),
                    ),
                    ..self
                }
            }
        }
    }

    /// Writes one character that is not a tab: a newline opens a line,
    /// every other control character below space is silently dropped, and
    /// everything else is appended.
    pub open spec fn put_nontab(self, ch: char, color: Color) -> TermView {
        if ch == '\n' {
            self.newline()
        } else if (ch as int) < 0x20 {
            self
        } else {
            self.put_plain(ch, color)
        }
    }

    /// Writes the tab glyph `n` times.
    pub open spec fn put_repeat(self, n: int) -> TermView
        decreases n,
    {
        if n <= 0 {
            self
        } else {
            self.put_nontab(self.tab_char.ch, self.tab_char.foreground).put_repeat(n - 1)
        }
    }

    /// Writes one character: a tab advances to the next multiple of the
    /// tab-stop width, breaking the line first if the tab would overflow.
    pub open spec fn put(self, ch: char, color: Color) -> TermView {
        if ch == '\t' {
            if self.tab_size <= 0 || self.width == 0 {
                self
            } else {
                let pos = self.cursor();
                let indent = self.tab_size - pos % self.tab_size;
                if pos + indent >= self.width {
                    self.newline().put_repeat(self.tab_size)
                } else {
                    self.put_repeat(indent)
                }
            }
        } else {
            self.put_nontab(ch, color)
        }
    }

    /// Writes a sequence of characters in order.
    pub open spec fn put_seq(self, s: Seq<char>, color: Color) -> TermView
        decreases s.len(),
    {
        if s.len() == 0 {
            self
        } else {
            self.put_seq(s.drop_last(), color).put(s.last(), color)
        }
    }

    /// Appends one printable character to the current line with no regard
    /// for the width: a fresh line is opened only when none exists. This
    /// is how a segment wider than the buffer overflows a single line.
    pub open spec fn put_plain_raw(self, ch: char, color: Color) -> TermView {
        let cellv = VChar { ch, foreground: color, background: Color::Unset };
        if self.lines.len() == 0 {
            TermView { lines: self.lines.push(seq![cellv]), ..self }
        } else {
            if self.lines.last().len() >= LINE_CAP as int {
                self
            } else {
                TermView {
                    lines: self.lines.update(
                        self.lines.len() - 1,
                        self.lines.last().push(cellv),
                    ),
                    ..self
                }
            }
        }
    }

    /// Writes one character of an overflowing segment: a newline still
    /// opens a line, every other control character below space (tabs
    /// included) is dropped, and everything else is appended with no
    /// wrapping.
    pub open spec fn put_raw(self, ch: char, color: Color) -> TermView {
        if ch == '\n' {
            self.newline()
        } else if (ch as int) < 0x20 {
            self
        } else {
            self.put_plain_raw(ch, color)
        }
    }

    /// Writes a sequence of characters with no wrapping, in order.
    pub open spec fn put_seq_raw(self, s: Seq<char>, color: Color) -> TermView
        decreases s.len(),
    {
        if s.len() == 0 {
            self
        } else {
            self.put_seq_raw(s.drop_last(), color).put_raw(s.last(), color)
        }
    }

    /// Writes one word-boundary segment. The line is broken first when
    /// the segment would overflow the current line yet is itself narrower
    /// than the buffer (lengths in encoded bytes, as the segmenter hands
    /// the segments over). A segment at least as wide as the buffer is
    /// never broken apart: it lands on the current line as a whole and
    /// overflows that single line.
    pub open spec fn put_word(self, w: Seq<char>, color: Color) -> TermView {
        if self.width == 0 {
            self
        } else {
            let wl = (encode_utf8(w).len() as usize) as int;
            let brk = self.width > 0 && self.width - self.cursor() % self.width < wl && wl
                < self.width;
            let t1 = if brk {
                self.newline()
            } else {
                self
            };
            if self.width > 0 && wl >= self.width {
                t1.put_seq_raw(w, color)
            } else {
                t1.put_seq(w, color)
            }
        }
    }

    /// Writes a sequence of word-boundary segments in order.
    pub open spec fn put_words(self, words: Seq<Seq<char>>, color: Color) -> TermView
        decreases words.len(),
    {
        if words.len() == 0 {
            self
        } else {
            self.put_words(words.drop_last(), color).put_word(words.last(), color)
        }
    }

    /// Writes a sequence of colored fragments, each split at its word
    /// boundaries.
    pub open spec fn put_frags(self, frags: Seq<(Color, Seq<char>)>) -> TermView
        decreases frags.len(),
    {
        if frags.len() == 0 {
            self
        } else {
            self.put_frags(frags.drop_last()).put_words(
                word_bounds_of(frags.last().1),
                frags.last().0,
            )
        }
    }

    /// The cell at a coordinate: content only inside the reported
    /// `[0,width) x [0,lines)` box, empty everywhere else. A buffer with a
    /// degenerate width shows nothing.
    pub open spec fn cell(self, x: int, y: int) -> Option<VChar> {
        if self.width <= 0 {
            Option::None
        } else if 0 <= y < self.lines.len() && 0 <= x < self.lines[y].len() && x < self.width {
            Option::Some(self.lines[y][x])
        } else {
            Option::None
        }
    }

    /// A width assignment: refused when an already-wrapped line would no
    /// longer fit a non-negative new width.
    pub open spec fn set_width(self, w: int) -> TermView {
        if w >= 0 && exists|i: int| 0 <= i < self.lines.len() && (#[trigger] self.lines[i]).len()
            > w {
            self
        } else {
            TermView { width: w, ..self }
        }
    }

    /// The length of the longest line.
    pub open spec fn max_line_len(self) -> int {
        max_line_of(self.lines)
    }
}

/// The length of the longest line in a sequence of lines, zero when there
/// are none.
pub open spec fn max_line_of(lines: Seq<Seq<VChar>>) -> int
    decreases lines.len(),
{
    if lines.len() == 0 {
        0
    } else {
        max_i(max_line_of(lines.drop_last()), lines.last().len() as int)
    }
}

/// A fragment appended to a text widget's content; other widgets are
/// unchanged.
pub open spec fn text_push(v: WView, color: Color, s: Seq<char>) -> WView {
    match v {
        WView::Text { width, content } => WView::Text { width, content: content.push((color, s)) },
        _ => v,
    }
}

/// A text widget's content emptied; other widgets are unchanged.
pub open spec fn text_clear(v: WView) -> WView {
    match v {
        WView::Text { width, .. } => WView::Text { width, content: Seq::empty() },
        _ => v,
    }
}

/// The laid-out text buffer of a leaf text widget: every fragment written
/// into a fresh buffer of the assigned width, split at word boundaries.
pub open spec fn text_layout(width: int, content: Seq<(Color, Seq<char>)>) -> TermView {
    TermView::init(width).put_frags(content)
}

/// The ghost widget tree: one variant per widget kind.
pub enum WView {
    /// The internal text buffer, used directly as a widget.
    Term(TermView),
    /// A leaf text widget: colored fragments wrapped to the assigned
    /// width on demand.
    Text { width: int, content: Seq<(Color, Seq<char>)> },
    /// Empty columns and rows around a child.
    Margin { dx: int, dy: int, child: Box<WView> },
    /// Centers the child in the assigned box; `cw`/`ch` cache the child's
    /// most recently negotiated size.
    Center { w: int, h: int, cw: int, ch: int, child: Box<WView> },
    /// Stretches to fill the assigned size, padding with empty cells.
    Spacer { w: int, h: int, child: Box<WView> },
    /// Clamps the child to an upper size bound.
    Max { max_w: int, max_h: int, child: Box<WView> },
    /// Fills unset cell backgrounds inside the child's box.
    Back { color: Color, child: Box<WView> },
    /// A one-cell border drawn from a set of nine glyphs.
    Frame { glyphs: Seq<char>, color: Color, child: Box<WView> },
    /// Children side by side, the horizontal extent divided evenly.
    Row { children: Seq<WView> },
    /// Children stacked, the vertical extent divided evenly.
    Col { children: Seq<WView> },
}

impl WView {
    /// Tree height, the termination measure for walks over a widget.
    pub open spec fn depth(self) -> nat
        decreases self,
    {
        match self {
            WView::Term(_) => 0,
            WView::Text { .. } => 0,
            WView::Margin { child, .. } => 1 + child.depth(),
            WView::Center { child, .. } => 1 + child.depth(),
            WView::Spacer { child, .. } => 1 + child.depth(),
            WView::Max { child, .. } => 1 + child.depth(),
            WView::Back { child, .. } => 1 + child.depth(),
            WView::Frame { child, .. } => 1 + child.depth(),
            WView::Row { children } => 1 + seq_depth(children),
            WView::Col { children } => 1 + seq_depth(children),
        }
    }

    /// Well-formedness: stored sizes fit the machine word, margins are
    /// non-negative, a border has its nine glyphs, and the cached child
    /// size of a centering node is current.
    pub open spec fn wf(self) -> bool
        decreases self,
    {
        match self {
            WView::Term(t) => t.wf(),
            WView::Text { width, .. } => isize::MIN as int <= width <= isize::MAX as int,
            WView::Margin { dx, dy, child } => {
                &&& 0 <= dx <= isize::MAX as int
                &&& 0 <= dy <= isize::MAX as int
                &&& child.wf()
            },
            WView::Center { w, h, cw, ch, child } => {
                &&& isize::MIN as int <= w <= isize::MAX as int
                &&& isize::MIN as int <= h <= isize::MAX as int
                &&& cw == child.width()
                &&& ch == child.height()
                &&& child.wf()
            },
            WView::Spacer { w, h, child } => {
                &&& isize::MIN as int <= w <= isize::MAX as int
                &&& isize::MIN as int <= h <= isize::MAX as int
                &&& child.wf()
            },
            WView::Max { max_w, max_h, child } => {
                &&& isize::MIN as int <= max_w <= isize::MAX as int
                &&& isize::MIN as int <= max_h <= isize::MAX as int
                &&& child.wf()
            },
            WView::Back { child, .. } => child.wf(),
            WView::Frame { glyphs, child, .. } => glyphs.len() == 9 && child.wf(),
            WView::Row { children } => forall|i: int|
                0 <= i < children.len() ==> (#[trigger] children[i]).wf(),
            WView::Col { children } => forall|i: int|
                0 <= i < children.len() ==> (#[trigger] children[i]).wf(),
        }
    }

    /// The width the widget reports.
    pub open spec fn width(self) -> int
        decreases self,
    {
        match self {
            WView::Term(t) => t.width,
            WView::Text { width, content } => sat_i(text_layout(width, content).max_line_len()),
            WView::Margin { dx, child, .. } => sat_i(child.width() + 2 * dx),
            WView::Center { w, cw, .. } => max_i(cw, w),
            WView::Spacer { w, child, .. } => max_i(child.width(), w),
            WView::Max { max_w, child, .. } => min_i(child.width(), max_w),
            WView::Back { child, .. } => child.width(),
            WView::Frame { child, .. } => sat_i(child.width() + 2),
            WView::Row { children } => row_width(children),
            WView::Col { children } => col_width(children),
        }
    }

    /// The height the widget reports.
    pub open spec fn height(self) -> int
        decreases self,
    {
        match self {
            WView::Term(t) => t.lines.len() as int,
            WView::Text { width, content } => text_layout(width, content).lines.len() as int,
            WView::Margin { dy, child, .. } => sat_i(child.height() + 2 * dy),
            WView::Center { h, ch, .. } => max_i(ch, h),
            WView::Spacer { h, child, .. } => max_i(child.height(), h),
            WView::Max { max_h, child, .. } => min_i(child.height(), max_h),
            WView::Back { child, .. } => child.height(),
            WView::Frame { child, .. } => sat_i(child.height() + 2),
            WView::Row { children } => row_height(children),
            WView::Col { children } => col_height(children),
        }
    }

    /// The cell at a coordinate, relative to the widget's own origin.
    pub open spec fn cell(self, x: int, y: int) -> Option<VChar>
        decreases self, 1int,
    {
        match self {
            WView::Term(t) => t.cell(x, y),
            WView::Text { width, content } => text_layout(width, content).cell(x, y),
            WView::Margin { dx, dy, child } => {
                let w = self.width();
                let h = self.height();
                if x < 0 || y < 0 || x >= w || y >= h {
                    Option::None
                } else if dx <= x < w - dx && dy <= y < h - dy {
                    Option::Some(eff_cell(child.cell(x - dx, y - dy)))
                } else {
                    Option::Some(VChar::spec_space())
                }
            },
            WView::Center { w, h, cw, ch, child } => {
                let hx = tdiv_z(sat_i(w - cw), 2);
                let hy = tdiv_z(sat_i(h - ch), 2);
                Option::Some(eff_cell(child.cell(sat_i(x - hx), sat_i(y - hy))))
            },
            WView::Spacer { child, .. } => Option::Some(eff_cell(child.cell(x, y))),
            WView::Max { child, .. } => {
                if x < 0 || y < 0 || x >= self.width() || y >= self.height() {
                    Option::None
                } else {
                    child.cell(x, y)
                }
            },
            WView::Back { color, child } => match child.cell(x, y) {
                Option::None => Option::None,
                Option::Some(c) => {
                    if 0 <= x < child.width() && 0 <= y < child.height() && c.background
                        == Color::Unset {
                        Option::Some(VChar { background: color, ..c })
                    } else {
                        Option::Some(c)
                    }
                },
            },
            WView::Frame { glyphs, color, child } => {
                let w = self.width();
                let h = self.height();
                if x < 0 || y < 0 || x >= w || y >= h {
                    Option::None
                } else {
                    let xi: int = if x == 0 {
                        0
                    } else if x == w - 1 {
                        2
                    } else {
                        1
                    };
                    let yi: int = if y == 0 {
                        0
                    } else if y == h - 1 {
                        2
                    } else {
                        1
                    };
                    if xi == 1 && yi == 1 {
                        Option::Some(eff_cell(child.cell(x - 1, y - 1)))
                    } else {
                        Option::Some(
                            VChar {
                                ch: glyphs[yi * 3 + xi],
                                foreground: color,
                                background: Color::Unset,
                            },
                        )
                    }
                }
            },
            WView::Row { children } => row_cell(children, x, y),
            WView::Col { children } => col_cell(children, x, y),
        }
    }

    /// The state after a size assignment.
    pub open spec fn set_size(self, w: int, h: int) -> WView
        decreases self,
    {
        match self {
            WView::Term(t) => WView::Term(t.set_width(w)),
            WView::Text { content, .. } => WView::Text { width: w, content },
            WView::Margin { dx, dy, child } => WView::Margin {
                dx,
                dy,
                child: Box::new(child.set_size(sat_i(w - 2 * dx), sat_i(h - 2 * dy))),
            },
            WView::Center { child, .. } => {
                let c2 = child.set_size(w, h);
                WView::Center { w, h, cw: c2.width(), ch: c2.height(), child: Box::new(c2) }
            },
            WView::Spacer { child, .. } => WView::Spacer {
                w,
                h,
                child: Box::new(child.set_size(w, h)),
            },
            WView::Max { max_w, max_h, child } => WView::Max {
                max_w,
                max_h,
                child: Box::new(child.set_size(min_i(max_w, w), min_i(max_h, h))),
            },
            WView::Back { color, child } => WView::Back {
                color,
                child: Box::new(child.set_size(w, h)),
            },
            WView::Frame { glyphs, color, child } => WView::Frame {
                glyphs,
                color,
                child: Box::new(child.set_size(sat_i(w - 2), sat_i(h - 2))),
            },
            WView::Row { children } => {
                if children.len() == 0 {
                    self
                } else {
                    WView::Row {
                        children: set_all(children, tdiv(w, sat_i(children.len() as int)), h),
                    }
                }
            },
            WView::Col { children } => {
                if children.len() == 0 {
                    self
                } else {
                    WView::Col {
                        children: set_all(children, w, tdiv(h, sat_i(children.len() as int))),
                    }
                }
            },
        }
    }
}

/// The widths of a sequence of children, summed without saturation.
pub open spec fn sum_widths(cs: Seq<WView>) -> int
    decreases cs,
{
    if cs.len() == 0 {
        0
    } else {
        sum_widths(cs.drop_last()) + cs.last().width()
    }
}

/// The heights of a sequence of children, summed without saturation.
pub open spec fn sum_heights(cs: Seq<WView>) -> int
    decreases cs,
{
    if cs.len() == 0 {
        0
    } else {
        sum_heights(cs.drop_last()) + cs.last().height()
    }
}

impl WView {
    /// A laid-out tree: every centering node has been assigned at least
    /// its child's natural size, and grid children occupy non-negative
    /// extents whose true sum fits the machine word. Under these
    /// conditions every out-of-range cell query is empty.
    pub open spec fn laid_out(self) -> bool
        decreases self,
    {
        match self {
            WView::Term(_) => true,
            WView::Text { .. } => true,
            WView::Margin { child, .. } => child.laid_out(),
            WView::Center { w, h, cw, ch, child } => w >= cw && h >= ch && child.laid_out(),
            WView::Spacer { child, .. } => child.laid_out(),
            WView::Max { child, .. } => child.laid_out(),
            WView::Back { child, .. } => child.laid_out(),
            WView::Frame { child, .. } => child.laid_out(),
            WView::Row { children } => {
                &&& forall|i: int| 0 <= i < children.len() ==> (#[trigger] children[i]).laid_out()
                &&& forall|i: int| 0 <= i < children.len() ==> (#[trigger] children[i]).width() >= 0
                &&& sum_widths(children) <= isize::MAX as int
            },
            WView::Col { children } => {
                &&& forall|i: int| 0 <= i < children.len() ==> (#[trigger] children[i]).laid_out()
                &&& forall|i: int| 0 <= i < children.len() ==> (#[trigger] children[i]).height()
                    >= 0
                &&& sum_heights(children) <= isize::MAX as int
            },
        }
    }
}

/// Truncating division, total in the divisor: zero divisor gives zero.
/// Grid division always uses a positive divisor; centering divides by two.
pub open spec fn tdiv_z(a: int, b: int) -> int {
    if b <= 0 {
        0
    } else {
        tdiv(a, b)
    }
}

/// The tallest subtree among a sequence of children.
pub open spec fn seq_depth(cs: Seq<WView>) -> nat
    decreases cs,
{
    if cs.len() == 0 {
        0
    } else {
        let rest = seq_depth(cs.drop_last());
        let last = cs.last().depth();
        if rest >= last {
            rest
        } else {
            last
        }
    }
}

/// Horizontal extent of a row: the children's widths summed left to
/// right, each step saturating.
pub open spec fn row_width(cs: Seq<WView>) -> int
    decreases cs,
{
    if cs.len() == 0 {
        0
    } else {
        sat_i(row_width(cs.drop_last()) + cs.last().width())
    }
}

/// Vertical extent of a row: the tallest child.
pub open spec fn row_height(cs: Seq<WView>) -> int
    decreases cs,
{
    if cs.len() == 0 {
        0
    } else {
        max_i(row_height(cs.drop_last()), cs.last().height())
    }
}

/// Horizontal extent of a column: the widest child.
pub open spec fn col_width(cs: Seq<WView>) -> int
    decreases cs,
{
    if cs.len() == 0 {
        0
    } else {
        max_i(col_width(cs.drop_last()), cs.last().width())
    }
}

/// Vertical extent of a column: the children's heights summed, each step
/// saturating.
pub open spec fn col_height(cs: Seq<WView>) -> int
    decreases cs,
{
    if cs.len() == 0 {
        0
    } else {
        sat_i(col_height(cs.drop_last()) + cs.last().height())
    }
}

/// A row's cell walk: children consume horizontal extent in order; the
/// first child whose extent has not been exceeded answers.
pub open spec fn row_cell(cs: Seq<WView>, x: int, y: int) -> Option<VChar>
    decreases cs,
{
    if cs.len() == 0 {
        Option::None
    } else if x < cs[0].width() {
        cs[0].cell(x, y)
    } else {
        row_cell(cs.skip(1), sat_i(x - cs[0].width()), y)
    }
}

/// A column's cell walk, the vertical counterpart of [`row_cell`].
pub open spec fn col_cell(cs: Seq<WView>, x: int, y: int) -> Option<VChar>
    decreases cs,
{
    if cs.len() == 0 {
        Option::None
    } else if y < cs[0].height() {
        cs[0].cell(x, y)
    } else {
        col_cell(cs.skip(1), x, sat_i(y - cs[0].height()))
    }
}

/// Every child assigned the same size, in order.
pub open spec fn set_all(cs: Seq<WView>, w: int, h: int) -> Seq<WView>
    decreases cs,
{
    if cs.len() == 0 {
        Seq::empty()
    } else {
        set_all(cs.drop_last(), w, h).push(cs.last().set_size(w, h))
    }
}

/// `set_all` preserves length and acts pointwise.
pub proof fn lemma_set_all_index(cs: Seq<WView>, w: int, h: int, i: int)
    requires
        0 <= i < cs.len(),
    ensures
        set_all(cs, w, h).len() == cs.len(),
        set_all(cs, w, h)[i] == cs[i].set_size(w, h),
    decreases cs.len(),
{
    lemma_set_all_len(cs, w, h);
    lemma_set_all_len(cs.drop_last(), w, h);
    if i == cs.len() - 1 {
    } else {
        lemma_set_all_index(cs.drop_last(), w, h, i);
        assert(cs.drop_last()[i] == cs[i]);
    }
}

/// `set_all` preserves length.
pub proof fn lemma_set_all_len(cs: Seq<WView>, w: int, h: int)
    ensures
        set_all(cs, w, h).len() == cs.len(),
    decreases cs.len(),
{
    if cs.len() > 0 {
        lemma_set_all_len(cs.drop_last(), w, h);
    }
}

/// A child is never taller than the tallest subtree of its sequence.
pub proof fn lemma_seq_depth_elem(cs: Seq<WView>, i: int)
    requires
        0 <= i < cs.len(),
    ensures
        cs[i].depth() <= seq_depth(cs),
    decreases cs.len(),
{
    if i == cs.len() - 1 {
    } else {
        lemma_seq_depth_elem(cs.drop_last(), i);
        assert(cs.drop_last()[i] == cs[i]);
    }
}

/// A well-formed widget reports a size in the machine range.
pub proof fn lemma_dims_in_range(v: WView)
    requires
        v.wf(),
    ensures
        isize::MIN as int <= v.width() <= isize::MAX as int,
        isize::MIN as int <= v.height() <= isize::MAX as int,
    decreases v,
{
    match v {
        WView::Term(t) => {
            lemma_lines_cap_fits(t.lines.len() as int);
        },
        WView::Text { width, content } => {
            lemma_text_layout_wf(width, content);
            lemma_lines_cap_fits(text_layout(width, content).lines.len() as int);
        },
        WView::Margin { child, .. } => lemma_dims_in_range(*child),
        WView::Center { child, .. } => lemma_dims_in_range(*child),
        WView::Spacer { child, .. } => lemma_dims_in_range(*child),
        WView::Max { child, .. } => lemma_dims_in_range(*child),
        WView::Back { child, .. } => lemma_dims_in_range(*child),
        WView::Frame { child, .. } => lemma_dims_in_range(*child),
        WView::Row { children } => {
            lemma_row_dims_in_range(children);
        },
        WView::Col { children } => {
            lemma_col_dims_in_range(children);
        },
    }
}

/// The capacity bound fits the machine range.
pub proof fn lemma_lines_cap_fits(n: int)
    requires
        0 <= n <= LINE_CAP as int,
    ensures
        isize::MIN as int <= n <= isize::MAX as int,
{
    assert(LINE_CAP as int <= isize::MAX as int);
}

/// Row extents of well-formed children stay in the machine range.
pub proof fn lemma_row_dims_in_range(cs: Seq<WView>)
    requires
        forall|i: int| 0 <= i < cs.len() ==> (#[trigger] cs[i]).wf(),
    ensures
        isize::MIN as int <= row_width(cs) <= isize::MAX as int,
        isize::MIN as int <= row_height(cs) <= isize::MAX as int,
    decreases cs,
{
    if cs.len() > 0 {
        assert(forall|i: int|
            0 <= i < cs.drop_last().len() ==> (#[trigger] cs.drop_last()[i]).wf());
        lemma_row_dims_in_range(cs.drop_last());
        lemma_dims_in_range(cs.last());
    }
}

/// Column extents of well-formed children stay in the machine range.
pub proof fn lemma_col_dims_in_range(cs: Seq<WView>)
    requires
        forall|i: int| 0 <= i < cs.len() ==> (#[trigger] cs[i]).wf(),
    ensures
        isize::MIN as int <= col_width(cs) <= isize::MAX as int,
        isize::MIN as int <= col_height(cs) <= isize::MAX as int,
    decreases cs,
{
    if cs.len() > 0 {
        assert(forall|i: int|
            0 <= i < cs.drop_last().len() ==> (#[trigger] cs.drop_last()[i]).wf());
        lemma_col_dims_in_range(cs.drop_last());
        lemma_dims_in_range(cs.last());
    }
}

/// Writing characters never touches the width or the tab policy, and
/// keeps the buffer well formed.
pub proof fn lemma_put_wf(t: TermView, ch: char, color: Color)
    requires
        t.wf(),
    ensures
        t.put(ch, color).wf(),
        t.put(ch, color).width == t.width,
        t.put(ch, color).tab_size == t.tab_size,
        t.put(ch, color).tab_char == t.tab_char,
{
    lemma_put_nontab_wf(t, ch, color);
    if ch == '\t' && t.tab_size > 0 && t.width != 0 {
        let pos = t.cursor();
        let indent = t.tab_size - pos % t.tab_size;
        lemma_newline_wf(t);
        lemma_put_repeat_wf(t.newline(), t.tab_size);
        lemma_put_repeat_wf(t, indent);
    }
}

/// Opening a line keeps the buffer well formed.
pub proof fn lemma_newline_wf(t: TermView)
    requires
        t.wf(),
    ensures
        t.newline().wf(),
        t.newline().width == t.width,
        t.newline().tab_size == t.tab_size,
        t.newline().tab_char == t.tab_char,
{
}

/// Writing a non-tab character keeps the buffer well formed.
pub proof fn lemma_put_nontab_wf(t: TermView, ch: char, color: Color)
    requires
        t.wf(),
    ensures
        t.put_nontab(ch, color).wf(),
        t.put_nontab(ch, color).width == t.width,
        t.put_nontab(ch, color).tab_size == t.tab_size,
        t.put_nontab(ch, color).tab_char == t.tab_char,
{
}

/// Writing the tab glyph repeatedly keeps the buffer well formed.
pub proof fn lemma_put_repeat_wf(t: TermView, n: int)
    requires
        t.wf(),
    ensures
        t.put_repeat(n).wf(),
        t.put_repeat(n).width == t.width,
        t.put_repeat(n).tab_size == t.tab_size,
        t.put_repeat(n).tab_char == t.tab_char,
    decreases n,
{
    if n > 0 {
        lemma_put_nontab_wf(t, t.tab_char.ch, t.tab_char.foreground);
        lemma_put_repeat_wf(t.put_nontab(t.tab_char.ch, t.tab_char.foreground), n - 1);
    }
}

/// Writing an unwrapped character keeps the buffer well formed.
pub proof fn lemma_put_raw_wf(t: TermView, ch: char, color: Color)
    requires
        t.wf(),
    ensures
        t.put_raw(ch, color).wf(),
        t.put_raw(ch, color).width == t.width,
        t.put_raw(ch, color).tab_size == t.tab_size,
        t.put_raw(ch, color).tab_char == t.tab_char,
{
}

/// Writing an unwrapped character sequence keeps the buffer well formed.
pub proof fn lemma_put_seq_raw_wf(t: TermView, s: Seq<char>, color: Color)
    requires
        t.wf(),
    ensures
        t.put_seq_raw(s, color).wf(),
        t.put_seq_raw(s, color).width == t.width,
        t.put_seq_raw(s, color).tab_size == t.tab_size,
        t.put_seq_raw(s, color).tab_char == t.tab_char,
    decreases s.len(),
{
    if s.len() > 0 {
        lemma_put_seq_raw_wf(t, s.drop_last(), color);
        lemma_put_raw_wf(t.put_seq_raw(s.drop_last(), color), s.last(), color);
    }
}

/// Writing a character sequence keeps the buffer well formed.
pub proof fn lemma_put_seq_wf(t: TermView, s: Seq<char>, color: Color)
    requires
        t.wf(),
    ensures
        t.put_seq(s, color).wf(),
        t.put_seq(s, color).width == t.width,
        t.put_seq(s, color).tab_size == t.tab_size,
        t.put_seq(s, color).tab_char == t.tab_char,
    decreases s.len(),
{
    if s.len() > 0 {
        lemma_put_seq_wf(t, s.drop_last(), color);
        lemma_put_wf(t.put_seq(s.drop_last(), color), s.last(), color);
    }
}

/// Writing a word segment keeps the buffer well formed.
pub proof fn lemma_put_word_wf(t: TermView, w: Seq<char>, color: Color)
    requires
        t.wf(),
    ensures
        t.put_word(w, color).wf(),
        t.put_word(w, color).width == t.width,
        t.put_word(w, color).tab_size == t.tab_size,
        t.put_word(w, color).tab_char == t.tab_char,
{
    if t.width != 0 {
        lemma_newline_wf(t);
        lemma_put_seq_wf(t.newline(), w, color);
        lemma_put_seq_wf(t, w, color);
        lemma_put_seq_raw_wf(t.newline(), w, color);
        lemma_put_seq_raw_wf(t, w, color);
    }
}

/// Writing a sequence of word segments keeps the buffer well formed.
pub proof fn lemma_put_words_wf(t: TermView, words: Seq<Seq<char>>, color: Color)
    requires
        t.wf(),
    ensures
        t.put_words(words, color).wf(),
        t.put_words(words, color).width == t.width,
        t.put_words(words, color).tab_size == t.tab_size,
        t.put_words(words, color).tab_char == t.tab_char,
    decreases words.len(),
{
    if words.len() > 0 {
        lemma_put_words_wf(t, words.drop_last(), color);
        lemma_put_word_wf(t.put_words(words.drop_last(), color), words.last(), color);
    }
}

/// Writing fragments keeps the buffer well formed.
pub proof fn lemma_put_frags_wf(t: TermView, frags: Seq<(Color, Seq<char>)>)
    requires
        t.wf(),
    ensures
        t.put_frags(frags).wf(),
        t.put_frags(frags).width == t.width,
        t.put_frags(frags).tab_size == t.tab_size,
        t.put_frags(frags).tab_char == t.tab_char,
    decreases frags.len(),
{
    if frags.len() > 0 {
        lemma_put_frags_wf(t, frags.drop_last());
        lemma_put_words_wf(
            t.put_frags(frags.drop_last()),
            word_bounds_of(frags.last().1),
            frags.last().0,
        );
    }
}

/// The laid-out buffer of a text widget is well formed and keeps the
/// assigned width.
pub proof fn lemma_text_layout_wf(width: int, content: Seq<(Color, Seq<char>)>)
    requires
        isize::MIN as int <= width <= isize::MAX as int,
    ensures
        text_layout(width, content).wf(),
        text_layout(width, content).width == width,
        text_layout(width, content).tab_size == 4,
        text_layout(width, content).tab_char == VChar::spec_space(),
{
    lemma_put_frags_wf(TermView::init(width), content);
}

/// The per-child extent of an even grid division stays in range.
pub proof fn lemma_grid_avg_in_range(total: int, n: int)
    requires
        isize::MIN as int <= total <= isize::MAX as int,
        n >= 1,
    ensures
        isize::MIN as int <= tdiv(total, sat_i(n)) <= isize::MAX as int,
{
    let d = sat_i(n);
    assert(d >= 1);
    if total >= 0 {
        vstd::arithmetic::div_mod::lemma_div_pos_is_pos(total, d);
        vstd::arithmetic::div_mod::lemma_div_nonincreasing(total, d);
    } else {
        vstd::arithmetic::div_mod::lemma_div_pos_is_pos(-total, d);
        vstd::arithmetic::div_mod::lemma_div_nonincreasing(-total, d);
    }
}

} // verus!

//! The widget protocol and every widget kind.
//!
//! A widget reports a natural size, accepts an assigned size, and answers
//! per-cell queries; the three operations are specified exactly against
//! the ghost model in [`crate::model`]. Combinators own their children
//! through the closed [`AnyWidget`] sum, so a tree is always exclusively
//! owned and walks terminate.

use vstd::prelude::*;
use crate::cell::{Color, VChar, eff_cell};
use crate::geom::{
    sat_i,
    tdiv,
    sat_add,
    sat_sub,
    div_trunc,
    max_is,
    min_is,
    usize_to_isize_sat,
    lemma_sat_chain,
};
use crate::model::{
    LINE_CAP,
    TermView,
    WView,
    word_bounds_of,
    split_words,
    text_layout,
    row_width,
    row_height,
    col_width,
    col_height,
    row_cell,
    col_cell,
    set_all,
    max_line_of,
    lemma_set_all_index,
    lemma_set_all_len,
    lemma_seq_depth_elem,
    lemma_put_wf,
    lemma_put_seq_wf,
    lemma_put_word_wf,
    lemma_put_words_wf,
    lemma_put_nontab_wf,
    lemma_newline_wf,
    lemma_text_layout_wf,
    text_push,
    text_clear,
};

verus! {

broadcast use vstd::std_specs::vec::axiom_vec_decreases_to_view;

/// Relies on `str::chars` collected by `Iterator::collect`: the
/// characters of `s`, in order.
#[verifier::external_body]
pub(crate) fn str_chars(s: &str) -> (r: Vec<char>)
    ensures
        r@ == s@,
{
    s.chars().collect()
}

/// The default wrapping width of a fresh text widget, before any size is
/// assigned.
pub const DEFAULT_WIDTH: isize = 80;

/// The views of a sequence of widgets, in order.
pub open spec fn views_of(cs: Seq<AnyWidget>) -> Seq<WView>
    decreases cs,
{
    if cs.len() == 0 {
        Seq::empty()
    } else {
        views_of(cs.drop_last()).push(cs.last()@)
    }
}

/// `views_of` preserves length.
pub proof fn lemma_views_of_len(cs: Seq<AnyWidget>)
    ensures
        views_of(cs).len() == cs.len(),
    decreases cs.len(),
{
    if cs.len() > 0 {
        lemma_views_of_len(cs.drop_last());
        assert(views_of(cs) == views_of(cs.drop_last()).push(cs.last()@));
    } else {
        assert(views_of(cs) == Seq::<WView>::empty());
    }
}

/// `views_of` acts pointwise.
pub proof fn lemma_views_of_index(cs: Seq<AnyWidget>, i: int)
    requires
        0 <= i < cs.len(),
    ensures
        views_of(cs).len() == cs.len(),
        views_of(cs)[i] == cs[i]@,
    decreases cs.len(),
{
    lemma_views_of_len(cs);
    lemma_views_of_len(cs.drop_last());
    assert(views_of(cs) == views_of(cs.drop_last()).push(cs.last()@));
    if i == cs.len() - 1 {
        assert(views_of(cs)[i] == cs.last()@);
    } else {
        lemma_views_of_index(cs.drop_last(), i);
        assert(views_of(cs)[i] == views_of(cs.drop_last())[i]);
        assert(cs.drop_last()[i] == cs[i]);
    }
}

/// Two widget sequences with pointwise equal views have equal view
/// sequences.
pub proof fn lemma_views_of_eq(a: Seq<AnyWidget>, b: Seq<AnyWidget>)
    requires
        a.len() == b.len(),
        forall|j: int| 0 <= j < a.len() ==> (#[trigger] a[j])@ == b[j]@,
    ensures
        views_of(a) == views_of(b),
    decreases a.len(),
{
    if a.len() > 0 {
        assert(forall|j: int|
            0 <= j < a.drop_last().len() ==> (#[trigger] a.drop_last()[j])@ == b.drop_last()[j]@);
        lemma_views_of_eq(a.drop_last(), b.drop_last());
        assert(a.last()@ == b.last()@);
    } else {
        assert(views_of(a) =~= views_of(b));
    }
}

/// A well-formed widget has a well-formed view.
pub proof fn lemma_wf_view(c: &AnyWidget)
    requires
        c.wf(),
    ensures
        c@.wf(),
{
    match c {
        AnyWidget::Term(v) => {},
        AnyWidget::Text(v) => {},
        AnyWidget::Margin(v) => {},
        AnyWidget::Center(v) => {},
        AnyWidget::Spacer(v) => {},
        AnyWidget::Max(v) => {},
        AnyWidget::Background(v) => {},
        AnyWidget::Frame(v) => {},
        AnyWidget::GridH(v) => {},
        AnyWidget::GridV(v) => {},
    }
}

/// The rows of the text buffer as ghost sequences.
pub open spec fn rows_view(lines: Seq<Vec<VChar>>) -> Seq<Seq<VChar>> {
    Seq::new(lines.len(), |i: int| lines[i]@)
}

/// The fragments of a text widget as ghost pairs.
pub open spec fn frags_view(content: Seq<(Color, String)>) -> Seq<(Color, Seq<char>)> {
    Seq::new(content.len(), |i: int| (content[i].0, content[i].1@))
}

/// The effective cell behind an optional cell, as executable code.
fn eff_or_space(c: Option<VChar>) -> (r: VChar)
    ensures
        r == eff_cell(c),
{
    match c {
        Option::Some(v) => v,
        Option::None => VChar::space(),
    }
}

/// The widget protocol. Every layout node reports a size, accepts an
/// assigned size, and answers per-cell queries; each operation is pinned
/// to the ghost model of the node's view.
pub trait Widget: View<V = WView> + Sized {
    /// The node's invariants, including those of the subtree it owns.
    spec fn wf(&self) -> bool;

    /// The size the widget would occupy. Querying may trigger lazy
    /// layout, but never changes what the widget shows.
    fn size(&mut self) -> (r: (isize, isize))
        requires
            old(self).wf(),
        ensures
            final(self).wf(),
            final(self)@ == old(self)@,
            r.0 as int == old(self)@.width(),
            r.1 as int == old(self)@.height(),
    ;

    /// Assigns the space the widget will be rendered into. A size smaller
    /// than the content truncates visually; no input panics.
    fn try_set_size(&mut self, w: isize, h: isize)
        requires
            old(self).wf(),
        ensures
            final(self).wf(),
            final(self)@ == old(self)@.set_size(w as int, h as int),
    ;

    /// The cell at a coordinate relative to the widget's own origin, or
    /// nothing where the widget shows nothing.
    fn get(&mut self, x: isize, y: isize) -> (r: Option<VChar>)
        requires
            old(self).wf(),
        ensures
            final(self).wf(),
            final(self)@ == old(self)@,
            r == old(self)@.cell(x as int, y as int),
    ;
}

// ---------------------------------------------------------------------
// The internal text buffer.
// ---------------------------------------------------------------------

/// The internal text buffer of the leaf text widget: wrapped lines of
/// colored characters, with a tab policy. Usable as a widget directly.
pub struct VTerm {
    width: isize,
    lines: Vec<Vec<VChar>>,
    tab_size: isize,
    tab_char: VChar,
}

impl View for VTerm {
    type V = WView;

    closed spec fn view(&self) -> WView {
        WView::Term(self.term_view())
    }
}

impl VTerm {
    /// The buffer's model.
    pub closed spec fn term_view(&self) -> TermView {
        TermView {
            width: self.width as int,
            tab_size: self.tab_size as int,
            tab_char: self.tab_char,
            lines: rows_view(self.lines@),
        }
    }

    /// A fresh buffer of the given width.
    pub fn new(width: isize) -> (r: VTerm)
        ensures
            r.wf(),
            r@ == WView::Term(TermView::init(width as int)),
    {
        let r = VTerm {
            width,
            lines: Vec::new(),
            tab_size: 4,
            tab_char: VChar::space(),
        };
        proof {
            assert(rows_view(r.lines@) =~= Seq::<Seq<VChar>>::empty());
        }
        r
    }

    /// Configures the tab policy: the tab-stop width and the glyph drawn
    /// for each tab cell. The glyph may not itself be a tab.
    pub fn set_tab(&mut self, size: isize, glyph: VChar)
        requires
            old(self).wf(),
            size >= 0,
            glyph.ch != '\t',
        ensures
            final(self).wf(),
            final(self).term_view() == (TermView {
                tab_size: size as int,
                tab_char: glyph,
                ..old(self).term_view()
            }),
    {
        self.tab_size = size;
        self.tab_char = glyph;
    }

    /// Opens a fresh line.
    fn push_line(&mut self)
        requires
            old(self).wf(),
        ensures
            final(self).wf(),
            final(self).term_view() == old(self).term_view().newline(),
    {
        proof {
            lemma_newline_wf(old(self).term_view());
        }
        if self.lines.len() >= LINE_CAP {
            return ;
        }
        let l: Vec<VChar> = Vec::new();
        self.lines.push(l);
        proof {
            assert(rows_view(self.lines@) =~= rows_view(old(self).lines@).push(
                Seq::<VChar>::empty(),
            ));
        }
    }

    /// Writes one character that is not a tab.
    fn write_char_nontab(&mut self, ch: char, color: Color)
        requires
            old(self).wf(),
            ch != '\t',
        ensures
            final(self).wf(),
            final(self).term_view() == old(self).term_view().put_nontab(ch, color),
    {
        proof {
            lemma_put_nontab_wf(old(self).term_view(), ch, color);
        }
        if ch == '\n' {
            self.push_line();
            return ;
        }
        if (ch as u32) < 0x20 {
            return ;
        }
        let cellv = VChar { ch, foreground: color, background: Color::Unset };
        let n = self.lines.len();
        let needs_new: bool = if n == 0 {
            true
        } else {
            self.width >= 0 && self.lines[n - 1].len() >= (self.width as usize)
        };
        if needs_new {
            if n >= LINE_CAP {
                return ;
            }
            let mut l: Vec<VChar> = Vec::new();
            l.push(cellv);
            self.lines.push(l);
            proof {
                assert(rows_view(self.lines@) =~= rows_view(old(self).lines@).push(seq![cellv]));
            }
        } else {
            if self.lines[n - 1].len() >= LINE_CAP {
                return ;
            }
            self.lines[n - 1].push(cellv);
            proof {
                assert(rows_view(self.lines@) =~= rows_view(old(self).lines@).update(
                    n - 1,
                    rows_view(old(self).lines@).last().push(cellv),
                ));
            }
        }
    }

    /// Writes one character of an overflowing segment, with no wrapping.
    fn write_char_raw(&mut self, ch: char, color: Color)
        requires
            old(self).wf(),
        ensures
            final(self).wf(),
            final(self).term_view() == old(self).term_view().put_raw(ch, color),
    {
        proof {
            crate::model::lemma_put_raw_wf(old(self).term_view(), ch, color);
        }
        if ch == '\n' {
            self.push_line();
            return ;
        }
        if (ch as u32) < 0x20 {
            return ;
        }
        let cellv = VChar { ch, foreground: color, background: Color::Unset };
        let n = self.lines.len();
        if n == 0 {
            let mut l: Vec<VChar> = Vec::new();
            l.push(cellv);
            self.lines.push(l);
            proof {
                assert(rows_view(self.lines@) =~= rows_view(old(self).lines@).push(seq![cellv]));
            }
        } else {
            if self.lines[n - 1].len() >= LINE_CAP {
                return ;
            }
            self.lines[n - 1].push(cellv);
            proof {
                assert(rows_view(self.lines@) =~= rows_view(old(self).lines@).update(
                    n - 1,
                    rows_view(old(self).lines@).last().push(cellv),
                ));
            }
        }
    }

    /// Writes every character of an overflowing segment onto the current
    /// line, with no wrapping.
    #[verifier::loop_isolation(false)]
    fn write_segment_raw(&mut self, content: &str, color: Color)
        requires
            old(self).wf(),
        ensures
            final(self).wf(),
            final(self).term_view() == old(self).term_view().put_seq_raw(content@, color),
    {
        let cs = str_chars(content);
        let ghost start = self.term_view();
        let n = cs.len();
        let mut i: usize = 0;
        while i < n
            invariant
                0 <= i <= n,
                n == cs@.len(),
                cs@ == content@,
                self.term_view().wf(),
                self.term_view() == start.put_seq_raw(cs@.take(i as int), color),
            decreases n - i,
        {
            proof {
                crate::model::lemma_put_seq_raw_wf(start, cs@.take(i as int), color);
                assert(cs@.take(i + 1).drop_last() =~= cs@.take(i as int));
                assert(cs@.take(i + 1).last() == cs@[i as int]);
            }
            self.write_char_raw(cs[i], color);
            i = i + 1;
        }
        proof {
            assert(cs@.take(n as int) =~= content@);
        }
    }

    /// Writes one character: newline and tab are interpreted, other
    /// control characters below space are dropped.
    #[verifier::loop_isolation(false)]
    pub fn write_char_color(&mut self, ch: char, color: Color)
        requires
            old(self).wf(),
        ensures
            final(self).wf(),
            final(self).term_view() == old(self).term_view().put(ch, color),
    {
        proof {
            lemma_put_wf(old(self).term_view(), ch, color);
        }
        if ch != '\t' {
            self.write_char_nontab(ch, color);
            return ;
        }
        if self.tab_size == 0 || self.width == 0 {
            return ;
        }
        let ts: usize = self.tab_size as usize;
        let n = self.lines.len();
        let pos: usize = if n == 0 {
            0
        } else {
            self.lines[n - 1].len()
        };
        let ind: usize = ts - pos % ts;
        let over: bool = self.width < 0 || pos + ind >= (self.width as usize);
        let tc = self.tab_char;
        let reps: usize = if over {
            self.push_line();
            ts
        } else {
            ind
        };
        let ghost start = self.term_view();
        let ghost total = reps as int;
        let mut i: usize = 0;
        while i < reps
            invariant
                0 <= i <= reps,
                self.term_view().wf(),
                self.term_view().tab_char == tc,
                self.term_view().tab_size == start.tab_size,
                self.term_view().width == start.width,
                start.put_repeat(total) == self.term_view().put_repeat(total - i),
                total == reps as int,
            decreases reps - i,
        {
            proof {
                lemma_put_nontab_wf(self.term_view(), tc.ch, tc.foreground);
            }
            self.write_char_nontab(tc.ch, tc.foreground);
            i = i + 1;
        }
        proof {
            assert(self.term_view().put_repeat(0) == self.term_view());
        }
    }

    /// Writes a cell's character in its foreground color.
    pub fn write_vchar(&mut self, ch: VChar)
        requires
            old(self).wf(),
        ensures
            final(self).wf(),
            final(self).term_view() == old(self).term_view().put(ch.ch, ch.foreground),
    {
        self.write_char_color(ch.ch, ch.foreground);
    }

    /// Writes every character of a string in the given color.
    #[verifier::loop_isolation(false)]
    pub fn write_color(&mut self, content: &str, color: Color)
        requires
            old(self).wf(),
        ensures
            final(self).wf(),
            final(self).term_view() == old(self).term_view().put_seq(content@, color),
    {
        let cs = str_chars(content);
        let ghost start = self.term_view();
        let n = cs.len();
        let mut i: usize = 0;
        while i < n
            invariant
                0 <= i <= n,
                n == cs@.len(),
                cs@ == content@,
                self.term_view().wf(),
                self.term_view() == start.put_seq(cs@.take(i as int), color),
            decreases n - i,
        {
            proof {
                lemma_put_seq_wf(start, cs@.take(i as int), color);
                assert(cs@.take(i + 1).drop_last() =~= cs@.take(i as int));
                assert(cs@.take(i + 1).last() == cs@[i as int]);
            }
            self.write_char_color(cs[i], color);
            i = i + 1;
        }
        proof {
            assert(cs@.take(n as int) =~= content@);
        }
    }

    /// Writes every character of a string, uncolored.
    pub fn write(&mut self, content: &str)
        requires
            old(self).wf(),
        ensures
            final(self).wf(),
            final(self).term_view() == old(self).term_view().put_seq(content@, Color::Unset),
    {
        self.write_color(content, Color::Unset);
    }

    /// Writes one word segment in the given color. The line is broken
    /// first when the segment would overflow it yet is narrower than the
    /// buffer; a segment at least as wide as the buffer is never broken
    /// apart but overflows its line whole.
    pub fn write_single_word_color(&mut self, content: &str, color: Color)
        requires
            old(self).wf(),
        ensures
            final(self).wf(),
            final(self).term_view() == old(self).term_view().put_word(content@, color),
    {
        proof {
            lemma_put_word_wf(old(self).term_view(), content@, color);
        }
        if self.width == 0 {
            return ;
        }
        let ghost t0 = old(self).term_view();
        let word_len = content.len();
        if self.width > 0 {
            let wu = self.width as usize;
            let n = self.lines.len();
            let pos: usize = if n == 0 {
                0
            } else {
                self.lines[n - 1].len()
            };
            proof {
                assert(pos as int == t0.cursor());
                assert(pos as int % (wu as int) == t0.cursor() % t0.width);
            }
            let space_left = wu - pos % wu;
            if space_left < word_len && word_len < wu {
                self.write_char_color('\n', color);
                proof {
                    assert(self.term_view() == t0.newline());
                }
            } else {
                proof {
                    assert(self.term_view() == t0);
                }
            }
        }
        if self.width > 0 && word_len >= (self.width as usize) {
            self.write_segment_raw(content, color);
        } else {
            self.write_color(content, color);
        }
    }

    /// Writes one word segment, uncolored.
    pub fn write_single_word(&mut self, content: &str)
        requires
            old(self).wf(),
        ensures
            final(self).wf(),
            final(self).term_view() == old(self).term_view().put_word(content@, Color::Unset),
    {
        self.write_single_word_color(content, Color::Unset);
    }

    /// Splits a string at word boundaries and writes each segment in the
    /// given color, word-wrapping at the buffer width.
    #[verifier::loop_isolation(false)]
    pub fn write_words_color(&mut self, content: &str, color: Color)
        requires
            old(self).wf(),
        ensures
            final(self).wf(),
            final(self).term_view() == old(self).term_view().put_words(
                word_bounds_of(content@),
                color,
            ),
    {
        let words = split_words(content);
        let ghost start = self.term_view();
        let ghost ws = words.deep_view();
        let n = words.len();
        let mut i: usize = 0;
        while i < n
            invariant
                0 <= i <= n,
                n == words@.len(),
                ws == words.deep_view(),
                ws == word_bounds_of(content@),
                self.term_view().wf(),
                self.term_view() == start.put_words(ws.take(i as int), color),
            decreases n - i,
        {
            proof {
                lemma_put_words_wf(start, ws.take(i as int), color);
                assert(ws.take(i + 1).drop_last() =~= ws.take(i as int));
                assert(ws.take(i + 1).last() == ws[i as int]);
                assert(words@[i as int].deep_view() == ws[i as int]);
            }
            self.write_single_word_color(words[i].as_str(), color);
            i = i + 1;
        }
        proof {
            assert(ws.take(n as int) =~= ws);
        }
    }

    /// Splits a string at word boundaries and writes it, uncolored.
    pub fn write_words(&mut self, content: &str)
        requires
            old(self).wf(),
        ensures
            final(self).wf(),
            final(self).term_view() == old(self).term_view().put_words(
                word_bounds_of(content@),
                Color::Unset,
            ),
    {
        self.write_words_color(content, Color::Unset);
    }

    /// The cell at a coordinate, reading the wrapped lines.
    fn cell_at(&self, x: isize, y: isize) -> (r: Option<VChar>)
        requires
            self.wf(),
        ensures
            r == self.term_view().cell(x as int, y as int),
    {
        if self.width <= 0 {
            return Option::None;
        }
        if x < 0 || y < 0 || x >= self.width {
            return Option::None;
        }
        let yu = y as usize;
        let xu = x as usize;
        if yu >= self.lines.len() {
            return Option::None;
        }
        if xu >= self.lines[yu].len() {
            return Option::None;
        }
        Option::Some(self.lines[yu][xu])
    }

    /// The length of the longest wrapped line.
    #[verifier::loop_isolation(false)]
    fn longest_line(&self) -> (r: isize)
        requires
            self.wf(),
        ensures
            r as int == sat_i(max_line_of(self.term_view().lines)),
    {
        let ghost rows = self.term_view().lines;
        let n = self.lines.len();
        let mut acc: usize = 0;
        let mut i: usize = 0;
        while i < n
            invariant
                0 <= i <= n,
                n == self.lines@.len(),
                acc as int == max_line_of(rows.take(i as int)),
            decreases n - i,
        {
            proof {
                assert(rows.take(i + 1).drop_last() =~= rows.take(i as int));
                assert(rows.take(i + 1).last() == rows[i as int]);
                assert(rows[i as int] == self.lines@[i as int]@);
            }
            let ll = self.lines[i].len();
            if ll > acc {
                acc = ll;
            }
            i = i + 1;
        }
        proof {
            assert(rows.take(n as int) =~= rows);
        }
        usize_to_isize_sat(acc)
    }

    /// How many lines the buffer holds.
    fn line_count(&self) -> (r: isize)
        requires
            self.wf(),
        ensures
            r as int == self.term_view().lines.len(),
    {
        let n = self.lines.len();
        proof {
            assert(LINE_CAP as int <= isize::MAX as int);
        }
        n as isize
    }
}

/// A text buffer's view is exactly its buffer model: this connects the
/// write contracts, which speak of `term_view`, to the widget protocol,
/// which speaks of the view.
pub proof fn lemma_vterm_view(t: &VTerm)
    ensures
        t@ == WView::Term(t.term_view()),
{
}

impl Widget for VTerm {
    open spec fn wf(&self) -> bool {
        self@.wf()
    }

    fn size(&mut self) -> (r: (isize, isize)) {
        let h = self.line_count();
        (self.width, h)
    }

    #[verifier::loop_isolation(false)]
    fn try_set_size(&mut self, w: isize, _h: isize) {
        let ghost start = self.term_view();
        if w >= 0 {
            let wu = w as usize;
            let n = self.lines.len();
            let mut i: usize = 0;
            while i < n
                invariant
                    0 <= i <= n,
                    n == self.lines@.len(),
                    self == old(self),
                    forall|j: int| 0 <= j < i ==> (#[trigger] self.lines@[j])@.len() <= w as int,
                decreases n - i,
            {
                if self.lines[i].len() > wu {
                    proof {
                        assert(start.lines[i as int].len() > w as int);
                    }
                    return ;
                }
                i = i + 1;
            }
            proof {
                assert(forall|j: int|
                    0 <= j < start.lines.len() ==> (#[trigger] start.lines[j]).len() <= w as int);
            }
        }
        self.width = w;
    }

    fn get(&mut self, x: isize, y: isize) -> (r: Option<VChar>) {
        self.cell_at(x, y)
    }
}

// ---------------------------------------------------------------------
// The leaf text widget.
// ---------------------------------------------------------------------

/// A leaf widget owning colored text fragments, lazily wrapped into an
/// internal text buffer at the assigned width. Mutating the content or
/// re-assigning the width invalidates the cached layout; the next query
/// re-wraps.
pub struct VText {
    width: isize,
    content: Vec<(Color, String)>,
    layout: Option<VTerm>,
}

impl View for VText {
    type V = WView;

    closed spec fn view(&self) -> WView {
        WView::Text { width: self.width as int, content: frags_view(self.content@) }
    }
}

impl VText {
    /// A text widget holding one colored fragment.
    pub fn colored(color: Color, s: &str) -> (r: VText)
        ensures
            r.wf(),
            r@ == (WView::Text {
                width: DEFAULT_WIDTH as int,
                content: seq![(color, s@)],
            }),
    {
        let mut content: Vec<(Color, String)> = Vec::new();
        content.push((color, s.to_owned()));
        let r = VText { width: DEFAULT_WIDTH, content, layout: Option::None };
        proof {
            assert(frags_view(r.content@) =~= seq![(color, s@)]);
        }
        r
    }

    /// A text widget holding one uncolored fragment.
    pub fn simple(f: &str) -> (r: VText)
        ensures
            r.wf(),
            r@ == (WView::Text {
                width: DEFAULT_WIDTH as int,
                content: seq![(Color::Unset, f@)],
            }),
    {
        VText::colored(Color::Unset, f)
    }

    /// Appends an uncolored fragment, invalidating the cached layout.
    pub fn write(&mut self, f: String)
        requires
            old(self).wf(),
        ensures
            final(self).wf(),
            final(self)@ == text_push(old(self)@, Color::Unset, f@),
    {
        self.write_color(f, Color::Unset);
    }

    /// Appends a colored fragment, invalidating the cached layout.
    pub fn write_color(&mut self, f: String, col: Color)
        requires
            old(self).wf(),
        ensures
            final(self).wf(),
            final(self)@ == text_push(old(self)@, col, f@),
    {
        self.layout = Option::None;
        let ghost fv = f@;
        self.content.push((col, f));
        proof {
            assert(frags_view(self.content@) =~= frags_view(old(self).content@).push((col, fv)));
        }
    }

    /// Removes every fragment, invalidating the cached layout.
    pub fn clear(&mut self)
        requires
            old(self).wf(),
        ensures
            final(self).wf(),
            final(self)@ == text_clear(old(self)@),
    {
        self.layout = Option::None;
        self.content.clear();
        proof {
            assert(frags_view(self.content@) =~= Seq::<(Color, Seq<char>)>::empty());
        }
    }

    /// True when the cached layout matches the content and width.
    spec fn cache_ok(&self) -> bool {
        match self.layout {
            Option::None => true,
            Option::Some(t) => t.wf() && t.term_view() == text_layout(
                self.width as int,
                frags_view(self.content@),
            ),
        }
    }

    /// Wraps the fragments into the buffer if no current layout is
    /// cached.
    #[verifier::loop_isolation(false)]
    fn build_layout(&mut self)
        requires
            old(self).wf(),
        ensures
            final(self).wf(),
            final(self)@ == old(self)@,
            final(self).layout.is_some(),
    {
        if self.layout.is_some() {
            return ;
        }
        let ghost frags = frags_view(self.content@);
        let mut term = VTerm::new(self.width);
        let n = self.content.len();
        let mut i: usize = 0;
        while i < n
            invariant
                0 <= i <= n,
                n == self.content@.len(),
                self == old(self),
                frags == frags_view(self.content@),
                term.wf(),
                term.term_view() == TermView::init(self.width as int).put_frags(
                    frags.take(i as int),
                ),
            decreases n - i,
        {
            proof {
                lemma_text_layout_wf(self.width as int, frags.take(i as int));
                assert(frags.take(i + 1).drop_last() =~= frags.take(i as int));
                assert(frags.take(i + 1).last() == frags[i as int]);
            }
            let color = self.content[i].0;
            term.write_words_color(self.content[i].1.as_str(), color);
            i = i + 1;
        }
        proof {
            assert(frags.take(n as int) =~= frags);
        }
        self.layout = Option::Some(term);
    }
}

impl Widget for VText {
    closed spec fn wf(&self) -> bool {
        self@.wf() && self.cache_ok()
    }

    fn size(&mut self) -> (r: (isize, isize)) {
        self.build_layout();
        proof {
            lemma_text_layout_wf(self.width as int, frags_view(self.content@));
        }
        match &self.layout {
            Option::Some(t) => {
                let w = t.longest_line();
                let h = t.line_count();
                (w, h)
            },
            Option::None => (0, 0),
        }
    }

    fn try_set_size(&mut self, w: isize, _h: isize) {
        self.layout = Option::None;
        self.width = w;
    }

    fn get(&mut self, x: isize, y: isize) -> (r: Option<VChar>) {
        self.build_layout();
        match &self.layout {
            Option::Some(t) => t.cell_at(x, y),
            Option::None => Option::None,
        }
    }
}

// ---------------------------------------------------------------------
// Combinators.
// ---------------------------------------------------------------------

/// Adds empty columns and rows around its child: `dx` columns on each
/// side and `dy` rows above and below.
pub struct Margin(pub (isize, isize), pub Box<AnyWidget>);

impl View for Margin {
    type V = WView;

    open spec fn view(&self) -> WView
        decreases self,
    {
        WView::Margin {
            dx: self.0.0 as int,
            dy: self.0.1 as int,
            child: Box::new((*self.1)@),
        }
    }
}

impl Widget for Margin {
    open spec fn wf(&self) -> bool
        decreases self,
    {
        self@.wf() && (*self.1).wf()
    }

    fn size(&mut self) -> (r: (isize, isize))
        decreases old(self)@.depth(), 0int,
    {
        let (cw, ch) = self.1.size();
        let dx = self.0.0;
        let dy = self.0.1;
        proof {
            lemma_sat_chain(cw as int, dx as int, dx as int);
            lemma_sat_chain(ch as int, dy as int, dy as int);
        }
        (sat_add(sat_add(cw, dx), dx), sat_add(sat_add(ch, dy), dy))
    }

    fn try_set_size(&mut self, w: isize, h: isize)
        decreases old(self)@.depth(), 0int,
    {
        let dx = self.0.0;
        let dy = self.0.1;
        proof {
            lemma_sat_chain(w as int, -(dx as int), -(dx as int));
            lemma_sat_chain(h as int, -(dy as int), -(dy as int));
        }
        self.1.try_set_size(sat_sub(sat_sub(w, dx), dx), sat_sub(sat_sub(h, dy), dy));
    }

    fn get(&mut self, x: isize, y: isize) -> (r: Option<VChar>)
        decreases old(self)@.depth(), 0int,
    {
        let (cw, ch) = self.1.size();
        let dx = self.0.0;
        let dy = self.0.1;
        proof {
            lemma_sat_chain(cw as int, dx as int, dx as int);
            lemma_sat_chain(ch as int, dy as int, dy as int);
        }
        let w = sat_add(sat_add(cw, dx), dx);
        let h = sat_add(sat_add(ch, dy), dy);
        if x < 0 || y < 0 || x >= w || y >= h {
            return Option::None;
        }
        if x >= dx && x < sat_sub(w, dx) && y >= dy && y < sat_sub(h, dy) {
            let c = self.1.get(x - dx, y - dy);
            Option::Some(eff_or_space(c))
        } else {
            Option::Some(VChar::space())
        }
    }
}

/// Centers its child: when assigned more space than the child's natural
/// size, the slack is halved (rounding toward zero) on each side.
pub struct Center {
    w: isize,
    h: isize,
    cw: isize,
    ch: isize,
    inner: Box<AnyWidget>,
}

impl View for Center {
    type V = WView;

    closed spec fn view(&self) -> WView
        decreases self,
    {
        WView::Center {
            w: self.w as int,
            h: self.h as int,
            cw: self.cw as int,
            ch: self.ch as int,
            child: Box::new((*self.inner)@),
        }
    }
}

impl Center {
    /// Wraps a child, caching its current natural size.
    pub fn new(mut c: AnyWidget) -> (r: Center)
        requires
            c.wf(),
        ensures
            r.wf(),
            r@ == (WView::Center {
                w: 0,
                h: 0,
                cw: c@.width(),
                ch: c@.height(),
                child: Box::new(c@),
            }),
    {
        let (cw, ch) = c.size();
        Center { w: 0, h: 0, cw, ch, inner: Box::new(c) }
    }
}

impl Widget for Center {
    closed spec fn wf(&self) -> bool
        decreases self,
    {
        self@.wf() && (*self.inner).wf()
    }

    fn size(&mut self) -> (r: (isize, isize))
        decreases old(self)@.depth(), 0int,
    {
        let (cw, ch) = self.inner.size();
        self.cw = cw;
        self.ch = ch;
        (max_is(cw, self.w), max_is(ch, self.h))
    }

    fn try_set_size(&mut self, w: isize, h: isize)
        decreases old(self)@.depth(), 0int,
    {
        self.w = w;
        self.h = h;
        self.inner.try_set_size(w, h);
        let (cw, ch) = self.inner.size();
        self.cw = cw;
        self.ch = ch;
    }

    fn get(&mut self, x: isize, y: isize) -> (r: Option<VChar>)
        decreases old(self)@.depth(), 0int,
    {
        let offx = sat_sub(self.w, self.cw);
        let offy = sat_sub(self.h, self.ch);
        let hx = div_trunc(offx, 2);
        let hy = div_trunc(offy, 2);
        let c = self.inner.get(sat_sub(x, hx), sat_sub(y, hy));
        Option::Some(eff_or_space(c))
    }
}

/// Stretches to fill whatever size it is assigned, padding out-of-range
/// coordinates with empty cells.
pub struct Spacer {
    pub w: isize,
    pub h: isize,
    pub inner: Box<AnyWidget>,
}

impl View for Spacer {
    type V = WView;

    open spec fn view(&self) -> WView
        decreases self,
    {
        WView::Spacer { w: self.w as int, h: self.h as int, child: Box::new((*self.inner)@) }
    }
}

impl Spacer {
    /// Wraps a child with no assigned size yet.
    pub fn new(c: AnyWidget) -> (r: Spacer)
        ensures
            r@ == (WView::Spacer { w: 0, h: 0, child: Box::new(c@) }),
            c.wf() ==> r.wf(),
    {
        Spacer { w: 0, h: 0, inner: Box::new(c) }
    }
}

impl Widget for Spacer {
    open spec fn wf(&self) -> bool
        decreases self,
    {
        self@.wf() && (*self.inner).wf()
    }

    fn size(&mut self) -> (r: (isize, isize))
        decreases old(self)@.depth(), 0int,
    {
        let (cw, ch) = self.inner.size();
        (max_is(cw, self.w), max_is(ch, self.h))
    }

    fn try_set_size(&mut self, w: isize, h: isize)
        decreases old(self)@.depth(), 0int,
    {
        self.w = w;
        self.h = h;
        self.inner.try_set_size(w, h);
    }

    fn get(&mut self, x: isize, y: isize) -> (r: Option<VChar>)
        decreases old(self)@.depth(), 0int,
    {
        let c = self.inner.get(x, y);
        Option::Some(eff_or_space(c))
    }
}

/// Clamps its child to an upper size bound on both axes.
pub struct VMax {
    pub min_w: isize,
    pub min_h: isize,
    pub inner: Box<AnyWidget>,
}

impl View for VMax {
    type V = WView;

    open spec fn view(&self) -> WView
        decreases self,
    {
        WView::Max {
            max_w: self.min_w as int,
            max_h: self.min_h as int,
            child: Box::new((*self.inner)@),
        }
    }
}

impl VMax {
    /// Wraps a child under a size bound.
    pub fn new(min_w: isize, min_h: isize, inner: AnyWidget) -> (r: VMax)
        ensures
            r@ == (WView::Max {
                max_w: min_w as int,
                max_h: min_h as int,
                child: Box::new(inner@),
            }),
            inner.wf() ==> r.wf(),
    {
        VMax { min_w, min_h, inner: Box::new(inner) }
    }
}

impl Widget for VMax {
    open spec fn wf(&self) -> bool
        decreases self,
    {
        self@.wf() && (*self.inner).wf()
    }

    fn size(&mut self) -> (r: (isize, isize))
        decreases old(self)@.depth(), 0int,
    {
        let (cw, ch) = self.inner.size();
        (min_is(cw, self.min_w), min_is(ch, self.min_h))
    }

    fn try_set_size(&mut self, w: isize, h: isize)
        decreases old(self)@.depth(), 0int,
    {
        self.inner.try_set_size(min_is(self.min_w, w), min_is(self.min_h, h));
    }

    fn get(&mut self, x: isize, y: isize) -> (r: Option<VChar>)
        decreases old(self)@.depth(), 0int,
    {
        let (cw, ch) = self.inner.size();
        let w = min_is(cw, self.min_w);
        let h = min_is(ch, self.min_h);
        if x < 0 || y < 0 || x >= w || y >= h {
            return Option::None;
        }
        self.inner.get(x, y)
    }
}

/// Fills the unset background of every cell inside its child's box with
/// a color, leaving foregrounds and set backgrounds untouched.
pub struct Background(pub Color, pub Box<AnyWidget>);

impl View for Background {
    type V = WView;

    open spec fn view(&self) -> WView
        decreases self,
    {
        WView::Back { color: self.0, child: Box::new((*self.1)@) }
    }
}

impl Widget for Background {
    open spec fn wf(&self) -> bool
        decreases self,
    {
        self@.wf() && (*self.1).wf()
    }

    fn size(&mut self) -> (r: (isize, isize))
        decreases old(self)@.depth(), 0int,
    {
        self.1.size()
    }

    fn try_set_size(&mut self, w: isize, h: isize)
        decreases old(self)@.depth(), 0int,
    {
        self.1.try_set_size(w, h);
    }

    fn get(&mut self, x: isize, y: isize) -> (r: Option<VChar>)
        decreases old(self)@.depth(), 0int,
    {
        let c = self.1.get(x, y);
        match c {
            Option::None => Option::None,
            Option::Some(mut v) => {
                let (cw, ch) = self.1.size();
                if x >= 0 && y >= 0 && x < cw && y < ch && v.background == Color::Unset {
                    v.background = self.0;
                }
                Option::Some(v)
            },
        }
    }
}

/// A plain border drawn from asterisks, dashes and pipes.
pub const SIMPLE_BOX: [char; 9] = ['*', '-', '*', '|', ' ', '|', '*', '-', '*'];

/// A border drawn from the light box-drawing glyphs.
pub const BORDER_BOX: [char; 9] = ['\u{250c}', '\u{2500}', '\u{2510}', '\u{2502}', ' ', '\u{2502}', '\u{2514}', '\u{2500}', '\u{2518}'];

/// A border drawn from the double box-drawing glyphs.
pub const DOUBLE_BORDER_BOX: [char; 9] = ['\u{2554}', '\u{2550}', '\u{2557}', '\u{2551}', ' ', '\u{2551}', '\u{255a}', '\u{2550}', '\u{255d}'];

/// An invisible border of spaces.
pub const NONE_BOX: [char; 9] = [' ', ' ', ' ', ' ', ' ', ' ', ' ', ' ', ' '];

/// Draws a one-cell border around its child from a set of nine glyphs:
/// four corners, four edges, and the interior filler.
pub struct VBox(pub [char; 9], pub Color, pub Box<AnyWidget>);

impl View for VBox {
    type V = WView;

    open spec fn view(&self) -> WView
        decreases self,
    {
        WView::Frame { glyphs: self.0@, color: self.1, child: Box::new((*self.2)@) }
    }
}

impl Widget for VBox {
    open spec fn wf(&self) -> bool
        decreases self,
    {
        self@.wf() && (*self.2).wf()
    }

    fn size(&mut self) -> (r: (isize, isize))
        decreases old(self)@.depth(), 0int,
    {
        let (cw, ch) = self.2.size();
        (sat_add(cw, 2), sat_add(ch, 2))
    }

    fn try_set_size(&mut self, w: isize, h: isize)
        decreases old(self)@.depth(), 0int,
    {
        self.2.try_set_size(sat_sub(w, 2), sat_sub(h, 2));
    }

    fn get(&mut self, x: isize, y: isize) -> (r: Option<VChar>)
        decreases old(self)@.depth(), 0int,
    {
        let (cw, ch) = self.2.size();
        let w = sat_add(cw, 2);
        let h = sat_add(ch, 2);
        if x < 0 || y < 0 || x >= w || y >= h {
            return Option::None;
        }
        let xi: usize = if x == 0 {
            0
        } else if x == w - 1 {
            2
        } else {
            1
        };
        let yi: usize = if y == 0 {
            0
        } else if y == h - 1 {
            2
        } else {
            1
        };
        if xi == 1 && yi == 1 {
            let c = self.2.get(x - 1, y - 1);
            Option::Some(eff_or_space(c))
        } else {
            Option::Some(VChar::new(self.0[yi * 3 + xi], self.1))
        }
    }
}

// ---------------------------------------------------------------------
// Grid containers.
// ---------------------------------------------------------------------

/// Sequences children left to right, dividing the assigned width evenly
/// by integer division; the remainder is dropped, so trailing cells
/// render empty. This uniform-truncation policy is deliberate.
pub struct GridH {
    pub content: Vec<AnyWidget>,
}

impl View for GridH {
    type V = WView;

    open spec fn view(&self) -> WView
        decreases self,
    {
        WView::Row { children: views_of(self.content@) }
    }
}

impl GridH {
    /// An empty row.
    pub fn new() -> (r: GridH)
        ensures
            r.wf(),
            r@ == (WView::Row { children: Seq::empty() }),
    {
        let r = GridH { content: Vec::new() };
        proof {
            assert(views_of(r.content@) =~= Seq::<WView>::empty());
        }
        r
    }

    /// Appends a child, by value.
    pub fn add(self, c: AnyWidget) -> (r: GridH)
        ensures
            r@ == (WView::Row { children: views_of(self.content@).push(c@) }),
            self.wf() && c.wf() ==> r.wf(),
    {
        let mut g = self;
        g.push(c);
        g
    }

    /// Appends a child.
    pub fn push(&mut self, c: AnyWidget)
        ensures
            final(self)@ == (WView::Row { children: views_of(old(self).content@).push(c@) }),
            old(self).wf() && c.wf() ==> final(self).wf(),
    {
        let ghost cv = c@;
        let ghost cwf = c.wf();
        self.content.push(c);
        proof {
            assert(self.content@.drop_last() =~= old(self).content@);
            assert(self.content@.last()@ == cv);
            assert(views_of(self.content@) == views_of(old(self).content@).push(cv));
            if old(self).wf() && cwf {
                lemma_views_of_len(old(self).content@);
                assert forall|i: int| 0 <= i < views_of(self.content@).len() implies (
                #[trigger] views_of(self.content@)[i]).wf() by {
                    lemma_views_of_index(self.content@, i);
                    if i < old(self).content@.len() {
                        assert(self.content@[i] == old(self).content@[i]);
                        assert(old(self).content@[i].wf());
                    } else {
                        assert(self.content@[i].wf());
                    }
                    lemma_wf_view(&self.content@[i]);
                }
            }
        }
    }
}

impl Widget for GridH {
    open spec fn wf(&self) -> bool
        decreases self,
    {
        self@.wf() && (forall|i: int|
            0 <= i < self.content@.len() ==> (#[trigger] self.content@[i]).wf())
    }

    #[verifier::loop_isolation(false)]
    fn size(&mut self) -> (r: (isize, isize))
        decreases old(self)@.depth(), 0int,
    {
        let ghost vs = views_of(self.content@);
        let n = self.content.len();
        proof {
            lemma_views_of_len(self.content@);
            assert forall|j: int| 0 <= j < n implies (#[trigger] self.content@[j])@ == vs[j] by {
                lemma_views_of_index(self.content@, j);
            }
            assert(vs.take(0) =~= Seq::<WView>::empty());
        }
        let mut w: isize = 0;
        let mut h: isize = 0;
        let mut i: usize = 0;
        while i < n
            invariant
                0 <= i <= n,
                n == self.content@.len(),
                forall|j: int| 0 <= j < n ==> (#[trigger] self.content@[j]).wf(),
                forall|j: int| 0 <= j < n ==> (#[trigger] self.content@[j])@ == vs[j],
                vs.len() == n,
                vs == views_of(old(self).content@),
                views_of(self.content@) == vs,
                w as int == row_width(vs.take(i as int)),
                h as int == row_height(vs.take(i as int)),
            decreases n - i,
        {
            proof {
                lemma_views_of_index(self.content@, i as int);
                lemma_seq_depth_elem(vs, i as int);
                assert(vs.take(i + 1).drop_last() =~= vs.take(i as int));
                assert(vs.take(i + 1).last() == vs[i as int]);
            }
            let ghost pre = self.content@;
            let (cw, ch) = self.content[i].size();
            proof {
                assert(forall|j: int|
                    0 <= j < n && j != i ==> (#[trigger] self.content@[j]) == pre[j]);
                lemma_views_of_eq(self.content@, old(self).content@);
            }
            w = sat_add(w, cw);
            h = max_is(h, ch);
            i = i + 1;
        }
        proof {
            assert(vs.take(n as int) =~= vs);
        }
        (w, h)
    }

    #[verifier::loop_isolation(false)]
    fn try_set_size(&mut self, w: isize, h: isize)
        decreases old(self)@.depth(), 0int,
    {
        let n = self.content.len();
        if n == 0 {
            return ;
        }
        let ghost vs = views_of(old(self).content@);
        proof {
            lemma_views_of_len(self.content@);
            assert forall|j: int| 0 <= j < n implies (#[trigger] self.content@[j])@ == vs[j] by {
                lemma_views_of_index(self.content@, j);
            }
        }
        let len_i = usize_to_isize_sat(n);
        let avg_w = div_trunc(w, len_i);
        let mut i: usize = 0;
        while i < n
            invariant
                0 <= i <= n,
                n == self.content@.len(),
                vs.len() == n,
                avg_w as int == tdiv(w as int, sat_i(n as int)),
                forall|j: int| 0 <= j < n ==> (#[trigger] self.content@[j]).wf(),
                forall|j: int|
                    i <= j < n ==> (#[trigger] self.content@[j])@ == vs[j] && self.content@[j]
                        == old(self).content@[j],
                forall|j: int|
                    0 <= j < i ==> (#[trigger] self.content@[j])@ == vs[j].set_size(
                        avg_w as int,
                        h as int,
                    ),
            decreases n - i,
        {
            proof {
                lemma_views_of_index(old(self).content@, i as int);
                lemma_seq_depth_elem(vs, i as int);
            }
            let ghost pre = self.content@;
            self.content[i].try_set_size(avg_w, h);
            proof {
                assert(forall|j: int|
                    0 <= j < n && j != i ==> (#[trigger] self.content@[j]) == pre[j]);
            }
            i = i + 1;
        }
        proof {
            lemma_set_all_len(vs, avg_w as int, h as int);
            assert forall|j: int| 0 <= j < n implies (#[trigger] views_of(self.content@)[j])
                == set_all(vs, avg_w as int, h as int)[j] by {
                lemma_views_of_index(self.content@, j);
                lemma_set_all_index(vs, avg_w as int, h as int, j);
            }
            lemma_views_of_len(self.content@);
            assert(views_of(self.content@) =~= set_all(vs, avg_w as int, h as int));
            assert forall|j: int| 0 <= j < n implies (#[trigger] views_of(self.content@)[j]).wf()
                by {
                lemma_views_of_index(self.content@, j);
                lemma_wf_view(&self.content@[j]);
            }
        }
    }

    #[verifier::loop_isolation(false)]
    fn get(&mut self, x: isize, y: isize) -> (r: Option<VChar>)
        decreases old(self)@.depth(), 0int,
    {
        let ghost vs = views_of(self.content@);
        let n = self.content.len();
        proof {
            lemma_views_of_len(self.content@);
            assert forall|j: int| 0 <= j < n implies (#[trigger] self.content@[j])@ == vs[j] by {
                lemma_views_of_index(self.content@, j);
            }
            assert(vs.skip(0) =~= vs);
        }
        let mut xx = x;
        let mut i: usize = 0;
        while i < n
            invariant
                0 <= i <= n,
                n == self.content@.len(),
                vs.len() == n,
                forall|j: int| 0 <= j < n ==> (#[trigger] self.content@[j]).wf(),
                forall|j: int| 0 <= j < n ==> (#[trigger] self.content@[j])@ == vs[j],
                vs == views_of(old(self).content@),
                views_of(self.content@) == vs,
                row_cell(vs, x as int, y as int) == row_cell(
                    vs.skip(i as int),
                    xx as int,
                    y as int,
                ),
            decreases n - i,
        {
            proof {
                lemma_views_of_index(self.content@, i as int);
                lemma_seq_depth_elem(vs, i as int);
                assert(vs.skip(i as int)[0] == vs[i as int]);
            }
            let ghost pre = self.content@;
            let (cw, _ch) = self.content[i].size();
            proof {
                assert(forall|j: int|
                    0 <= j < n && j != i ==> (#[trigger] self.content@[j]) == pre[j]);
                lemma_views_of_eq(self.content@, old(self).content@);
            }
            if xx < cw {
                let c = self.content[i].get(xx, y);
                proof {
                    lemma_views_of_eq(self.content@, old(self).content@);
                }
                return c;
            }
            proof {
                assert(vs.skip(i as int).skip(1) =~= vs.skip(i + 1));
            }
            xx = sat_sub(xx, cw);
            i = i + 1;
        }
        proof {
            assert(vs.skip(n as int) =~= Seq::<WView>::empty());
        }
        Option::None
    }
}

/// Sequences children top to bottom, dividing the assigned height evenly
/// by integer division; the remainder is dropped, so trailing cells
/// render empty. This uniform-truncation policy is deliberate.
pub struct GridV {
    pub content: Vec<AnyWidget>,
}

impl View for GridV {
    type V = WView;

    open spec fn view(&self) -> WView
        decreases self,
    {
        WView::Col { children: views_of(self.content@) }
    }
}

impl GridV {
    /// An empty column.
    pub fn new() -> (r: GridV)
        ensures
            r.wf(),
            r@ == (WView::Col { children: Seq::empty() }),
    {
        let r = GridV { content: Vec::new() };
        proof {
            assert(views_of(r.content@) =~= Seq::<WView>::empty());
        }
        r
    }

    /// Appends a child, by value.
    pub fn add(self, c: AnyWidget) -> (r: GridV)
        ensures
            r@ == (WView::Col { children: views_of(self.content@).push(c@) }),
            self.wf() && c.wf() ==> r.wf(),
    {
        let mut g = self;
        g.push(c);
        g
    }

    /// Appends a child.
    pub fn push(&mut self, c: AnyWidget)
        ensures
            final(self)@ == (WView::Col { children: views_of(old(self).content@).push(c@) }),
            old(self).wf() && c.wf() ==> final(self).wf(),
    {
        let ghost cv = c@;
        let ghost cwf = c.wf();
        self.content.push(c);
        proof {
            assert(self.content@.drop_last() =~= old(self).content@);
            assert(self.content@.last()@ == cv);
            assert(views_of(self.content@) == views_of(old(self).content@).push(cv));
            if old(self).wf() && cwf {
                lemma_views_of_len(old(self).content@);
                assert forall|i: int| 0 <= i < views_of(self.content@).len() implies (
                #[trigger] views_of(self.content@)[i]).wf() by {
                    lemma_views_of_index(self.content@, i);
                    if i < old(self).content@.len() {
                        assert(self.content@[i] == old(self).content@[i]);
                        assert(old(self).content@[i].wf());
                    } else {
                        assert(self.content@[i].wf());
                    }
                    lemma_wf_view(&self.content@[i]);
                }
            }
        }
    }
}

impl Widget for GridV {
    open spec fn wf(&self) -> bool
        decreases self,
    {
        self@.wf() && (forall|i: int|
            0 <= i < self.content@.len() ==> (#[trigger] self.content@[i]).wf())
    }

    #[verifier::loop_isolation(false)]
    fn size(&mut self) -> (r: (isize, isize))
        decreases old(self)@.depth(), 0int,
    {
        let ghost vs = views_of(self.content@);
        let n = self.content.len();
        proof {
            lemma_views_of_len(self.content@);
            assert forall|j: int| 0 <= j < n implies (#[trigger] self.content@[j])@ == vs[j] by {
                lemma_views_of_index(self.content@, j);
            }
            assert(vs.take(0) =~= Seq::<WView>::empty());
        }
        let mut w: isize = 0;
        let mut h: isize = 0;
        let mut i: usize = 0;
        while i < n
            invariant
                0 <= i <= n,
                n == self.content@.len(),
                forall|j: int| 0 <= j < n ==> (#[trigger] self.content@[j]).wf(),
                forall|j: int| 0 <= j < n ==> (#[trigger] self.content@[j])@ == vs[j],
                vs.len() == n,
                vs == views_of(old(self).content@),
                views_of(self.content@) == vs,
                w as int == col_width(vs.take(i as int)),
                h as int == col_height(vs.take(i as int)),
            decreases n - i,
        {
            proof {
                lemma_views_of_index(self.content@, i as int);
                lemma_seq_depth_elem(vs, i as int);
                assert(vs.take(i + 1).drop_last() =~= vs.take(i as int));
                assert(vs.take(i + 1).last() == vs[i as int]);
            }
            let ghost pre = self.content@;
            let (cw, ch) = self.content[i].size();
            proof {
                assert(forall|j: int|
                    0 <= j < n && j != i ==> (#[trigger] self.content@[j]) == pre[j]);
                lemma_views_of_eq(self.content@, old(self).content@);
            }
            w = max_is(w, cw);
            h = sat_add(h, ch);
            i = i + 1;
        }
        proof {
            assert(vs.take(n as int) =~= vs);
        }
        (w, h)
    }

    #[verifier::loop_isolation(false)]
    fn try_set_size(&mut self, w: isize, h: isize)
        decreases old(self)@.depth(), 0int,
    {
        let n = self.content.len();
        if n == 0 {
            return ;
        }
        let ghost vs = views_of(old(self).content@);
        proof {
            lemma_views_of_len(self.content@);
            assert forall|j: int| 0 <= j < n implies (#[trigger] self.content@[j])@ == vs[j] by {
                lemma_views_of_index(self.content@, j);
            }
        }
        let len_i = usize_to_isize_sat(n);
        let avg_h = div_trunc(h, len_i);
        let mut i: usize = 0;
        while i < n
            invariant
                0 <= i <= n,
                n == self.content@.len(),
                vs.len() == n,
                avg_h as int == tdiv(h as int, sat_i(n as int)),
                forall|j: int| 0 <= j < n ==> (#[trigger] self.content@[j]).wf(),
                forall|j: int|
                    i <= j < n ==> (#[trigger] self.content@[j])@ == vs[j] && self.content@[j]
                        == old(self).content@[j],
                forall|j: int|
                    0 <= j < i ==> (#[trigger] self.content@[j])@ == vs[j].set_size(
                        w as int,
                        avg_h as int,
                    ),
            decreases n - i,
        {
            proof {
                lemma_views_of_index(old(self).content@, i as int);
                lemma_seq_depth_elem(vs, i as int);
            }
            let ghost pre = self.content@;
            self.content[i].try_set_size(w, avg_h);
            proof {
                assert(forall|j: int|
                    0 <= j < n && j != i ==> (#[trigger] self.content@[j]) == pre[j]);
            }
            i = i + 1;
        }
        proof {
            lemma_set_all_len(vs, w as int, avg_h as int);
            assert forall|j: int| 0 <= j < n implies (#[trigger] views_of(self.content@)[j])
                == set_all(vs, w as int, avg_h as int)[j] by {
                lemma_views_of_index(self.content@, j);
                lemma_set_all_index(vs, w as int, avg_h as int, j);
            }
            lemma_views_of_len(self.content@);
            assert(views_of(self.content@) =~= set_all(vs, w as int, avg_h as int));
            assert forall|j: int| 0 <= j < n implies (#[trigger] views_of(self.content@)[j]).wf()
                by {
                lemma_views_of_index(self.content@, j);
                lemma_wf_view(&self.content@[j]);
            }
        }
    }

    #[verifier::loop_isolation(false)]
    fn get(&mut self, x: isize, y: isize) -> (r: Option<VChar>)
        decreases old(self)@.depth(), 0int,
    {
        let ghost vs = views_of(self.content@);
        let n = self.content.len();
        proof {
            lemma_views_of_len(self.content@);
            assert forall|j: int| 0 <= j < n implies (#[trigger] self.content@[j])@ == vs[j] by {
                lemma_views_of_index(self.content@, j);
            }
            assert(vs.skip(0) =~= vs);
        }
        let mut yy = y;
        let mut i: usize = 0;
        while i < n
            invariant
                0 <= i <= n,
                n == self.content@.len(),
                vs.len() == n,
                forall|j: int| 0 <= j < n ==> (#[trigger] self.content@[j]).wf(),
                forall|j: int| 0 <= j < n ==> (#[trigger] self.content@[j])@ == vs[j],
                vs == views_of(old(self).content@),
                views_of(self.content@) == vs,
                col_cell(vs, x as int, y as int) == col_cell(
                    vs.skip(i as int),
                    x as int,
                    yy as int,
                ),
            decreases n - i,
        {
            proof {
                lemma_views_of_index(self.content@, i as int);
                lemma_seq_depth_elem(vs, i as int);
                assert(vs.skip(i as int)[0] == vs[i as int]);
            }
            let ghost pre = self.content@;
            let (_cw, ch) = self.content[i].size();
            proof {
                assert(forall|j: int|
                    0 <= j < n && j != i ==> (#[trigger] self.content@[j]) == pre[j]);
                lemma_views_of_eq(self.content@, old(self).content@);
            }
            if yy < ch {
                let c = self.content[i].get(x, yy);
                proof {
                    lemma_views_of_eq(self.content@, old(self).content@);
                }
                return c;
            }
            proof {
                assert(vs.skip(i as int).skip(1) =~= vs.skip(i + 1));
            }
            yy = sat_sub(yy, ch);
            i = i + 1;
        }
        proof {
            assert(vs.skip(n as int) =~= Seq::<WView>::empty());
        }
        Option::None
    }
}

// ---------------------------------------------------------------------
// The closed widget sum.
// ---------------------------------------------------------------------

/// The closed set of widget kinds: the single interface that every node
/// of a widget tree satisfies, so that heterogeneous children can live in
/// one container without open-ended dispatch.
pub enum AnyWidget {
    Term(VTerm),
    Text(VText),
    Margin(Margin),
    Center(Center),
    Spacer(Spacer),
    Max(VMax),
    Background(Background),
    Frame(VBox),
    GridH(GridH),
    GridV(GridV),
}

impl View for AnyWidget {
    type V = WView;

    open spec fn view(&self) -> WView
        decreases self,
    {
        match self {
            AnyWidget::Term(v) => v@,
            AnyWidget::Text(v) => v@,
            AnyWidget::Margin(v) => v@,
            AnyWidget::Center(v) => v@,
            AnyWidget::Spacer(v) => v@,
            AnyWidget::Max(v) => v@,
            AnyWidget::Background(v) => v@,
            AnyWidget::Frame(v) => v@,
            AnyWidget::GridH(v) => v@,
            AnyWidget::GridV(v) => v@,
        }
    }
}

impl Widget for AnyWidget {
    open spec fn wf(&self) -> bool
        decreases self,
    {
        match self {
            AnyWidget::Term(v) => v.wf(),
            AnyWidget::Text(v) => v.wf(),
            AnyWidget::Margin(v) => v.wf(),
            AnyWidget::Center(v) => v.wf(),
            AnyWidget::Spacer(v) => v.wf(),
            AnyWidget::Max(v) => v.wf(),
            AnyWidget::Background(v) => v.wf(),
            AnyWidget::Frame(v) => v.wf(),
            AnyWidget::GridH(v) => v.wf(),
            AnyWidget::GridV(v) => v.wf(),
        }
    }

    fn size(&mut self) -> (r: (isize, isize))
        decreases old(self)@.depth(), 1int,
    {
        match self {
            AnyWidget::Term(v) => v.size(),
            AnyWidget::Text(v) => v.size(),
            AnyWidget::Margin(v) => v.size(),
            AnyWidget::Center(v) => v.size(),
            AnyWidget::Spacer(v) => v.size(),
            AnyWidget::Max(v) => v.size(),
            AnyWidget::Background(v) => v.size(),
            AnyWidget::Frame(v) => v.size(),
            AnyWidget::GridH(v) => v.size(),
            AnyWidget::GridV(v) => v.size(),
        }
    }

    fn try_set_size(&mut self, w: isize, h: isize)
        decreases old(self)@.depth(), 1int,
    {
        match self {
            AnyWidget::Term(v) => v.try_set_size(w, h),
            AnyWidget::Text(v) => v.try_set_size(w, h),
            AnyWidget::Margin(v) => v.try_set_size(w, h),
            AnyWidget::Center(v) => v.try_set_size(w, h),
            AnyWidget::Spacer(v) => v.try_set_size(w, h),
            AnyWidget::Max(v) => v.try_set_size(w, h),
            AnyWidget::Background(v) => v.try_set_size(w, h),
            AnyWidget::Frame(v) => v.try_set_size(w, h),
            AnyWidget::GridH(v) => v.try_set_size(w, h),
            AnyWidget::GridV(v) => v.try_set_size(w, h),
        }
    }

    fn get(&mut self, x: isize, y: isize) -> (r: Option<VChar>)
        decreases old(self)@.depth(), 1int,
    {
        match self {
            AnyWidget::Term(v) => v.get(x, y),
            AnyWidget::Text(v) => v.get(x, y),
            AnyWidget::Margin(v) => v.get(x, y),
            AnyWidget::Center(v) => v.get(x, y),
            AnyWidget::Spacer(v) => v.get(x, y),
            AnyWidget::Max(v) => v.get(x, y),
            AnyWidget::Background(v) => v.get(x, y),
            AnyWidget::Frame(v) => v.get(x, y),
            AnyWidget::GridH(v) => v.get(x, y),
            AnyWidget::GridV(v) => v.get(x, y),
        }
    }
}

// ---------------------------------------------------------------------
// Composition helpers.
// ---------------------------------------------------------------------

/// Conversion into the closed widget sum, so that combinators can be
/// chained on any widget.
pub trait IntoWidget: Widget {
    /// The node wrapped as a tree member; the view is unchanged.
    fn into_widget(self) -> (r: AnyWidget)
        ensures
            r@ == self@,
            self.wf() ==> r.wf(),
    ;
}

impl IntoWidget for VTerm {
    fn into_widget(self) -> (r: AnyWidget) {
        AnyWidget::Term(self)
    }
}

impl IntoWidget for VText {
    fn into_widget(self) -> (r: AnyWidget) {
        AnyWidget::Text(self)
    }
}

impl IntoWidget for Margin {
    fn into_widget(self) -> (r: AnyWidget) {
        AnyWidget::Margin(self)
    }
}

impl IntoWidget for Center {
    fn into_widget(self) -> (r: AnyWidget) {
        AnyWidget::Center(self)
    }
}

impl IntoWidget for Spacer {
    fn into_widget(self) -> (r: AnyWidget) {
        AnyWidget::Spacer(self)
    }
}

impl IntoWidget for VMax {
    fn into_widget(self) -> (r: AnyWidget) {
        AnyWidget::Max(self)
    }
}

impl IntoWidget for Background {
    fn into_widget(self) -> (r: AnyWidget) {
        AnyWidget::Background(self)
    }
}

impl IntoWidget for VBox {
    fn into_widget(self) -> (r: AnyWidget) {
        AnyWidget::Frame(self)
    }
}

impl IntoWidget for GridH {
    fn into_widget(self) -> (r: AnyWidget) {
        AnyWidget::GridH(self)
    }
}

impl IntoWidget for GridV {
    fn into_widget(self) -> (r: AnyWidget) {
        AnyWidget::GridV(self)
    }
}

impl IntoWidget for AnyWidget {
    fn into_widget(self) -> (r: AnyWidget) {
        self
    }
}

/// Wraps a widget in a margin.
pub trait WithMargin: IntoWidget {
    /// `x` empty columns on each side, `y` empty rows above and below.
    fn margin(self, x: isize, y: isize) -> (r: Margin)
        requires
            x >= 0,
            y >= 0,
        ensures
            r@ == (WView::Margin { dx: x as int, dy: y as int, child: Box::new(self@) }),
            self.wf() ==> r.wf(),
    ;
}

impl<W: IntoWidget> WithMargin for W {
    fn margin(self, x: isize, y: isize) -> (r: Margin) {
        Margin((x, y), Box::new(self.into_widget()))
    }
}

/// Wraps a widget so it is centered in its assigned space.
pub trait WithCenter: IntoWidget {
    /// Centers the widget; slack is halved on each side.
    fn centered(self) -> (r: Center)
        requires
            self.wf(),
        ensures
            r.wf(),
            r@ == (WView::Center {
                w: 0,
                h: 0,
                cw: self@.width(),
                ch: self@.height(),
                child: Box::new(self@),
            }),
    ;
}

impl<W: IntoWidget> WithCenter for W {
    fn centered(self) -> (r: Center) {
        Center::new(self.into_widget())
    }
}

/// Wraps a widget so it stretches to fill its assigned space.
pub trait WithSpacer: IntoWidget {
    /// Pads the widget with empty cells out to the assigned size.
    fn maximized(self) -> (r: Spacer)
        ensures
            r@ == (WView::Spacer { w: 0, h: 0, child: Box::new(self@) }),
            self.wf() ==> r.wf(),
    ;
}

impl<W: IntoWidget> WithSpacer for W {
    fn maximized(self) -> (r: Spacer) {
        Spacer::new(self.into_widget())
    }
}

/// Wraps a widget under an upper size bound.
pub trait WithMax: IntoWidget {
    /// Clamps the widget to at most `w` by `h` cells.
    fn max_size(self, w: isize, h: isize) -> (r: VMax)
        ensures
            r@ == (WView::Max { max_w: w as int, max_h: h as int, child: Box::new(self@) }),
            self.wf() ==> r.wf(),
    ;
}

impl<W: IntoWidget> WithMax for W {
    fn max_size(self, w: isize, h: isize) -> (r: VMax) {
        VMax::new(w, h, self.into_widget())
    }
}

/// Wraps a widget in a drawn border.
pub trait WithBox: IntoWidget {
    /// A one-cell border from the given glyph set and color.
    fn boxed(self, box_type: [char; 9], c: Color) -> (r: VBox)
        ensures
            r@ == (WView::Frame { glyphs: box_type@, color: c, child: Box::new(self@) }),
            self.wf() ==> r.wf(),
    ;
}

impl<W: IntoWidget> WithBox for W {
    fn boxed(self, box_type: [char; 9], c: Color) -> (r: VBox) {
        VBox(box_type, c, Box::new(self.into_widget()))
    }
}

/// Wraps a widget over a background fill.
pub trait WithBackground: IntoWidget {
    /// Fills unset cell backgrounds with the given color.
    fn with_background(self, c: Color) -> (r: Background)
        ensures
            r@ == (WView::Back { color: c, child: Box::new(self@) }),
            self.wf() ==> r.wf(),
    ;
}

impl<W: IntoWidget> WithBackground for W {
    fn with_background(self, c: Color) -> (r: Background) {
        Background(c, Box::new(self.into_widget()))
    }
}

} // verus!

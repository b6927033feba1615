//! Text and table utilities for the content producers: tidying scraped
//! text, transposing row-major tables into day columns, and scrambling
//! strings into stable cache-file names.

use vstd::prelude::*;
use vstd::utf8::encode_utf8;
use crate::widget::str_chars;
use crate::render::chars_to_string;

verus! {

/// Whether a character counts as whitespace. Left uninterpreted; the
/// answer depends on the character alone.
pub uninterp spec fn char_is_space(c: char) -> bool;

/// Relies on `char::is_whitespace`: the Unicode white-space property of
/// the character.
#[verifier::external_body]
fn is_space(c: char) -> (r: bool)
    ensures
        r == char_is_space(c),
{
    c.is_whitespace()
}

/// The characters left after dropping leading whitespace.
pub open spec fn trim_start_spec(s: Seq<char>) -> Seq<char>
    decreases s.len(),
{
    if s.len() == 0 {
        s
    } else if char_is_space(s[0]) {
        trim_start_spec(s.skip(1))
    } else {
        s
    }
}

/// The characters left after dropping trailing whitespace.
pub open spec fn trim_end_spec(s: Seq<char>) -> Seq<char>
    decreases s.len(),
{
    if s.len() == 0 {
        s
    } else if char_is_space(s.last()) {
        trim_end_spec(s.drop_last())
    } else {
        s
    }
}

/// The characters left after dropping whitespace on both ends.
pub open spec fn trim_spec(s: Seq<char>) -> Seq<char> {
    trim_end_spec(trim_start_spec(s))
}

/// The text split at newlines, the separators dropped.
pub open spec fn split_lines_spec(s: Seq<char>) -> Seq<Seq<char>>
    decreases s.len(),
{
    if s.len() == 0 {
        seq![Seq::empty()]
    } else if s.last() == '\n' {
        split_lines_spec(s.drop_last()).push(Seq::empty())
    } else {
        let rest = split_lines_spec(s.drop_last());
        rest.update(rest.len() - 1, rest.last().push(s.last()))
    }
}

/// Each line trimmed, empty lines dropped, and every kept line prefixed
/// with one newline.
pub open spec fn tidy_lines_spec(lines: Seq<Seq<char>>) -> Seq<char>
    decreases lines.len(),
{
    if lines.len() == 0 {
        Seq::empty()
    } else {
        let t = trim_spec(lines.last());
        let rest = tidy_lines_spec(lines.drop_last());
        if t.len() == 0 {
            rest
        } else {
            rest + seq!['\n'] + t
        }
    }
}

/// Scraped text, tidied: split at newlines, every line trimmed, empty
/// lines dropped, and the kept lines joined with a leading newline each.
pub open spec fn tidy_spec(s: Seq<char>) -> Seq<char> {
    tidy_lines_spec(split_lines_spec(s))
}

/// Split-lines always yields at least one (possibly empty) line.
proof fn lemma_split_lines_nonempty(s: Seq<char>)
    ensures
        split_lines_spec(s).len() >= 1,
    decreases s.len(),
{
    if s.len() > 0 {
        lemma_split_lines_nonempty(s.drop_last());
    }
}

/// Drops leading whitespace from a character sequence.
#[verifier::loop_isolation(false)]
fn trim_vec(line: Vec<char>) -> (r: Vec<char>)
    ensures
        r@ == trim_spec(line@),
{
    let mut start: usize = 0;
    let n = line.len();
    proof {
        assert(line@.skip(0) =~= line@);
    }
    while start < n
        invariant
            0 <= start <= n,
            n == line@.len(),
            trim_start_spec(line@) == trim_start_spec(line@.skip(start as int)),
            forall|j: int| 0 <= j < start ==> char_is_space(line@[j]),
        decreases n - start,
    {
        proof {
            assert(line@.skip(start as int)[0] == line@[start as int]);
            assert(line@.skip(start as int).skip(1) =~= line@.skip(start + 1));
        }
        if !is_space(line[start]) {
            break ;
        }
        start = start + 1;
    }
    proof {
        if start == n {
            assert(line@.skip(n as int) =~= Seq::<char>::empty());
        }
        assert(trim_start_spec(line@) == line@.skip(start as int));
    }
    let mut end: usize = n;
    proof {
        assert(line@.subrange(start as int, n as int) =~= line@.skip(start as int));
    }
    while end > start
        invariant
            start <= end <= n,
            n == line@.len(),
            trim_start_spec(line@) == line@.skip(start as int),
            trim_end_spec(line@.skip(start as int)) == trim_end_spec(
                line@.subrange(start as int, end as int),
            ),
        decreases end,
    {
        proof {
            assert(line@.subrange(start as int, end as int).last() == line@[end - 1]);
            assert(line@.subrange(start as int, end as int).drop_last() =~= line@.subrange(
                start as int,
                end - 1,
            ));
        }
        if !is_space(line[end - 1]) {
            break ;
        }
        end = end - 1;
    }
    proof {
        if end == start {
            assert(line@.subrange(start as int, start as int) =~= Seq::<char>::empty());
        }
        assert(trim_spec(line@) == line@.subrange(start as int, end as int));
    }
    let mut out: Vec<char> = Vec::new();
    let mut i: usize = start;
    while i < end
        invariant
            start <= i <= end <= n,
            n == line@.len(),
            out@ =~= line@.subrange(start as int, i as int),
        decreases end - i,
    {
        out.push(line[i]);
        proof {
            assert(out@ =~= line@.subrange(start as int, i + 1));
        }
        i = i + 1;
    }
    proof {
        assert(out@ =~= line@.subrange(start as int, end as int));
    }
    out
}

/// Tidies scraped text: lines are trimmed of whitespace, empty lines are
/// dropped, and every kept line is joined in with one leading newline.
#[verifier::loop_isolation(false)]
pub fn tidy(s: &str) -> (r: String)
    ensures
        r@ == tidy_spec(s@),
{
    let cs = str_chars(s);
    let n = cs.len();
    let mut out: Vec<char> = Vec::new();
    let mut line: Vec<char> = Vec::new();
    let mut i: usize = 0;
    proof {
        assert(cs@.take(0) =~= Seq::<char>::empty());
        assert(split_lines_spec(Seq::<char>::empty()) =~= seq![Seq::<char>::empty()]);
        assert(split_lines_spec(cs@.take(0)).drop_last() =~= Seq::<Seq<char>>::empty());
    }
    while i < n
        invariant
            0 <= i <= n,
            n == cs@.len(),
            cs@ == s@,
            split_lines_spec(cs@.take(i as int)).len() >= 1,
            line@ == split_lines_spec(cs@.take(i as int)).last(),
            out@ == tidy_lines_spec(split_lines_spec(cs@.take(i as int)).drop_last()),
        decreases n - i,
    {
        proof {
            lemma_split_lines_nonempty(cs@.take(i as int));
            assert(cs@.take(i + 1).drop_last() =~= cs@.take(i as int));
            assert(cs@.take(i + 1).last() == cs@[i as int]);
        }
        let c = cs[i];
        if c == '\n' {
            let done = trim_vec(line);
            if done.len() > 0 {
                out.push('\n');
                let mut j: usize = 0;
                let m = done.len();
                let ghost base = out@;
                while j < m
                    invariant
                        0 <= j <= m,
                        m == done@.len(),
                        out@ =~= base + done@.take(j as int),
                    decreases m - j,
                {
                    out.push(done[j]);
                    proof {
                        assert(out@ =~= base + done@.take(j + 1));
                    }
                    j = j + 1;
                }
                proof {
                    assert(done@.take(m as int) =~= done@);
                }
            }
            proof {
                let prev = split_lines_spec(cs@.take(i as int));
                let cur = split_lines_spec(cs@.take(i + 1));
                assert(cur == prev.push(Seq::<char>::empty()));
                assert(cur.drop_last() =~= prev);
            }
            line = Vec::new();
        } else {
            let ghost prev = split_lines_spec(cs@.take(i as int));
            line.push(c);
            proof {
                let cur = split_lines_spec(cs@.take(i + 1));
                assert(cur == prev.update(prev.len() - 1, prev.last().push(cs@[i as int])));
                assert(cur.drop_last() =~= prev.drop_last());
                assert(cur.last() == prev.last().push(cs@[i as int]));
            }
        }
        i = i + 1;
    }
    proof {
        assert(cs@.take(n as int) =~= cs@);
        lemma_split_lines_nonempty(cs@);
    }
    let done = trim_vec(line);
    if done.len() > 0 {
        out.push('\n');
        let mut j: usize = 0;
        let m = done.len();
        let ghost base = out@;
        while j < m
            invariant
                0 <= j <= m,
                m == done@.len(),
                out@ =~= base + done@.take(j as int),
            decreases m - j,
        {
            out.push(done[j]);
            proof {
                assert(out@ =~= base + done@.take(j + 1));
            }
            j = j + 1;
        }
        proof {
            assert(done@.take(m as int) =~= done@);
        }
    }
    proof {
        let lines = split_lines_spec(cs@);
        assert(lines == lines.drop_last().push(lines.last()));
        assert(tidy_lines_spec(lines.drop_last().push(lines.last())) == if trim_spec(
            lines.last(),
        ).len() == 0 {
            tidy_lines_spec(lines.drop_last())
        } else {
            tidy_lines_spec(lines.drop_last()) + seq!['\n'] + trim_spec(lines.last())
        }) by {
            assert(lines.drop_last().push(lines.last()).drop_last() =~= lines.drop_last());
            assert(lines.drop_last().push(lines.last()).last() == lines.last());
        }
        assert(out@ =~= tidy_lines_spec(lines));
    }
    chars_to_string(out)
}

/// The longest row of a table.
pub open spec fn max_row_len(rows: Seq<Vec<String>>) -> int
    decreases rows.len(),
{
    if rows.len() == 0 {
        0
    } else {
        let rest = max_row_len(rows.drop_last());
        if rest >= rows.last()@.len() {
            rest
        } else {
            rows.last()@.len() as int
        }
    }
}

/// No row is longer than the longest row.
proof fn lemma_max_row_len_elem(rows: Seq<Vec<String>>, i: int)
    requires
        0 <= i < rows.len(),
    ensures
        rows[i]@.len() <= max_row_len(rows),
        max_row_len(rows) >= 0,
    decreases rows.len(),
{
    if i == rows.len() - 1 {
        lemma_max_row_len_nonneg(rows.drop_last());
    } else {
        lemma_max_row_len_elem(rows.drop_last(), i);
        assert(rows.drop_last()[i] == rows[i]);
    }
}

/// The longest row is never negative.
proof fn lemma_max_row_len_nonneg(rows: Seq<Vec<String>>)
    ensures
        max_row_len(rows) >= 0,
    decreases rows.len(),
{
    if rows.len() > 0 {
        lemma_max_row_len_nonneg(rows.drop_last());
    }
}

/// Transposes a row-major table of strings: cell `(x, y)` of the input
/// becomes cell `(y, x)` of the output, missing cells become empty
/// strings, and the output is rectangular with one row per column of the
/// longest input row.
#[verifier::loop_isolation(false)]
pub fn transpose(rows: &Vec<Vec<String>>) -> (r: Vec<Vec<String>>)
    ensures
        r@.len() == max_row_len(rows@),
        forall|y: int| 0 <= y < r@.len() ==> (#[trigger] r@[y])@.len() == rows@.len(),
        forall|y: int, x: int|
            0 <= y < r@.len() && 0 <= x < rows@.len() ==> (#[trigger] r@[y]@[x])@ == (if y
                < rows@[x]@.len() {
                rows@[x]@[y]@
            } else {
                Seq::<char>::empty()
            }),
{
    let w = rows.len();
    let mut h: usize = 0;
    let mut i: usize = 0;
    while i < w
        invariant
            0 <= i <= w,
            w == rows@.len(),
            h as int == max_row_len(rows@.subrange(0, i as int)),
        decreases w - i,
    {
        proof {
            assert(rows@.subrange(0, i + 1).drop_last() =~= rows@.subrange(0, i as int));
            assert(rows@.subrange(0, i + 1).last() == rows@[i as int]);
        }
        let l = rows[i].len();
        if l > h {
            h = l;
        }
        i = i + 1;
    }
    proof {
        assert(rows@.subrange(0, w as int) =~= rows@);
    }
    let mut out: Vec<Vec<String>> = Vec::new();
    let mut y: usize = 0;
    while y < h
        invariant
            0 <= y <= h,
            w == rows@.len(),
            h as int == max_row_len(rows@),
            out@.len() == y,
            forall|j: int| 0 <= j < y ==> (#[trigger] out@[j])@.len() == w,
            forall|j: int, x: int|
                0 <= j < y && 0 <= x < w ==> (#[trigger] out@[j]@[x])@ == (if j
                    < rows@[x]@.len() {
                    rows@[x]@[j]@
                } else {
                    Seq::<char>::empty()
                }),
        decreases h - y,
    {
        let mut row: Vec<String> = Vec::new();
        let mut x: usize = 0;
        while x < w
            invariant
                0 <= x <= w,
                0 <= y < h,
                w == rows@.len(),
                row@.len() == x,
                forall|k: int|
                    0 <= k < x ==> (#[trigger] row@[k])@ == (if y < rows@[k]@.len() {
                        rows@[k]@[y as int]@
                    } else {
                        Seq::<char>::empty()
                    }),
            decreases w - x,
        {
            if y < rows[x].len() {
                row.push(rows[x][y].clone());
            } else {
                row.push(String::new());
            }
            x = x + 1;
        }
        out.push(row);
        y = y + 1;
    }
    out
}

// ---------------------------------------------------------------------
// A string scrambler for cache file names.
// ---------------------------------------------------------------------

/// A 64-bit left rotation.
pub open spec fn rotl_spec(x: u64, k: u64) -> u64
    recommends
        k < 64,
{
    if k == 0 {
        x
    } else {
        (x << k) | (x >> ((64 - k) as u64))
    }
}

/// The byte offset at which character `j` of `s` starts.
pub open spec fn byte_offset(s: Seq<char>, j: int) -> int {
    encode_utf8(s.take(j)).len() as int
}

/// One mixing step of the scrambler: two multiply-add rounds with
/// data-dependent rotations, then a constant flip and a final rotation.
pub open spec fn hash_step(acc: u64, i: int, ch: char) -> u64 {
    let a1 = vstd::wrapping::u64_specs::wrapping_add(
        vstd::wrapping::u64_specs::wrapping_mul(acc, 179425943),
        ch as u64,
    );
    let a2 = rotl_spec(a1, ((i % 19 + 5) % 19) as u64);
    let a3 = vstd::wrapping::u64_specs::wrapping_add(
        vstd::wrapping::u64_specs::wrapping_mul(a2, 1300487),
        i as u64,
    );
    let a4 = rotl_spec(a3, ((i % 17 + 15) % 17) as u64);
    let a5 = a4 ^ 0xFA49_7643_1546_BABA;
    rotl_spec(a5, ((i % 32 + 24) % 32) as u64)
}

/// One pass over the string, mixing every character with its byte
/// offset, from position `j` on.
pub open spec fn hash_pass(acc: u64, s: Seq<char>, j: int) -> u64
    decreases s.len() - j,
{
    if j < 0 || j >= s.len() {
        acc
    } else {
        hash_pass(hash_step(acc, byte_offset(s, j), s[j]), s, j + 1)
    }
}

/// `r` full passes over the string.
pub open spec fn hash_rounds(acc: u64, s: Seq<char>, r: int) -> u64
    decreases r,
{
    if r <= 0 {
        acc
    } else {
        hash_rounds(hash_pass(acc, s, 0), s, r - 1)
    }
}

/// The scrambled value of a string: thirty-two mixing passes from a
/// fixed seed. It only needs to keep different strings apart, for
/// deriving stable file names.
pub open spec fn string_hash_spec(s: Seq<char>) -> u64 {
    hash_rounds(17, s, 32)
}

/// One more round is one more pass applied on top.
proof fn lemma_hash_rounds_snoc(acc: u64, s: Seq<char>, r: int)
    requires
        r >= 0,
    ensures
        hash_rounds(acc, s, r + 1) == hash_pass(hash_rounds(acc, s, r), s, 0),
    decreases r,
{
    if r > 0 {
        lemma_hash_rounds_snoc(hash_pass(acc, s, 0), s, r - 1);
        assert(hash_rounds(acc, s, r + 1) == hash_rounds(hash_pass(acc, s, 0), s, r));
        assert(hash_rounds(acc, s, r) == hash_rounds(hash_pass(acc, s, 0), s, r - 1));
    } else {
        assert(hash_rounds(acc, s, 1) == hash_rounds(hash_pass(acc, s, 0), s, 0));
        assert(hash_rounds(hash_pass(acc, s, 0), s, 0) == hash_pass(acc, s, 0));
        assert(hash_rounds(acc, s, 0) == acc);
    }
}

/// Relies on `str::char_indices` collected by `Iterator::collect`: each
/// character of `s` together with the byte offset at which it starts, in
/// order.
#[verifier::external_body]
fn str_char_offsets(s: &str) -> (r: Vec<(usize, char)>)
    ensures
        r@.len() == s@.len(),
        forall|j: int| 0 <= j < r@.len() ==> (#[trigger] r@[j]).1 == s@[j],
        forall|j: int|
            0 <= j < r@.len() ==> (#[trigger] r@[j]).0 as int == byte_offset(s@, j),
{
    s.char_indices().collect()
}

/// A 64-bit left rotation, as executable code.
fn rotl(x: u64, k: u64) -> (r: u64)
    requires
        k < 64,
    ensures
        r == rotl_spec(x, k),
{
    if k == 0 {
        x
    } else {
        (x << k) | (x >> (64 - k))
    }
}

/// Scrambles a string into a 64-bit value, for deriving a stable cache
/// file name: the result depends only on the characters and their byte
/// offsets.
#[verifier::loop_isolation(false)]
pub fn string_hash(input: &str) -> (r: u64)
    ensures
        r == string_hash_spec(input@),
{
    let idx = str_char_offsets(input);
    let n = idx.len();
    let mut acc: u64 = 17;
    let mut round: usize = 0;
    while round < 32
        invariant
            0 <= round <= 32,
            n == idx@.len(),
            acc == hash_rounds(17, input@, round as int),
        decreases 32 - round,
    {
        let ghost acc0 = acc;
        let mut j: usize = 0;
        while j < n
            invariant
                0 <= j <= n,
                n == idx@.len(),
                hash_pass(acc0, input@, 0) == hash_pass(acc, input@, j as int),
            decreases n - j,
        {
            let i = idx[j].0;
            let ch = idx[j].1;
            let ghost pre = acc;
            proof {
                assert(idx@[j as int].0 as int == byte_offset(input@, j as int));
                assert(idx@[j as int].1 == input@[j as int]);
            }
            let a1 = acc.wrapping_mul(179425943).wrapping_add(ch as u64);
            let a2 = rotl(a1, (((i % 19) + 5) % 19) as u64);
            let a3 = a2.wrapping_mul(1300487).wrapping_add(i as u64);
            let a4 = rotl(a3, (((i % 17) + 15) % 17) as u64);
            let a5 = a4 ^ 0xFA49_7643_1546_BABA;
            acc = rotl(a5, (((i % 32) + 24) % 32) as u64);
            proof {
                assert(acc == hash_step(pre, byte_offset(input@, j as int), input@[j as int]));
            }
            j = j + 1;
        }
        proof {
            lemma_hash_rounds_snoc(17, input@, round as int);
        }
        round = round + 1;
    }
    acc
}

} // verus!


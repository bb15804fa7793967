//! The scrollable, line-wrapping output pane.
//!
//! Every line is drawn behind a gutter of `GUTTER_WIDTH` columns that shows
//! its index modulo 100, and the gutter together with the text is wrapped at
//! the viewport width. A scroll position names the line and the wrapped row
//! of that line that are drawn at the top of the viewport.

use vstd::prelude::*;
use vstd::arithmetic::div_mod::*;
use crate::text::{char_count, chars_of, sub_vec};

verus! {

/// Columns taken by the line-number gutter in front of every line.
pub const GUTTER_WIDTH: usize = 4;

/// Where the viewport of the output pane starts.
#[derive(Clone, Copy, Debug, PartialEq, Eq, Structural)]
pub enum Position {
    /// `At(line, row)`: the top of the viewport shows wrapped row `row` of
    /// line `line`.
    At(i32, i32),
    /// The viewport always shows the newest rows.
    Follow,
}

/// A scroll command, queued until the next redraw.
#[derive(Clone, Copy, Debug, PartialEq, Eq, Structural)]
pub enum Movement {
    ScrollUp,
    ScrollDown,
    Follow,
}

/// The scroll state of the output pane.
pub struct WrapTextState {
    pub position: Position,
    pub movement_queue: Vec<Movement>,
}

#[verifier::external_type_specification]
#[verifier::external_body]
pub struct ExBlock<'a>(tui::widgets::Block<'a>);

/// The lines shown in the output pane, oldest first, and the frame drawn
/// around the pane.
pub struct WrapText<'b> {
    pub lines: Vec<String>,
    pub block: Option<tui::widgets::Block<'b>>,
}

/// What draws the output pane: the lines and the frame.
pub struct WrappableTextWidget<'a, 'b> {
    pub lines: &'a Vec<String>,
    pub block: Option<tui::widgets::Block<'b>>,
}

impl<'b> WrapText<'b> {
    /// The widget that draws the pane; the frame moves into it.
    pub fn widget(&mut self) -> (r: WrappableTextWidget<'_, 'b>)
        ensures
            r.lines@ == old(self).lines@,
            r.block == old(self).block,
            final(self).block is None,
            final(self).lines == old(self).lines,
    {
        let block = self.block.take();
        WrappableTextWidget { lines: &self.lines, block }
    }

    /// Sets the frame drawn around the pane.
    pub fn set_block(&mut self, block: tui::widgets::Block<'b>)
        ensures
            final(self).block == Some(block),
            final(self).lines == old(self).lines,
    {
        self.block = Some(block);
    }
}

/// Number of rows that a line of `len` characters takes behind the gutter
/// when wrapped at `width` columns.
pub open spec fn line_height(len: nat, width: nat) -> nat {
    if width == 0 {
        0
    } else {
        ((len + GUTTER_WIDTH + width - 1) as int / width as int) as nat
    }
}

/// Rows taken by the lines from `start` to the end.
pub open spec fn height_from(lines: Seq<String>, start: int, width: nat) -> nat
    decreases lines.len() - start,
{
    if start < 0 || start >= lines.len() {
        0
    } else {
        line_height(lines[start]@.len(), width) + height_from(lines, start + 1, width)
    }
}

/// The line buffer's own invariant: never empty, and small enough that line
/// indices and row offsets fit in an `i32`.
pub open spec fn valid_lines(lines: Seq<String>) -> bool {
    &&& 1 <= lines.len() <= i32::MAX
    &&& forall|i: int| 0 <= i < lines.len() ==> #[trigger] lines[i]@.len() + GUTTER_WIDTH <= i32::MAX
}

/// A position that names an existing line and one of its wrapped rows.
pub open spec fn valid_position(p: Position, lines: Seq<String>, width: nat) -> bool {
    match p {
        Position::Follow => true,
        Position::At(l, o) => 0 <= l < lines.len() && 0 <= o < line_height(lines[l as int]@.len(), width),
    }
}

/// The last line, searching back from `l`, from which the rows to the end
/// fill `height` rows; 0 where none does.
pub open spec fn follow_line_from(lines: Seq<String>, l: int, width: nat, height: nat) -> int
    decreases l,
{
    if l <= 0 {
        0
    } else if height_from(lines, l, width) >= height {
        l
    } else {
        follow_line_from(lines, l - 1, width, height)
    }
}

/// The line at the top of the viewport in follow mode.
pub open spec fn follow_line(lines: Seq<String>, width: nat, height: nat) -> int {
    follow_line_from(lines, lines.len() - 1, width, height)
}

/// The row of `follow_line` at the top of the viewport in follow mode: the
/// overflow of the rows from that line over the viewport height.
pub open spec fn follow_offset(lines: Seq<String>, width: nat, height: nat) -> int {
    let h = height_from(lines, follow_line(lines, width, height), width);
    if h > height {
        h - height
    } else {
        0
    }
}

pub proof fn lemma_line_height_pos(len: nat, width: nat)
    requires
        width >= 1,
    ensures
        1 <= line_height(len, width) <= len + GUTTER_WIDTH,
        (line_height(len, width) - 1) * width < len + GUTTER_WIDTH,
        len + GUTTER_WIDTH <= line_height(len, width) * width,
{
    let a = (len + GUTTER_WIDTH + width - 1) as int;
    let w = width as int;
    lemma_fundamental_div_mod(a, w);
    lemma_div_pos_is_pos(a, w);
    lemma_mod_bound(a, w);
    lemma_div_is_ordered_by_denominator(a, 1, w);
    let q = a / w;
    assert(q >= 1) by {
        lemma_div_is_ordered(w, a, w);
        lemma_div_by_self(w);
    }
    assert(q - 1 <= len + GUTTER_WIDTH - 1) by (nonlinear_arith)
        requires a == w * q + a % w, 0 <= a % w, a == len + GUTTER_WIDTH + w - 1, w >= 1, q >= 1;
    assert((q - 1) * w < len + GUTTER_WIDTH) by (nonlinear_arith)
        requires a == w * q + a % w, 0 <= a % w < w, a == len + GUTTER_WIDTH + w - 1;
    assert(len + GUTTER_WIDTH <= q * w) by (nonlinear_arith)
        requires a == w * q + a % w, 0 <= a % w < w, a == len + GUTTER_WIDTH + w - 1;
}

/// Number of rows that `line` takes behind the gutter at `width` columns.
pub fn wrapped_height(line: &String, width: u16) -> (r: usize)
    requires
        width >= 1,
        line@.len() + GUTTER_WIDTH <= i32::MAX,
    ensures
        r == line_height(line@.len(), width as nat),
        1 <= r <= line@.len() + GUTTER_WIDTH,
{
    let len = char_count(line);
    proof { lemma_line_height_pos(len as nat, width as nat); }
    (len + GUTTER_WIDTH + width as usize - 1) / width as usize
}


/// Height of line `l` of `lines` at `width` columns.
pub open spec fn height_of(lines: Seq<String>, l: int, width: nat) -> nat {
    line_height(lines[l]@.len(), width)
}

/// One wrapped row up from row `o` of line `l`; stays put at the first row
/// of the first line.
pub open spec fn scroll_up_from(l: int, o: int, lines: Seq<String>, width: nat) -> Position {
    if o > 0 {
        Position::At(l as i32, (o - 1) as i32)
    } else if l > 0 {
        Position::At((l - 1) as i32, (height_of(lines, l - 1, width) - 1) as i32)
    } else {
        Position::At(l as i32, o as i32)
    }
}

/// One wrapped row down from row `o` of line `l`; stays put at the last row
/// of the last line.
pub open spec fn scroll_down_from(l: int, o: int, lines: Seq<String>, width: nat) -> Position {
    if o + 1 < height_of(lines, l, width) {
        Position::At(l as i32, (o + 1) as i32)
    } else if l + 1 < lines.len() {
        Position::At((l + 1) as i32, 0)
    } else {
        Position::At(l as i32, o as i32)
    }
}

/// The position that follow mode stands for, as a concrete position.
pub open spec fn follow_position(lines: Seq<String>, width: nat, height: nat) -> Position {
    Position::At(follow_line(lines, width, height) as i32, follow_offset(lines, width, height) as i32)
}

/// The position after one movement. A scroll up out of follow mode first
/// resolves follow mode to its concrete position and then moves up from
/// there; a scroll down out of follow mode stops at that position.
#[verifier::opaque]
pub open spec fn movement_result(p: Position, m: Movement, lines: Seq<String>, width: nat, height: nat) -> Position {
    match m {
        Movement::Follow => Position::Follow,
        Movement::ScrollUp => match p {
            Position::At(l, o) => scroll_up_from(l as int, o as int, lines, width),
            Position::Follow => scroll_up_from(
                follow_line(lines, width, height),
                follow_offset(lines, width, height),
                lines,
                width,
            ),
        },
        Movement::ScrollDown => match p {
            Position::At(l, o) => scroll_down_from(l as int, o as int, lines, width),
            Position::Follow => follow_position(lines, width, height),
        },
    }
}

/// The position after the movements `movs`, applied in order.
pub open spec fn movements_result(p: Position, movs: Seq<Movement>, lines: Seq<String>, width: nat, height: nat) -> Position
    decreases movs.len(),
{
    if movs.len() == 0 {
        p
    } else {
        movement_result(movements_result(p, movs.drop_last(), lines, width, height), movs.last(), lines, width, height)
    }
}

/// `p` brought back into the line buffer: the line index into the existing
/// lines, the row into the rows of that line at `width` columns.
pub open spec fn clamped(p: Position, lines: Seq<String>, width: nat) -> Position {
    match p {
        Position::Follow => Position::Follow,
        Position::At(l, o) => {
            let l2: int = if l < 0 { 0 } else if l >= lines.len() { lines.len() - 1 } else { l as int };
            let h = height_of(lines, l2, width);
            let o2: int = if o < 0 { 0 } else if o >= h { h - 1 } else { o as int };
            Position::At(l2 as i32, o2 as i32)
        },
    }
}

/// Every line is at least one row high.
pub proof fn lemma_heights_pos(lines: Seq<String>, width: nat)
    requires
        valid_lines(lines),
        width >= 1,
    ensures
        forall|l: int| 0 <= l < lines.len() ==> 1 <= #[trigger] height_of(lines, l, width) <= i32::MAX,
{
    assert forall|l: int| 0 <= l < lines.len() implies 1 <= #[trigger] height_of(lines, l, width) <= i32::MAX by {
        assert(lines[l]@.len() + GUTTER_WIDTH <= i32::MAX);
        lemma_line_height_pos(lines[l]@.len(), width);
    }
}

proof fn lemma_follow_line_from(lines: Seq<String>, l: int, width: nat, height: nat)
    requires
        valid_lines(lines),
        width >= 1,
        0 <= l < lines.len(),
        forall|k: int| l < k < lines.len() ==> height_from(lines, k, width) < height,
    ensures
        0 <= follow_line_from(lines, l, width, height) <= l,
        forall|k: int| follow_line_from(lines, l, width, height) < k < lines.len()
            ==> height_from(lines, k, width) < height,
        height_from(lines, 0, width) >= height
            ==> height_from(lines, follow_line_from(lines, l, width, height), width) >= height,
        follow_line_from(lines, l, width, height) > 0
            ==> height_from(lines, follow_line_from(lines, l, width, height), width) >= height,
    decreases l,
{
    if l > 0 && height_from(lines, l, width) < height {
        lemma_follow_line_from(lines, l - 1, width, height);
    }
}

/// The follow position is a valid position, and where the lines fill the
/// viewport, the rows from it to the end are exactly the viewport's height.
pub proof fn lemma_follow_position(lines: Seq<String>, width: nat, height: nat)
    requires
        valid_lines(lines),
        width >= 1,
        height >= 1,
    ensures
        valid_position(follow_position(lines, width, height), lines, width),
        0 <= follow_line(lines, width, height) < lines.len(),
        0 <= follow_offset(lines, width, height) < height_of(lines, follow_line(lines, width, height), width),
        height_from(lines, 0, width) >= height ==> height_from(lines, follow_line(lines, width, height), width)
            - follow_offset(lines, width, height) == height,
        height_from(lines, 0, width) < height ==> follow_line(lines, width, height) == 0
            && follow_offset(lines, width, height) == 0,
{
    let n = lines.len() as int;
    assert(height_from(lines, n, width) == 0);
    lemma_follow_line_from(lines, n - 1, width, height);
    lemma_heights_pos(lines, width);
    let l = follow_line(lines, width, height);
    assert(height_from(lines, l + 1, width) < height);
    if height_from(lines, 0, width) < height {
        if l > 0 {
            lemma_height_from_mono(lines, 0, l, width);
        }
    }
    let o = follow_offset(lines, width, height);
    assert(0 <= o < height_of(lines, l, width));
    assert((l as i32) as int == l);
    assert((o as i32) as int == o);
}

/// A movement from a valid position ends at a valid position.
pub proof fn lemma_movement_valid(p: Position, m: Movement, lines: Seq<String>, width: nat, height: nat)
    requires
        valid_lines(lines),
        width >= 1,
        height >= 1,
        valid_position(p, lines, width),
    ensures
        valid_position(movement_result(p, m, lines, width, height), lines, width),
{
    reveal(movement_result);
    lemma_heights_pos(lines, width);
    lemma_follow_position(lines, width, height);
    let (l, o) = match p {
        Position::At(l, o) => (l as int, o as int),
        Position::Follow => (follow_line(lines, width, height), follow_offset(lines, width, height)),
    };
    let h = height_of(lines, l, width);
    assert(0 <= l < lines.len() && 0 <= o < h && h <= i32::MAX);
    match m {
        Movement::Follow => {},
        Movement::ScrollUp => {
            if o > 0 {
                assert(((o - 1) as i32) as int == o - 1);
            } else if l > 0 {
                let hp = height_of(lines, l - 1, width);
                assert(1 <= hp <= i32::MAX);
                assert(((hp - 1) as i32) as int == hp - 1);
                assert(((l - 1) as i32) as int == l - 1);
            }
            assert((l as i32) as int == l);
            assert((o as i32) as int == o);
        },
        Movement::ScrollDown => {
            if p is At {
                assert(((o + 1) as i32) as int == o + 1);
                if l + 1 < lines.len() {
                    assert(((l + 1) as i32) as int == l + 1);
                    assert(1 <= height_of(lines, l + 1, width));
                }
                assert((l as i32) as int == l);
                assert((o as i32) as int == o);
            }
        },
    }
}

/// The rows from a line on are no more than the rows from an earlier line on.
pub proof fn lemma_height_from_mono(lines: Seq<String>, a: int, b: int, width: nat)
    requires
        0 <= a <= b,
    ensures
        height_from(lines, b, width) <= height_from(lines, a, width),
    decreases b - a,
{
    if a < b {
        lemma_height_from_mono(lines, a + 1, b, width);
    }
}

/// The character of the decimal digit `d`.
pub open spec fn digit_char(d: int) -> char {
    ((48 + d) as u8) as char
}

/// The gutter drawn in front of line `index`: its index modulo 100 as two
/// digits, between two blanks.
pub open spec fn gutter(index: int) -> Seq<char> {
    seq![' ', digit_char((index % 100) / 10), digit_char(index % 10), ' ']
}

/// Line `l` as drawn: gutter, then text.
pub open spec fn row_text(lines: Seq<String>, l: int) -> Seq<char> {
    gutter(l) + lines[l]@
}

/// The wrapped rows of line `l` at `width` columns, each marked with
/// whether it is the first row of the line.
pub open spec fn line_rows(lines: Seq<String>, l: int, width: nat) -> Seq<(bool, Seq<char>)> {
    let t = row_text(lines, l);
    Seq::new(
        height_of(lines, l, width),
        |k: int| (k == 0, t.subrange(k * width, if (k + 1) * width < t.len() { (k + 1) * width } else { t.len() as int })),
    )
}

/// The wrapped rows of the lines from `start` to the end.
pub open spec fn rows_from(lines: Seq<String>, start: int, width: nat) -> Seq<(bool, Seq<char>)>
    decreases lines.len() - start,
{
    if start < 0 || start >= lines.len() {
        Seq::empty()
    } else {
        line_rows(lines, start, width) + rows_from(lines, start + 1, width)
    }
}

/// The rows that a viewport of `height` rows shows when its top is row
/// `offset` of line `line`.
pub open spec fn visible_rows(lines: Seq<String>, line: int, offset: int, width: nat, height: nat) -> Seq<(bool, Seq<char>)> {
    let all = rows_from(lines, line, width);
    all.subrange(offset, if offset + height < all.len() { offset + height } else { all.len() as int })
}

/// The rows of a layout, as values.
pub open spec fn row_views(rows: Seq<(bool, Vec<char>)>) -> Seq<(bool, Seq<char>)> {
    rows.map_values(|r: (bool, Vec<char>)| (r.0, r.1@))
}

/// There are as many rows from a line on as the heights of those lines add up to.
pub proof fn lemma_rows_len(lines: Seq<String>, start: int, width: nat)
    requires
        0 <= start,
    ensures
        rows_from(lines, start, width).len() == height_from(lines, start, width),
    decreases lines.len() - start,
{
    if start < lines.len() {
        lemma_rows_len(lines, start + 1, width);
    }
}

/// Row `j` of line `i` stands among the rows from line `start` on after the
/// rows of the lines before `i`.
pub proof fn lemma_rows_index(lines: Seq<String>, start: int, i: int, j: int, width: nat)
    requires
        0 <= start <= i < lines.len(),
        0 <= j < height_of(lines, i, width),
    ensures
        height_from(lines, i, width) <= height_from(lines, start, width),
        rows_from(lines, start, width)[height_from(lines, start, width) - height_from(lines, i, width) + j]
            == line_rows(lines, i, width)[j],
    decreases i - start,
{
    lemma_rows_len(lines, start + 1, width);
    if start < i {
        lemma_rows_index(lines, start + 1, i, j, width);
    }
}

/// The line and row at the top of the viewport for position `p`.
pub open spec fn start_of(p: Position, lines: Seq<String>, width: nat, height: nat) -> (int, int) {
    match p {
        Position::At(l, o) => (l as int, o as int),
        Position::Follow => (follow_line(lines, width, height), follow_offset(lines, width, height)),
    }
}

/// Doubling the width halves the height of a line, rounded up: the height at
/// `width` columns is twice the height at `2 * width` columns, or one less.
pub proof fn lemma_double_width_halves_height(len: nat, width: nat)
    requires
        width >= 1,
    ensures
        line_height(len, width) >= 1,
        2 * line_height(len, 2 * width) - 1 <= line_height(len, width) <= 2 * line_height(len, 2 * width),
{
    lemma_line_height_pos(len, width);
    lemma_line_height_pos(len, 2 * width);
    let a = len + GUTTER_WIDTH;
    let h1 = line_height(len, width);
    let h2 = line_height(len, 2 * width);
    assert(2 * h2 - 1 <= h1 <= 2 * h2) by (nonlinear_arith)
        requires
            (h1 - 1) * width < a,
            a <= h1 * width,
            (h2 - 1) * (2 * width) < a,
            a <= h2 * (2 * width),
            width >= 1;
}

/// In follow mode, once the lines fill the viewport, the viewport is full
/// and its bottom row is the last wrapped row of the last line, which ends
/// with the last character of that line as drawn.
pub proof fn lemma_follow_shows_tail(lines: Seq<String>, width: nat, height: nat)
    requires
        valid_lines(lines),
        width >= 1,
        height >= 1,
        height_from(lines, 0, width) >= height,
    ensures
        ({
            let v = visible_rows(lines, follow_line(lines, width, height), follow_offset(lines, width, height), width, height);
            let last = lines.len() - 1;
            let t = row_text(lines, last);
            &&& v.len() == height
            &&& v.last() == line_rows(lines, last, width).last()
            &&& v.last().1.len() >= 1
            &&& v.last().1.last() == t.last()
        }),
{
    lemma_follow_position(lines, width, height);
    lemma_heights_pos(lines, width);
    let l = follow_line(lines, width, height);
    let o = follow_offset(lines, width, height);
    let n = lines.len() as int;
    lemma_rows_len(lines, l, width);
    let lh = height_of(lines, n - 1, width);
    assert(height_from(lines, n, width) == 0);
    assert(height_from(lines, n - 1, width) == lh);
    lemma_rows_index(lines, l, n - 1, lh - 1, width);
    assert(lines[n - 1]@.len() + GUTTER_WIDTH <= i32::MAX);
    lemma_line_height_pos(lines[n - 1]@.len(), width);
    let t = row_text(lines, n - 1);
    let k = lh - 1;
    assert(k * width < t.len());
    assert(t.len() <= (k + 1) * width) by (nonlinear_arith)
        requires t.len() <= lh * width, k == lh - 1;
}

/// The index of row `o` of line `l` among all rows of the buffer.
pub open spec fn row_index(lines: Seq<String>, l: int, o: int, width: nat) -> int {
    height_from(lines, 0, width) - height_from(lines, l, width) + o
}

/// The same movement `k` times.
pub open spec fn repeated(m: Movement, k: nat) -> Seq<Movement> {
    Seq::new(k, |_i: int| m)
}

/// Applying two runs of movements is applying the first, then the second.
pub proof fn lemma_movements_concat(p: Position, a: Seq<Movement>, b: Seq<Movement>, lines: Seq<String>, width: nat, height: nat)
    ensures
        movements_result(p, a + b, lines, width, height)
            == movements_result(movements_result(p, a, lines, width, height), b, lines, width, height),
    decreases b.len(),
{
    if b.len() == 0 {
        assert(a + b == a);
    } else {
        assert((a + b).drop_last() == a + b.drop_last());
        assert((a + b).last() == b.last());
        lemma_movements_concat(p, a, b.drop_last(), lines, width, height);
    }
}

proof fn lemma_up_step(lines: Seq<String>, width: nat, height: nat, p: Position)
    requires
        valid_lines(lines),
        width >= 1,
        p is At,
        valid_position(p, lines, width),
        row_index(lines, p->At_0 as int, p->At_1 as int, width) > 0,
    ensures
        ({
            let q = movement_result(p, Movement::ScrollUp, lines, width, height);
            &&& q is At
            &&& valid_position(q, lines, width)
            &&& row_index(lines, q->At_0 as int, q->At_1 as int, width)
                == row_index(lines, p->At_0 as int, p->At_1 as int, width) - 1
            &&& movement_result(q, Movement::ScrollDown, lines, width, height) == p
        }),
{
    reveal(movement_result);
    lemma_heights_pos(lines, width);
    let l = p->At_0 as int;
    let o = p->At_1 as int;
    if o == 0 {
        if l == 0 {
            assert(row_index(lines, l, o, width) == 0);
        }
        let hp = height_of(lines, l - 1, width);
        assert(((hp - 1) as i32) as int == hp - 1);
        assert(((l - 1) as i32) as int == l - 1);
        assert(height_from(lines, l - 1, width) == hp + height_from(lines, l, width));
    } else {
        assert(((o - 1) as i32) as int == o - 1);
    }
}

proof fn lemma_down_step(lines: Seq<String>, width: nat, height: nat, p: Position)
    requires
        valid_lines(lines),
        width >= 1,
        p is At,
        valid_position(p, lines, width),
        row_index(lines, p->At_0 as int, p->At_1 as int, width) + 1 < height_from(lines, 0, width),
    ensures
        ({
            let q = movement_result(p, Movement::ScrollDown, lines, width, height);
            &&& q is At
            &&& valid_position(q, lines, width)
            &&& row_index(lines, q->At_0 as int, q->At_1 as int, width)
                == row_index(lines, p->At_0 as int, p->At_1 as int, width) + 1
            &&& movement_result(q, Movement::ScrollUp, lines, width, height) == p
        }),
{
    reveal(movement_result);
    lemma_heights_pos(lines, width);
    let l = p->At_0 as int;
    let o = p->At_1 as int;
    let h = height_of(lines, l, width);
    assert(height_from(lines, l, width) == h + height_from(lines, l + 1, width));
    if o + 1 < h {
        assert(((o + 1) as i32) as int == o + 1);
    } else {
        if l + 1 >= lines.len() {
            assert(height_from(lines, l + 1, width) == 0);
        }
        assert(((l + 1) as i32) as int == l + 1);
        assert(1 <= height_of(lines, l + 1, width));
    }
}

proof fn lemma_repeated_peel(m: Movement, k: nat)
    requires
        k >= 1,
    ensures
        repeated(m, k).drop_last() == repeated(m, (k - 1) as nat),
        repeated(m, k).last() == m,
        repeated(m, k) == seq![m] + repeated(m, (k - 1) as nat),
{
    assert(repeated(m, k).drop_last() == repeated(m, (k - 1) as nat));
    assert(repeated(m, k) == seq![m] + repeated(m, (k - 1) as nat));
}

proof fn lemma_up_down(lines: Seq<String>, width: nat, height: nat, p: Position, k: nat)
    requires
        valid_lines(lines),
        width >= 1,
        p is At,
        valid_position(p, lines, width),
        row_index(lines, p->At_0 as int, p->At_1 as int, width) >= k,
    ensures
        ({
            let q = movements_result(p, repeated(Movement::ScrollUp, k), lines, width, height);
            &&& q is At
            &&& valid_position(q, lines, width)
            &&& row_index(lines, q->At_0 as int, q->At_1 as int, width)
                == row_index(lines, p->At_0 as int, p->At_1 as int, width) - k
            &&& movements_result(q, repeated(Movement::ScrollDown, k), lines, width, height) == p
        }),
    decreases k,
{
    if k == 0 {
        assert(repeated(Movement::ScrollUp, 0) == Seq::<Movement>::empty());
        assert(repeated(Movement::ScrollDown, 0) == Seq::<Movement>::empty());
    } else {
        let k1 = (k - 1) as nat;
        lemma_up_down(lines, width, height, p, k1);
        lemma_repeated_peel(Movement::ScrollUp, k);
        lemma_repeated_peel(Movement::ScrollDown, k);
        let q = movements_result(p, repeated(Movement::ScrollUp, k1), lines, width, height);
        lemma_up_step(lines, width, height, q);
        let q2 = movements_result(p, repeated(Movement::ScrollUp, k), lines, width, height);
        assert(q2 == movement_result(q, Movement::ScrollUp, lines, width, height));
        lemma_movements_concat(q2, seq![Movement::ScrollDown], repeated(Movement::ScrollDown, k1), lines, width, height);
        assert(seq![Movement::ScrollDown].drop_last() == Seq::<Movement>::empty());
        assert(seq![Movement::ScrollDown].last() == Movement::ScrollDown);
        assert(movements_result(q2, Seq::<Movement>::empty(), lines, width, height) == q2);
        assert(movements_result(q2, seq![Movement::ScrollDown], lines, width, height)
            == movement_result(q2, Movement::ScrollDown, lines, width, height));
    }
}

proof fn lemma_down_up(lines: Seq<String>, width: nat, height: nat, p: Position, k: nat)
    requires
        valid_lines(lines),
        width >= 1,
        p is At,
        valid_position(p, lines, width),
        row_index(lines, p->At_0 as int, p->At_1 as int, width) + k < height_from(lines, 0, width),
    ensures
        ({
            let q = movements_result(p, repeated(Movement::ScrollDown, k), lines, width, height);
            &&& q is At
            &&& valid_position(q, lines, width)
            &&& row_index(lines, q->At_0 as int, q->At_1 as int, width)
                == row_index(lines, p->At_0 as int, p->At_1 as int, width) + k
            &&& movements_result(q, repeated(Movement::ScrollUp, k), lines, width, height) == p
        }),
    decreases k,
{
    if k == 0 {
        assert(repeated(Movement::ScrollUp, 0) == Seq::<Movement>::empty());
        assert(repeated(Movement::ScrollDown, 0) == Seq::<Movement>::empty());
    } else {
        let k1 = (k - 1) as nat;
        lemma_down_up(lines, width, height, p, k1);
        lemma_repeated_peel(Movement::ScrollUp, k);
        lemma_repeated_peel(Movement::ScrollDown, k);
        let q = movements_result(p, repeated(Movement::ScrollDown, k1), lines, width, height);
        lemma_down_step(lines, width, height, q);
        let q2 = movements_result(p, repeated(Movement::ScrollDown, k), lines, width, height);
        assert(q2 == movement_result(q, Movement::ScrollDown, lines, width, height));
        lemma_movements_concat(q2, seq![Movement::ScrollUp], repeated(Movement::ScrollUp, k1), lines, width, height);
        assert(seq![Movement::ScrollUp].drop_last() == Seq::<Movement>::empty());
        assert(seq![Movement::ScrollUp].last() == Movement::ScrollUp);
        assert(movements_result(q2, Seq::<Movement>::empty(), lines, width, height) == q2);
        assert(movements_result(q2, seq![Movement::ScrollUp], lines, width, height)
            == movement_result(q2, Movement::ScrollUp, lines, width, height));
    }
}

/// Scrolling up `k` rows and then down `k` rows returns to the starting
/// position, as long as the scroll up does not reach the first row of the
/// buffer; scrolling down `k` rows and then up `k` rows does too, as long as
/// the scroll down does not reach the last row.
pub proof fn lemma_scroll_round_trip(lines: Seq<String>, width: nat, height: nat, p: Position, k: nat)
    requires
        valid_lines(lines),
        width >= 1,
        p is At,
        valid_position(p, lines, width),
    ensures
        row_index(lines, p->At_0 as int, p->At_1 as int, width) >= k ==> movements_result(
            p,
            repeated(Movement::ScrollUp, k) + repeated(Movement::ScrollDown, k),
            lines,
            width,
            height,
        ) == p,
        row_index(lines, p->At_0 as int, p->At_1 as int, width) + k < height_from(lines, 0, width)
            ==> movements_result(
            p,
            repeated(Movement::ScrollDown, k) + repeated(Movement::ScrollUp, k),
            lines,
            width,
            height,
        ) == p,
{
    lemma_movements_concat(p, repeated(Movement::ScrollUp, k), repeated(Movement::ScrollDown, k), lines, width, height);
    lemma_movements_concat(p, repeated(Movement::ScrollDown, k), repeated(Movement::ScrollUp, k), lines, width, height);
    if row_index(lines, p->At_0 as int, p->At_1 as int, width) >= k {
        lemma_up_down(lines, width, height, p, k);
    }
    if row_index(lines, p->At_0 as int, p->At_1 as int, width) + k < height_from(lines, 0, width) {
        lemma_down_up(lines, width, height, p, k);
    }
}

impl Position {
    /// Computes the start position given that we follow.
    pub fn follow_get_start_pos(width: u16, height: u16, lines: &[String]) -> (r: (i32, i32))
        requires
            width >= 1,
            height >= 1,
            valid_lines(lines@),
        ensures
            r.0 == follow_line(lines@, width as nat, height as nat),
            r.1 == follow_offset(lines@, width as nat, height as nat),
    {
        let n = lines.len();
        let mut l: usize = n - 1;
        let mut tot: u64 = wrapped_height(&lines[l], width) as u64;
        proof {
            assert(lines@[n - 1]@.len() + GUTTER_WIDTH <= i32::MAX);
            assert(height_from(lines@, n as int, width as nat) == 0);
        }
        while tot < height as u64 && l > 0
            invariant
                valid_lines(lines@),
                n == lines@.len(),
                width >= 1,
                0 <= l < n,
                tot == height_from(lines@, l as int, width as nat),
                tot <= height + i32::MAX,
                follow_line(lines@, width as nat, height as nat)
                    == follow_line_from(lines@, l as int, width as nat, height as nat),
            decreases l,
        {
            proof { assert(lines@[l - 1]@.len() + GUTTER_WIDTH <= i32::MAX); }
            l = l - 1;
            tot = tot + wrapped_height(&lines[l], width) as u64;
        }
        let offset: u64 = if tot > height as u64 { tot - height as u64 } else { 0 };
        proof {
            assert(lines@[l as int]@.len() + GUTTER_WIDTH <= i32::MAX);
            lemma_line_height_pos(lines@[l as int]@.len(), width as nat);
        }
        (l as i32, offset as i32)
    }

    /// Applies one movement to the position.
    pub fn do_movement(&mut self, mov: Movement, width: u16, height: u16, lines: &[String])
        requires
            width >= 1,
            height >= 1,
            valid_lines(lines@),
            valid_position(*old(self), lines@, width as nat),
        ensures
            *final(self) == movement_result(*old(self), mov, lines@, width as nat, height as nat),
            valid_position(*final(self), lines@, width as nat),
    {
        proof {
            lemma_heights_pos(lines@, width as nat);
            lemma_follow_position(lines@, width as nat, height as nat);
            lemma_movement_valid(*self, mov, lines@, width as nat, height as nat);
            reveal(movement_result);
        }
        *self = match mov {
            Movement::ScrollUp => {
                let (line, offset) = match *self {
                    Position::At(line, offset) => (line, offset),
                    Position::Follow => Position::follow_get_start_pos(width, height, lines),
                };
                if offset > 0 {
                    Position::At(line, offset - 1)
                } else if line > 0 {
                    let h = wrapped_height(&lines[(line - 1) as usize], width);
                    Position::At(line - 1, (h - 1) as i32)
                } else {
                    Position::At(line, offset)
                }
            },
            Movement::ScrollDown => match *self {
                Position::At(line, offset) => {
                    let h = wrapped_height(&lines[line as usize], width);
                    if (offset as usize) + 1 < h {
                        Position::At(line, offset + 1)
                    } else if (line as usize) + 1 < lines.len() {
                        Position::At(line + 1, 0)
                    } else {
                        Position::At(line, offset)
                    }
                },
                Position::Follow => {
                    let (line, offset) = Position::follow_get_start_pos(width, height, lines);
                    Position::At(line, offset)
                },
            },
            Movement::Follow => Position::Follow,
        };
    }

    /// The position brought back into the line buffer at `width` columns, as
    /// needed after the viewport was resized.
    pub fn clamp(&self, width: u16, lines: &[String]) -> (r: Position)
        requires
            width >= 1,
            valid_lines(lines@),
        ensures
            r == clamped(*self, lines@, width as nat),
            valid_position(r, lines@, width as nat),
    {
        proof { lemma_heights_pos(lines@, width as nat); }
        match *self {
            Position::Follow => Position::Follow,
            Position::At(l, o) => {
                let n = lines.len();
                let l2: usize = if l < 0 { 0 } else if l as usize >= n { n - 1 } else { l as usize };
                let h = wrapped_height(&lines[l2], width);
                let o2: usize = if o < 0 { 0 } else if o as usize >= h { h - 1 } else { o as usize };
                Position::At(l2 as i32, o2 as i32)
            },
        }
    }
}

/// The decimal digit `d` as a character.
fn digit(d: usize) -> (r: char)
    requires
        d < 10,
    ensures
        r == digit_char(d as int),
{
    ((48 + d) as u8) as char
}

/// Line `l` as drawn: gutter, then text.
fn line_text(lines: &[String], l: usize) -> (r: Vec<char>)
    requires
        l < lines@.len(),
    ensures
        r@ == row_text(lines@, l as int),
{
    let d = l % 100;
    let mut r: Vec<char> = Vec::new();
    r.push(' ');
    r.push(digit(d / 10));
    r.push(digit(d % 10));
    r.push(' ');
    let mut rest = chars_of(&lines[l]);
    r.append(&mut rest);
    proof {
        assert(r@ == row_text(lines@, l as int));
    }
    r
}

/// Lays out a viewport of `height` rows at `width` columns whose top is row
/// `offset` of line `line`: each row with whether it starts a line.
pub fn layout_rows(lines: &[String], line: usize, offset: usize, width: u16, height: u16) -> (rows: Vec<(bool, Vec<char>)>)
    requires
        width >= 1,
        valid_lines(lines@),
        line < lines@.len(),
        offset < height_of(lines@, line as int, width as nat),
    ensures
        row_views(rows@) == visible_rows(lines@, line as int, offset as int, width as nat, height as nat),
{
    let ghost all = rows_from(lines@, line as int, width as nat);
    let ghost total = height_from(lines@, line as int, width as nat);
    proof {
        lemma_rows_len(lines@, line as int, width as nat);
        lemma_heights_pos(lines@, width as nat);
    }
    let n = lines.len();
    let w = width as usize;
    let h = height as usize;
    let mut rows: Vec<(bool, Vec<char>)> = Vec::new();
    let mut i: usize = line;
    let mut k0: usize = offset;
    while i < n && rows.len() < h
        invariant
            width >= 1,
            w == width,
            h == height,
            n == lines@.len(),
            valid_lines(lines@),
            line < n,
            line <= i <= n,
            offset < height_of(lines@, line as int, width as nat),
            all == rows_from(lines@, line as int, width as nat),
            total == height_from(lines@, line as int, width as nat),
            all.len() == total,
            forall|l: int| 0 <= l < lines@.len() ==> 1 <= #[trigger] height_of(lines@, l, width as nat) <= i32::MAX,
            k0 == (if i == line { offset } else { 0 }),
            rows.len() <= h,
            offset + rows.len() <= total,
            row_views(rows@) == all.subrange(offset as int, offset + rows.len()),
            rows.len() < h && i < n ==> offset + rows.len() == total - height_from(lines@, i as int, width as nat) + k0,
            rows.len() < h && i == n ==> offset + rows.len() == total,
        decreases n - i,
    {
        let text = line_text(lines, i);
        proof { assert(lines@[i as int]@.len() + GUTTER_WIDTH <= i32::MAX); }
        let lh = wrapped_height(&lines[i], width);
        proof {
            lemma_line_height_pos(lines@[i as int]@.len(), width as nat);
            lemma_height_from_mono(lines@, line as int, i as int, width as nat);
        }
        let ghost base = total - height_from(lines@, i as int, width as nat);
        let mut k: usize = k0;
        while k < lh && rows.len() < h
            invariant
                width >= 1,
                w == width,
                h == height,
                n == lines@.len(),
                line <= i < n,
                text@ == row_text(lines@, i as int),
                text@.len() == lines@[i as int]@.len() + GUTTER_WIDTH,
                lh == height_of(lines@, i as int, width as nat),
                (lh - 1) * w < text@.len(),
                text@.len() <= i32::MAX,
                all == rows_from(lines@, line as int, width as nat),
                total == height_from(lines@, line as int, width as nat),
                all.len() == total,
                base == total - height_from(lines@, i as int, width as nat),
                height_from(lines@, i as int, width as nat) == lh + height_from(lines@, i + 1, width as nat),
                k0 <= k <= lh,
                rows.len() <= h,
                offset + rows.len() == base + k,
                offset + rows.len() <= total,
                row_views(rows@) == all.subrange(offset as int, offset + rows.len()),
            decreases lh - k,
        {
            proof {
                assert(k * w <= (lh - 1) * w) by (nonlinear_arith)
                    requires k < lh;
            }
            let from = k * w;
            let to = if from + w < text.len() { from + w } else { text.len() };
            let row = sub_vec(&text, from, to);
            proof {
                lemma_rows_index(lines@, line as int, i as int, k as int, width as nat);
                let e = offset + rows.len();
                assert(all[e] == line_rows(lines@, i as int, width as nat)[k as int]);
                assert(from + w == (k + 1) * w) by (nonlinear_arith)
                    requires from == k * w;
                assert(all[e] == (k == 0, row@));
                assert(all.subrange(offset as int, e + 1) == all.subrange(offset as int, e).push(all[e]));
            }
            let ghost old_rows = rows@;
            rows.push((k == 0, row));
            proof {
                assert(row_views(rows@) == row_views(old_rows).push((k == 0, row@)));
            }
            k = k + 1;
        }
        i = i + 1;
        k0 = 0;
    }
    proof {
        assert(row_views(rows@) == visible_rows(lines@, line as int, offset as int, width as nat, height as nat));
    }
    rows
}

impl WrapTextState {
    /// A state in follow mode with no pending movement.
    pub fn new() -> (r: WrapTextState)
        ensures
            r.position == Position::Follow,
            r.movement_queue@ == Seq::<Movement>::empty(),
    {
        WrapTextState { position: Position::Follow, movement_queue: Vec::new() }
    }

    /// Queues one row up.
    pub fn scroll_up(&mut self)
        ensures
            final(self).position == old(self).position,
            final(self).movement_queue@ == old(self).movement_queue@.push(Movement::ScrollUp),
    {
        self.movement_queue.push(Movement::ScrollUp);
    }

    /// Queues one row down.
    pub fn scroll_down(&mut self)
        ensures
            final(self).position == old(self).position,
            final(self).movement_queue@ == old(self).movement_queue@.push(Movement::ScrollDown),
    {
        self.movement_queue.push(Movement::ScrollDown);
    }

    /// Queues a return to follow mode.
    pub fn follow(&mut self)
        ensures
            final(self).position == old(self).position,
            final(self).movement_queue@ == old(self).movement_queue@.push(Movement::Follow),
    {
        self.movement_queue.push(Movement::Follow);
    }

    /// Brings the position back into the line buffer, applies the queued
    /// movements in order and empties the queue.
    pub fn apply_movements(&mut self, width: u16, height: u16, lines: &[String])
        requires
            width >= 1,
            height >= 1,
            valid_lines(lines@),
        ensures
            final(self).position == movements_result(
                clamped(old(self).position, lines@, width as nat),
                old(self).movement_queue@,
                lines@,
                width as nat,
                height as nat,
            ),
            final(self).movement_queue@ == Seq::<Movement>::empty(),
            valid_position(final(self).position, lines@, width as nat),
    {
        let start = self.position.clamp(width, lines);
        self.position = start;
        let mut i: usize = 0;
        while i < self.movement_queue.len()
            invariant
                width >= 1,
                height >= 1,
                valid_lines(lines@),
                0 <= i <= self.movement_queue.len(),
                self.movement_queue@ == old(self).movement_queue@,
                start == clamped(old(self).position, lines@, width as nat),
                self.position == movements_result(
                    start,
                    self.movement_queue@.take(i as int),
                    lines@,
                    width as nat,
                    height as nat,
                ),
                valid_position(self.position, lines@, width as nat),
            decreases self.movement_queue.len() - i,
        {
            let m = self.movement_queue[i];
            self.position.do_movement(m, width, height, lines);
            proof {
                assert(self.movement_queue@.take(i + 1).drop_last() == self.movement_queue@.take(i as int));
            }
            i = i + 1;
        }
        proof {
            assert(self.movement_queue@.take(i as int) == old(self).movement_queue@);
        }
        self.movement_queue.clear();
    }

    /// Applies the queued movements, then lays out the viewport of `height`
    /// rows at `width` columns from the resulting position.
    pub fn render(&mut self, width: u16, height: u16, lines: &[String]) -> (rows: Vec<(bool, Vec<char>)>)
        requires
            width >= 1,
            height >= 1,
            valid_lines(lines@),
        ensures
            final(self).position == movements_result(
                clamped(old(self).position, lines@, width as nat),
                old(self).movement_queue@,
                lines@,
                width as nat,
                height as nat,
            ),
            final(self).movement_queue@ == Seq::<Movement>::empty(),
            valid_position(final(self).position, lines@, width as nat),
            ({
                let (l, o) = start_of(final(self).position, lines@, width as nat, height as nat);
                row_views(rows@) == visible_rows(lines@, l, o, width as nat, height as nat)
            }),
    {
        self.apply_movements(width, height, lines);
        let (line, offset) = match self.position {
            Position::At(l, o) => (l, o),
            Position::Follow => Position::follow_get_start_pos(width, height, lines),
        };
        proof { lemma_follow_position(lines@, width as nat, height as nat); }
        layout_rows(lines, line as usize, offset as usize, width, height)
    }
}



} // verus!

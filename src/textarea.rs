//! The text area: rows of text, a cursor, an optional selection anchor, the
//! viewport, and the layout settings (soft wrap, wrap width, tab stop,
//! line-number gutter).
use vstd::prelude::*;
use crate::viewport::{Viewport, clamp_u16, next_scroll_top, next_scroll_top_spec};
use crate::width::{
    calculate_horizontal_range, chars_of, horizontal_range, prefix_visual_width,
    prefix_width, visual_width,
};
use crate::wrap::{layout_covers, seg_start, texts, wrap_line, wrap_segments, wrapped_lines};

verus! {

/// Decimal digits of `n` (one for 0).
pub open spec fn digit_count(n: nat) -> nat
    decreases n,
{
    if n < 10 {
        1
    } else {
        1 + digit_count(n / 10)
    }
}

/// `10` to the power `k`.
pub open spec fn pow10(k: nat) -> nat
    decreases k,
{
    if k == 0 {
        1
    } else {
        10 * pow10((k - 1) as nat)
    }
}

proof fn lemma_digit_count_bound(n: nat, k: nat)
    requires
        k >= 1,
        n < pow10(k),
    ensures
        digit_count(n) <= k,
    decreases k,
{
    if n >= 10 {
        let p = pow10((k - 1) as nat);
        assert(n / 10 < p) by (nonlinear_arith)
            requires
                n < 10 * p,
        ;
        if k == 1 {
            assert(pow10(0) == 1);
        } else {
            lemma_digit_count_bound(n / 10, (k - 1) as nat);
        }
    }
}

/// Number of decimal digits of `n`.
pub fn num_digits(n: usize) -> (r: u8)
    ensures
        r == digit_count(n as nat),
        1 <= r <= 20,
{
    proof {
        reveal_with_fuel(pow10, 21);
        lemma_digit_count_bound(n as nat, 20);
    }
    let mut m = n;
    let mut d: u8 = 1;
    while m >= 10
        invariant
            d >= 1,
            d - 1 + digit_count(m as nat) == digit_count(n as nat),
            digit_count(n as nat) <= 20,
        decreases m,
    {
        m = m / 10;
        d = d + 1;
    }
    d
}

/// The decimal digit character for `d < 10`.
pub open spec fn digit_char(d: nat) -> char {
    (48 + d) as char
}

/// The decimal representation of `n`, without leading zeros.
pub open spec fn decimal(n: nat) -> Seq<char>
    decreases n,
{
    if n < 10 {
        seq![digit_char(n)]
    } else {
        decimal(n / 10).push(digit_char(n % 10))
    }
}

/// `n` spaces.
pub open spec fn spaces(n: nat) -> Seq<char> {
    Seq::new(n, |i: int| ' ')
}

/// `s` right-aligned in a field `width` characters wide.
pub open spec fn pad_left(s: Seq<char>, width: nat) -> Seq<char> {
    if s.len() < width {
        spaces((width - s.len()) as nat) + s
    } else {
        s
    }
}

fn push_decimal(n: usize, out: &mut Vec<char>)
    ensures
        final(out)@ == old(out)@ + decimal(n as nat),
    decreases n,
{
    if n >= 10 {
        push_decimal(n / 10, out);
    }
    let d = (n % 10) as u8;
    let c = (48u8 + d) as char;
    assert(c == digit_char((n % 10) as nat));
    out.push(c);
    assert(out@ =~= old(out)@ + decimal(n as nat));
}

fn push_spaces(n: usize, out: &mut Vec<char>)
    ensures
        final(out)@ == old(out)@ + spaces(n as nat),
{
    let ghost start = out@;
    let mut i: usize = 0;
    while i < n
        invariant
            i <= n,
            out@ == start + spaces(i as nat),
        decreases n - i,
    {
        out.push(' ');
        i = i + 1;
        assert(out@ =~= start + spaces(i as nat));
    }
}

/// `number` in decimal, right-aligned in a field `width` characters wide.
pub fn line_number_text(number: usize, width: usize) -> (r: Vec<char>)
    ensures
        r@ == pad_left(decimal(number as nat), width as nat),
{
    let mut digits: Vec<char> = Vec::new();
    push_decimal(number, &mut digits);
    assert(digits@ =~= decimal(number as nat));
    let mut r: Vec<char> = Vec::new();
    if digits.len() < width {
        push_spaces(width - digits.len(), &mut r);
    }
    let mut i: usize = 0;
    let ghost pad = r@;
    while i < digits.len()
        invariant
            i <= digits.len(),
            r@ == pad + digits@.take(i as int),
        decreases digits.len() - i,
    {
        r.push(digits[i]);
        i = i + 1;
        assert(r@ =~= pad + digits@.take(i as int));
    }
    assert(digits@.take(digits.len() as int) =~= digits@);
    r
}

/// A character position in the text: row, then column counted in characters.
pub type Pos = (usize, usize);

/// The mathematical content of a [`TextArea`].
pub struct TextAreaView {
    pub lines: Seq<Seq<char>>,
    pub cursor: (nat, nat),
    pub selection_start: Option<(nat, nat)>,
    /// `(top row, left column, width, height)`.
    pub viewport: (u16, u16, u16, u16),
    pub wrap_enabled: bool,
    pub wrap_width: Option<nat>,
    pub tab_len: nat,
    pub show_line_numbers: bool,
}

/// A position as natural numbers.
pub open spec fn pos_view(p: Option<Pos>) -> Option<(nat, nat)> {
    match p {
        Some((r, c)) => Some((r as nat, c as nat)),
        None => None,
    }
}

/// A screen cell as natural numbers.
pub open spec fn cell_view(p: Option<(u16, u16)>) -> Option<(nat, nat)> {
    match p {
        Some((x, y)) => Some((x as nat, y as nat)),
        None => None,
    }
}

impl TextAreaView {
    /// At least one row, and the cursor on a row and within it.
    pub open spec fn wf(self) -> bool {
        &&& self.lines.len() >= 1
        &&& self.cursor.0 < self.lines.len()
        &&& self.cursor.1 <= self.lines[self.cursor.0 as int].len()
    }

    /// Columns taken by the line-number gutter: the digits of the row count
    /// with one space on each side, or nothing when numbers are off.
    pub open spec fn gutter_width(self) -> nat {
        if self.show_line_numbers {
            digit_count(self.lines.len()) + 2
        } else {
            0
        }
    }

    /// The width that lines are wrapped at in an area `area_width` columns
    /// wide: the configured width when there is one, else the area less the
    /// gutter; never below 1.
    pub open spec fn effective_wrap_width(self, area_width: nat) -> nat {
        let w = match self.wrap_width {
            Some(w) => w as int,
            None => area_width - self.gutter_width(),
        };
        if w < 1 {
            1
        } else {
            w as nat
        }
    }

    /// The wrapped segments of row `row`.
    pub open spec fn segments(self, row: int, width: nat) -> Seq<Seq<char>> {
        wrapped_lines(self.lines[row], width)
    }

    /// Display rows taken by row `row` when wrapped: one per segment, and at
    /// least one.
    pub open spec fn display_rows(self, row: int, width: nat) -> nat {
        let n = self.segments(row, width).len();
        if n == 0 {
            1
        } else {
            n
        }
    }

    /// Display rows taken by the rows `from .. to`.
    pub open spec fn rows_between(self, from: int, to: int, width: nat) -> nat
        decreases to - from,
    {
        if from >= to {
            0
        } else {
            self.display_rows(from, width) + self.rows_between(from + 1, to, width)
        }
    }

    /// The row, and the segment within it, shown on display row `y` counted
    /// from row `row`; `None` below the last row.
    pub open spec fn locate(self, row: int, y: nat, width: nat) -> Option<(nat, nat)>
        decreases self.lines.len() - row,
    {
        if row < 0 || row >= self.lines.len() {
            None
        } else if y < self.display_rows(row, width) {
            Some((row as nat, y))
        } else {
            self.locate(row + 1, (y - self.display_rows(row, width)) as nat, width)
        }
    }

    /// The text position under cell `(x, y)` of an area `w` by `h`.
    pub open spec fn screen_to_logical(self, x: nat, y: nat, w: nat, h: nat) -> Option<(nat, nat)> {
        let g = self.gutter_width();
        if x >= w || y >= h {
            None
        } else if !self.wrap_enabled {
            let row = self.viewport.0 + y;
            if row >= self.lines.len() {
                None
            } else if x < g {
                Some((row as nat, 0))
            } else {
                let len = self.lines[row].len();
                Some((row as nat, if x - g < len { (x - g) as nat } else { len }))
            }
        } else {
            let ww = self.effective_wrap_width(w);
            match self.locate(self.viewport.0 as int, y, ww) {
                None => None,
                Some((row, k)) => {
                    let segs = self.segments(row as int, ww);
                    if k >= segs.len() {
                        Some((row, self.lines[row as int].len()))
                    } else {
                        Some((row, click_column_spec(segs, k, x, g)))
                    }
                },
            }
        }
    }

    /// The cell where the cursor is drawn in an area `w` by `h`, or `None`
    /// when it is scrolled out of view.
    pub open spec fn logical_to_screen(self, w: nat, h: nat) -> Option<(nat, nat)> {
        let row = self.cursor.0;
        let col = self.cursor.1;
        let top = self.viewport.0;
        let left = self.viewport.1;
        let g = self.gutter_width();
        if row < top || row >= self.lines.len() {
            None
        } else if !self.wrap_enabled {
            let y = (row - top) as nat;
            let vis = prefix_width(self.lines[row as int], col, self.tab_len);
            let x = (if vis > left { vis - left } else { 0 }) + g;
            if y >= h || x >= w {
                None
            } else {
                Some((x as nat, y))
            }
        } else {
            let ww = self.effective_wrap_width(w);
            let before = self.rows_between(top as int, row as int, ww);
            let segs = self.segments(row as int, ww);
            let (k, vx) = if segs.len() == 0 {
                (0nat, 0nat)
            } else {
                cursor_cell_spec(segs, col, self.tab_len)
            };
            let y = before + k;
            let x = g + vx;
            if y >= h || x >= w {
                None
            } else {
                Some((x, y))
            }
        }
    }
}

/// The column under cell column `x` on segment `k` of a row, with a gutter
/// `g` wide: the segment's start inside the gutter, else the start plus the
/// columns past the gutter, clamped to the segment's end.
pub open spec fn click_column_spec(segs: Seq<Seq<char>>, k: nat, x: nat, g: nat) -> nat {
    let start = seg_start(segs, k as int);
    if x < g {
        start
    } else {
        let len = segs[k as int].len();
        start + if x - g < len { (x - g) as nat } else { len }
    }
}

/// The first segment from `k` on whose end is at or past column `col`, or
/// `segs.len()` when there is none.
pub open spec fn first_covering(segs: Seq<Seq<char>>, col: nat, k: nat) -> nat
    decreases segs.len() - k,
{
    if k >= segs.len() {
        segs.len()
    } else if col <= seg_start(segs, k + 1int) {
        k
    } else {
        first_covering(segs, col, k + 1)
    }
}

/// Segment and visual column of column `col` of a wrapped row: the first
/// segment that reaches `col` (so a column on a boundary stays on the earlier
/// segment), or the end of the last segment when `col` lies past them all.
pub open spec fn cursor_cell_spec(segs: Seq<Seq<char>>, col: nat, tab_len: nat) -> (nat, nat) {
    let k = first_covering(segs, col, 0);
    if k < segs.len() {
        (k, prefix_width(segs[k as int], (col - seg_start(segs, k as int)) as nat, tab_len))
    } else {
        let last = (segs.len() - 1) as nat;
        (last, prefix_width(segs[last as int], segs[last as int].len(), tab_len))
    }
}

impl TextAreaView {
    /// Adding one row at the end of a range adds its display rows.
    pub proof fn lemma_rows_between_step(self, from: int, to: int, width: nat)
        requires
            from <= to,
        ensures
            self.rows_between(from, to + 1, width) == self.rows_between(from, to, width)
                + self.display_rows(to, width),
        decreases to - from,
    {
        if from < to {
            self.lemma_rows_between_step(from + 1, to, width);
        } else {
            assert(self.rows_between(to + 1, to + 1, width) == 0);
        }
    }

    /// Display rows of a range grow with its end.
    pub proof fn lemma_rows_between_monotone(self, from: int, a: int, b: int, width: nat)
        requires
            from <= a <= b,
        ensures
            self.rows_between(from, a, width) <= self.rows_between(from, b, width),
        decreases b - a,
    {
        if a < b {
            self.lemma_rows_between_monotone(from, a, b - 1, width);
            self.lemma_rows_between_step(from, b - 1, width);
        }
    }

    /// Display row `k` of row `row`, counted from row `from`, is found again
    /// by [`TextAreaView::locate`].
    pub proof fn lemma_locate_rows_between(self, from: int, row: int, k: nat, width: nat)
        requires
            0 <= from <= row < self.lines.len(),
            k < self.display_rows(row, width),
        ensures
            self.locate(from, self.rows_between(from, row, width) + k, width) == Some(
                (row as nat, k),
            ),
        decreases row - from,
    {
        if from < row {
            self.lemma_locate_rows_between(from + 1, row, k, width);
        }
    }
}

/// One display row of a rendered text area: characters `start .. end` of
/// row `row`; `first` when it is the row's first display row (where its line
/// number goes).
#[derive(Clone, Copy, Debug, PartialEq, Eq)]
pub struct DisplayLine {
    pub row: usize,
    pub start: usize,
    pub end: usize,
    pub first: bool,
}

impl TextAreaView {
    /// The new top row of a viewport `height` rows high that must show the
    /// cursor.
    pub open spec fn scroll_top_spec(self, prev_top: u16, height: u16) -> u16 {
        next_scroll_top_spec(prev_top, clamp_u16(self.cursor.0 as int), height)
    }

    /// The new left column of a viewport `width` columns wide that must show
    /// the cursor: always 0 when wrapping; otherwise measured in visual
    /// columns over the width left beside the gutter.
    pub open spec fn scroll_left_spec(self, prev_left: u16, width: u16) -> u16 {
        if self.wrap_enabled {
            0
        } else if self.cursor.0 >= self.lines.len() {
            prev_left
        } else {
            let text_width = clamp_u16(width - self.gutter_width());
            let vis = prefix_width(self.lines[self.cursor.0 as int], self.cursor.1, self.tab_len);
            next_scroll_top_spec(prev_left, clamp_u16(vis as int), text_width)
        }
    }

    /// The characters of row `row` shown without wrapping in an area
    /// `area_width` columns wide: the row clipped to the window of columns
    /// beside the gutter that starts at the viewport's left column.
    pub open spec fn unwrapped_range(self, row: int, area_width: nat) -> (nat, nat) {
        let left = self.viewport.1;
        let text_width = clamp_u16(area_width - self.gutter_width());
        let hr = horizontal_range(self.lines[row], left as nat, text_width as nat, self.tab_len);
        (hr.0, hr.1)
    }

    /// `d` is what wrapped display row `i`, counted from row `top`, shows.
    pub open spec fn shows_wrapped(self, top: int, width: nat, i: int, d: DisplayLine) -> bool {
        match self.locate(top, i as nat, width) {
            Some((row, k)) => {
                let segs = self.segments(row as int, width);
                &&& d.row == row
                &&& d.start == seg_start(segs, k as int)
                &&& d.end == seg_start(segs, k + 1int)
                &&& d.first == (k == 0)
            },
            None => false,
        }
    }

    /// `r` is the layout of `height` display rows from row `top` in an area
    /// `area_width` columns wide: without wrapping one display row per row,
    /// clipped to the horizontal scroll window; with wrapping one per
    /// segment, each at the position that [`TextAreaView::locate`] gives it,
    /// the segments of every row shown joining back into the row.
    pub open spec fn is_layout(self, top: nat, height: nat, area_width: nat, r: Seq<DisplayLine>) -> bool {
        let len = self.lines.len();
        if !self.wrap_enabled {
            let bottom = if top + height < len { top + height } else { len };
            &&& r.len() == (if top < bottom { bottom - top } else { 0 })
            &&& forall|i: int|
                0 <= i < r.len() ==> {
                    let d = #[trigger] r[i];
                    &&& d.row == top + i
                    &&& (d.start as nat, d.end as nat) == self.unwrapped_range(top + i, area_width)
                    &&& d.first
                }
        } else {
            let ww = self.effective_wrap_width(area_width);
            let total = self.rows_between(top as int, len as int, ww);
            &&& r.len() == (if top >= len { 0 } else if height < total { height } else { total })
            &&& forall|i: int| 0 <= i < r.len() ==> self.shows_wrapped(top as int, ww, i, #[trigger] r[i])
            &&& forall|i: int|
                0 <= i < r.len() ==> layout_covers(self.lines[#[trigger] r[i].row as int], ww)
        }
    }

    /// The gutter of display row `d`: on a row's first display row its
    /// 1-based number, right-aligned between one space on each side; blank
    /// on the rows that continue it; nothing when numbers are off.
    pub open spec fn gutter_text(self, d: DisplayLine) -> Seq<char> {
        if !self.show_line_numbers {
            Seq::empty()
        } else if d.first {
            seq![' '] + pad_left(decimal((d.row + 1) as nat), digit_count(self.lines.len())) + seq![' ']
        } else {
            spaces(self.gutter_width())
        }
    }

    /// The text position that a mouse event at screen cell `(x, y)` lands
    /// on, in an area `area`: the cell is taken relative to the area's corner
    /// (saturating) and mapped by [`TextAreaView::screen_to_logical`].
    pub open spec fn mouse_target(self, x: u16, y: u16, area: Rect) -> Option<(nat, nat)> {
        self.screen_to_logical(
            clamp_u16(x - area.x) as nat,
            clamp_u16(y - area.y) as nat,
            area.width as nat,
            area.height as nat,
        )
    }
}

/// The column under cell column `x` on segment `k` of a wrapped row whose
/// segments are `segs`, with a gutter `gutter` columns wide.
pub fn click_column(segs: &Vec<String>, k: usize, x: u16, gutter: u16) -> (r: usize)
    requires
        k < segs.len(),
        seg_start(texts(segs@), segs.len() as int) <= usize::MAX,
    ensures
        r == click_column_spec(texts(segs@), k as nat, x as nat, gutter as nat),
{
    let ghost ts = texts(segs@);
    let mut start: usize = 0;
    let mut i: usize = 0;
    while i < k
        invariant
            ts == texts(segs@),
            k < segs.len(),
            seg_start(ts, segs.len() as int) <= usize::MAX,
            i <= k,
            start == seg_start(ts, i as int),
        decreases k - i,
    {
        proof {
            crate::wrap::lemma_seg_start_monotone(ts, i + 1, segs.len() as int);
        }
        assert(ts[i as int] == segs@[i as int]@);
        start = start + segs[i].unicode_len();
        i = i + 1;
    }
    assert(ts[k as int] == segs@[k as int]@);
    if x < gutter {
        start
    } else {
        let len = segs[k].unicode_len();
        let past = (x - gutter) as usize;
        proof {
            crate::wrap::lemma_seg_start_monotone(ts, k + 1, segs.len() as int);
        }
        if past < len {
            start + past
        } else {
            start + len
        }
    }
}

/// Which segment of a wrapped row column `col` is drawn on, and at which
/// visual column of that segment; see [`cursor_cell_spec`].
pub fn cursor_cell(segs: &Vec<String>, col: usize, tab_len: u8) -> (r: (usize, usize))
    requires
        segs.len() >= 1,
        seg_start(texts(segs@), segs.len() as int) <= usize::MAX,
    ensures
        (r.0 as nat, r.1 as nat) == cursor_cell_spec(texts(segs@), col as nat, tab_len as nat),
{
    let ghost ts = texts(segs@);
    let mut start: usize = 0;
    let mut k: usize = 0;
    while k < segs.len()
        invariant
            ts == texts(segs@),
            segs.len() >= 1,
            seg_start(ts, segs.len() as int) <= usize::MAX,
            k <= segs.len(),
            start == seg_start(ts, k as int),
            start <= col,
            first_covering(ts, col as nat, 0) == first_covering(ts, col as nat, k as nat),
        decreases segs.len() - k,
    {
        proof {
            crate::wrap::lemma_seg_start_monotone(ts, k + 1, segs.len() as int);
        }
        assert(ts[k as int] == segs@[k as int]@);
        let n = segs[k].unicode_len();
        if col - start <= n {
            let chars = chars_of(segs[k].as_str());
            let vx = prefix_visual_width(&chars, col - start, tab_len);
            return (k, vx);
        }
        start = start + n;
        k = k + 1;
    }
    let last = segs.len() - 1;
    assert(ts[last as int] == segs@[last as int]@);
    let n = segs[last].unicode_len();
    (last, visual_width(segs[last].as_str(), n, tab_len))
}

/// What a click leaves behind: when it lands on text, the cursor and the
/// selection anchor both go there; otherwise nothing changes.
pub open spec fn click_post(before: TextAreaView, after: TextAreaView, x: u16, y: u16, area: Rect, r: bool) -> bool {
    match before.mouse_target(x, y, area) {
        Some(p) => r && after == (TextAreaView { cursor: p, selection_start: Some(p), ..before }),
        None => !r && after == before,
    }
}

/// What a drag or a release leaves behind: when it lands on text, the
/// cursor goes there and the selection anchor stays; otherwise nothing
/// changes.
pub open spec fn move_post(before: TextAreaView, after: TextAreaView, x: u16, y: u16, area: Rect, r: bool) -> bool {
    match before.mouse_target(x, y, area) {
        Some(p) => r && after == (TextAreaView { cursor: p, ..before }),
        None => !r && after == before,
    }
}

/// Input events that a text area reacts to.
#[derive(Clone, Copy, Debug, PartialEq, Eq)]
pub enum Key {
    MouseClick(u16, u16),
    MouseDrag(u16, u16),
    MouseUp(u16, u16),
    MouseScrollDown,
    MouseScrollUp,
    Char(char),
    Null,
}

/// A rectangle of terminal cells.
#[derive(Clone, Copy, Debug, Default, PartialEq, Eq)]
pub struct Rect {
    pub x: u16,
    pub y: u16,
    pub width: u16,
    pub height: u16,
}

/// Rows of text with a cursor, an optional selection anchor, a viewport and
/// layout settings.
#[derive(Debug)]
pub struct TextArea {
    lines: Vec<String>,
    cursor: Pos,
    selection_start: Option<Pos>,
    viewport: Viewport,
    wrap_enabled: bool,
    wrap_width: Option<usize>,
    tab_len: u8,
    show_line_numbers: bool,
}

impl View for TextArea {
    type V = TextAreaView;

    closed spec fn view(&self) -> TextAreaView {
        TextAreaView {
            lines: texts(self.lines@),
            cursor: (self.cursor.0 as nat, self.cursor.1 as nat),
            selection_start: pos_view(self.selection_start),
            viewport: self.viewport@,
            wrap_enabled: self.wrap_enabled,
            wrap_width: match self.wrap_width {
                Some(w) => Some(w as nat),
                None => None,
            },
            tab_len: self.tab_len as nat,
            show_line_numbers: self.show_line_numbers,
        }
    }
}

impl TextArea {
    #[verifier::type_invariant]
    spec fn inv(self) -> bool {
        self@.wf()
    }

    /// A text area holding `lines` (one empty row when there are none), with
    /// the cursor at the start, no selection, the viewport at the origin, no
    /// wrapping, tab stops every 4 columns and no line numbers.
    pub fn new(lines: Vec<String>) -> (r: TextArea)
        ensures
            r@.lines == (if lines@.len() == 0 {
                seq![Seq::<char>::empty()]
            } else {
                texts(lines@)
            }),
            r@.cursor == (0nat, 0nat),
            r@.selection_start is None,
            r@.viewport == (0u16, 0u16, 0u16, 0u16),
            !r@.wrap_enabled,
            r@.wrap_width is None,
            r@.tab_len == 4,
            !r@.show_line_numbers,
    {
        let mut lines = lines;
        if lines.len() == 0 {
            lines.push(String::new());
            assert(texts(lines@) =~= seq![Seq::<char>::empty()]);
        }
        TextArea {
            lines,
            cursor: (0, 0),
            selection_start: None,
            viewport: Viewport::new(),
            wrap_enabled: false,
            wrap_width: None,
            tab_len: 4,
            show_line_numbers: false,
        }
    }

    /// The rows of text.
    pub fn lines(&self) -> (r: &Vec<String>)
        ensures
            texts(r@) == self@.lines,
    {
        &self.lines
    }

    /// The cursor position.
    pub fn cursor(&self) -> (r: Pos)
        ensures
            (r.0 as nat, r.1 as nat) == self@.cursor,
    {
        self.cursor
    }

    /// Where the current selection started, if one is being made.
    pub fn selection_start(&self) -> (r: Option<Pos>)
        ensures
            pos_view(r) == self@.selection_start,
    {
        self.selection_start
    }

    /// The viewport: scroll offsets and the last rendered rectangle.
    pub fn viewport(&self) -> (r: Viewport)
        ensures
            r@ == self@.viewport,
    {
        self.viewport
    }

    /// Moves the scroll offsets by `rows` and `cols`, saturating at both ends.
    pub fn scroll(&mut self, rows: i16, cols: i16)
        ensures
            final(self)@ == (TextAreaView {
                viewport: (
                    clamp_u16(old(self)@.viewport.0 + rows),
                    clamp_u16(old(self)@.viewport.1 + cols),
                    old(self)@.viewport.2,
                    old(self)@.viewport.3,
                ),
                ..old(self)@
            }),
    {
        proof {
            use_type_invariant(&*self);
        }
        let mut vp = self.viewport;
        vp.scroll(rows, cols);
        self.viewport = vp;
    }

    /// Turns soft wrapping on or off.
    pub fn set_wrap(&mut self, enabled: bool)
        ensures
            final(self)@ == (TextAreaView { wrap_enabled: enabled, ..old(self)@ }),
    {
        proof {
            use_type_invariant(&*self);
        }
        self.wrap_enabled = enabled;
    }

    /// Whether soft wrapping is on.
    pub fn wrap_enabled(&self) -> (r: bool)
        ensures
            r == self@.wrap_enabled,
    {
        self.wrap_enabled
    }

    /// Sets the width that lines are wrapped at; `None` wraps at the width of
    /// the area less the gutter.
    pub fn set_wrap_width(&mut self, width: Option<usize>)
        ensures
            final(self)@ == (TextAreaView {
                wrap_width: match width {
                    Some(w) => Some(w as nat),
                    None => None,
                },
                ..old(self)@
            }),
    {
        proof {
            use_type_invariant(&*self);
        }
        self.wrap_width = width;
    }

    /// The configured wrap width.
    pub fn wrap_width(&self) -> (r: Option<usize>)
        ensures
            match r {
                Some(w) => self@.wrap_width == Some(w as nat),
                None => self@.wrap_width is None,
            },
    {
        self.wrap_width
    }

    /// Sets the distance between tab stops (0 makes tabs invisible).
    pub fn set_tab_length(&mut self, tab_len: u8)
        ensures
            final(self)@ == (TextAreaView { tab_len: tab_len as nat, ..old(self)@ }),
    {
        proof {
            use_type_invariant(&*self);
        }
        self.tab_len = tab_len;
    }

    /// The distance between tab stops.
    pub fn tab_length(&self) -> (r: u8)
        ensures
            r == self@.tab_len,
    {
        self.tab_len
    }

    /// Shows or hides the line-number gutter.
    pub fn set_line_numbers(&mut self, enabled: bool)
        ensures
            final(self)@ == (TextAreaView { show_line_numbers: enabled, ..old(self)@ }),
    {
        proof {
            use_type_invariant(&*self);
        }
        self.show_line_numbers = enabled;
    }

    /// Whether the line-number gutter is shown.
    pub fn line_numbers_enabled(&self) -> (r: bool)
        ensures
            r == self@.show_line_numbers,
    {
        self.show_line_numbers
    }

    /// The text position under cell `(rel_x, rel_y)` of an area
    /// `area_width` by `area_height` (cells counted from the area's corner,
    /// gutter included); `None` outside the area or below the last row.
    pub fn screen_to_logical_position(
        &self,
        rel_x: u16,
        rel_y: u16,
        area_width: u16,
        area_height: u16,
    ) -> (r: Option<Pos>)
        ensures
            pos_view(r) == self@.screen_to_logical(
                rel_x as nat,
                rel_y as nat,
                area_width as nat,
                area_height as nat,
            ),
            r matches Some(p) ==> p.0 < self@.lines.len() && p.1 <= self@.lines[p.0 as int].len(),
    {
        if rel_x >= area_width || rel_y >= area_height {
            return None;
        }
        let (top_row, _) = self.viewport.scroll_top();
        if self.wrap_enabled {
            self.screen_to_logical_position_wrapped(rel_x, rel_y as usize, area_width, top_row as usize)
        } else {
            self.screen_to_logical_position_unwrapped(rel_x, rel_y as usize, top_row as usize)
        }
    }

    fn screen_to_logical_position_unwrapped(&self, rel_x: u16, display_line_index: usize, top_row: usize) -> (r: Option<Pos>)
        requires
            top_row == self@.viewport.0,
            display_line_index <= u16::MAX,
            !self@.wrap_enabled,
        ensures
            forall|w: nat, h: nat| rel_x < w && display_line_index < h ==>
                pos_view(r) == #[trigger] self@.screen_to_logical(rel_x as nat, display_line_index as nat, w, h),
            r matches Some(p) ==> p.0 < self@.lines.len() && p.1 <= self@.lines[p.0 as int].len(),
    {
        let logical_row = top_row + display_line_index;
        if logical_row >= self.lines.len() {
            return None;
        }
        let lnum_width = self.calculate_line_number_width();
        if rel_x < lnum_width {
            return Some((logical_row, 0));
        }
        let adjusted_x = (rel_x - lnum_width) as usize;
        let len = self.lines[logical_row].unicode_len();
        assert(self@.lines[logical_row as int] == self.lines@[logical_row as int]@);
        let col = if adjusted_x < len {
            adjusted_x
        } else {
            len
        };
        Some((logical_row, col))
    }

    fn screen_to_logical_position_wrapped(
        &self,
        rel_x: u16,
        display_line_index: usize,
        area_width: u16,
        top_row: usize,
    ) -> (r: Option<Pos>)
        requires
            top_row == self@.viewport.0,
            display_line_index <= u16::MAX,
            self@.wrap_enabled,
        ensures
            forall|h: nat| rel_x < area_width && display_line_index < h ==>
                pos_view(r) == #[trigger] self@.screen_to_logical(rel_x as nat, display_line_index as nat, area_width as nat, h),
            r matches Some(p) ==> p.0 < self@.lines.len() && p.1 <= self@.lines[p.0 as int].len(),
    {
        let ww = self.calculate_effective_wrap_width(area_width);
        let lnum_width = self.calculate_line_number_width();
        let ghost v = self@;
        let y = display_line_index;
        let mut acc: usize = 0;
        let mut row: usize = top_row;
        while row < self.lines.len()
            invariant
                v == self@,
                ww == v.effective_wrap_width(area_width as nat),
                lnum_width == v.gutter_width(),
                top_row == v.viewport.0,
                v.wrap_enabled,
                display_line_index == y,
                top_row <= row,
                acc <= y,
                v.locate(top_row as int, y as nat, ww as nat) == v.locate(row as int, (y - acc) as nat, ww as nat),
            decreases self.lines.len() - row,
        {
            let segs = wrap_line(self.lines[row].as_str(), ww);
            assert(v.lines[row as int] == self.lines@[row as int]@);
            let n = segs.len();
            if n > y - acc {
                let k = y - acc;
                let col = click_column(&segs, k, rel_x, lnum_width);
                proof {
                    crate::wrap::lemma_seg_start_monotone(texts(segs@), k + 1, n as int);
                    assert(v.segments(row as int, ww as nat) == texts(segs@));
                    assert(v.display_rows(row as int, ww as nat) == n);
                    assert(v.locate(row as int, k as nat, ww as nat) == Some((row as nat, k as nat)));
                }
                return Some((row, col));
            }
            acc = acc + n;
            row = row + 1;
        }
        None
    }

    /// The cell where the cursor is drawn in an area `area_width` by
    /// `area_height`, or `None` when it is scrolled out of view.
    pub fn logical_to_screen_position(&self, area_width: u16, area_height: u16) -> (r: Option<(u16, u16)>)
        ensures
            cell_view(r) == self@.logical_to_screen(area_width as nat, area_height as nat),
    {
        proof {
            use_type_invariant(self);
        }
        let (logical_row, logical_col) = self.cursor;
        let (top_row, left_col) = self.viewport.scroll_top();
        if logical_row < top_row as usize {
            return None;
        }
        if self.wrap_enabled {
            self.logical_to_screen_position_wrapped(logical_row, logical_col, area_width, area_height, top_row as usize)
        } else {
            self.logical_to_screen_position_unwrapped(logical_row, logical_col, area_width, area_height, top_row as usize, left_col)
        }
    }

    fn logical_to_screen_position_unwrapped(
        &self,
        logical_row: usize,
        logical_col: usize,
        area_width: u16,
        area_height: u16,
        top_row: usize,
        left_col: u16,
    ) -> (r: Option<(u16, u16)>)
        requires
            (logical_row as nat, logical_col as nat) == self@.cursor,
            top_row == self@.viewport.0,
            left_col == self@.viewport.1,
            top_row <= logical_row,
            !self@.wrap_enabled,
            self@.wf(),
        ensures
            cell_view(r) == self@.logical_to_screen(area_width as nat, area_height as nat),
    {
        let screen_y = logical_row - top_row;
        if screen_y >= area_height as usize {
            return None;
        }
        assert(self@.lines[logical_row as int] == self.lines@[logical_row as int]@);
        let visual_col = visual_width(self.lines[logical_row].as_str(), logical_col, self.tab_len);
        let lnum_width = self.calculate_line_number_width() as usize;
        let shifted = visual_col.saturating_sub(left_col as usize);
        if shifted >= area_width as usize || lnum_width + shifted >= area_width as usize {
            return None;
        }
        Some(((lnum_width + shifted) as u16, screen_y as u16))
    }

    fn logical_to_screen_position_wrapped(
        &self,
        logical_row: usize,
        logical_col: usize,
        area_width: u16,
        area_height: u16,
        top_row: usize,
    ) -> (r: Option<(u16, u16)>)
        requires
            (logical_row as nat, logical_col as nat) == self@.cursor,
            top_row == self@.viewport.0,
            top_row <= logical_row,
            self@.wrap_enabled,
            self@.wf(),
        ensures
            cell_view(r) == self@.logical_to_screen(area_width as nat, area_height as nat),
    {
        let ww = self.calculate_effective_wrap_width(area_width);
        let lnum_width = self.calculate_line_number_width() as usize;
        let ghost v = self@;
        let height = area_height as usize;
        let mut acc: usize = 0;
        let mut row: usize = top_row;
        if height == 0 {
            return None;
        }
        while row < logical_row
            invariant
                v == self@,
                v.wf(),
                ww == v.effective_wrap_width(area_width as nat),
                (logical_row as nat, logical_col as nat) == v.cursor,
                height == area_height,
                top_row == v.viewport.0,
                v.wrap_enabled,
                top_row <= row <= logical_row,
                acc < height,
                acc == v.rows_between(top_row as int, row as int, ww as nat),
            decreases logical_row - row,
        {
            let segs = wrap_line(self.lines[row].as_str(), ww);
            assert(v.lines[row as int] == self.lines@[row as int]@);
            let n = segs.len();
            proof {
                v.lemma_rows_between_step(top_row as int, row as int, ww as nat);
            }
            if n >= height - acc {
                proof {
                    assert(v.segments(row as int, ww as nat) == texts(segs@));
                    assert(v.display_rows(row as int, ww as nat) == n);
                    v.lemma_rows_between_monotone(top_row as int, row + 1, logical_row as int, ww as nat);
                    assert(v.rows_between(top_row as int, logical_row as int, ww as nat) >= height);
                }
                return None;
            }
            acc = acc + n;
            row = row + 1;
        }
        let segs = wrap_line(self.lines[logical_row].as_str(), ww);
        assert(v.lines[logical_row as int] == self.lines@[logical_row as int]@);
        let (k, vx) = cursor_cell(&segs, logical_col, self.tab_len);
        if k >= height - acc {
            return None;
        }
        if vx >= area_width as usize || lnum_width + vx >= area_width as usize {
            return None;
        }
        Some(((lnum_width + vx) as u16, (acc + k) as u16))
    }

    /// The new top row for a viewport `height` rows high, so that the cursor
    /// row is visible.
    pub fn scroll_top_row(&self, prev_top: u16, height: u16) -> (r: u16)
        ensures
            r == self@.scroll_top_spec(prev_top, height),
    {
        let row = if self.cursor.0 > u16::MAX as usize {
            u16::MAX
        } else {
            self.cursor.0 as u16
        };
        next_scroll_top(prev_top, row, height)
    }

    /// The new left column for a viewport `width` columns wide, so that the
    /// cursor is visible; 0 whenever wrapping is on.
    pub fn scroll_left_col(&self, prev_left: u16, width: u16) -> (r: u16)
        ensures
            r == self@.scroll_left_spec(prev_left, width),
    {
        if self.wrap_enabled {
            return 0;
        }
        let text_width = width.saturating_sub(self.calculate_line_number_width());
        let (cursor_row, cursor_col) = self.cursor;
        if cursor_row >= self.lines.len() {
            return prev_left;
        }
        assert(self@.lines[cursor_row as int] == self.lines@[cursor_row as int]@);
        let visual_pos = visual_width(self.lines[cursor_row].as_str(), cursor_col, self.tab_len);
        let pos = if visual_pos > u16::MAX as usize {
            u16::MAX
        } else {
            visual_pos as u16
        };
        next_scroll_top(prev_left, pos, text_width)
    }

    /// Display rows `top_row ..` of the text without wrapping, at most
    /// `height` of them, each clipped to the horizontal scroll window.
    fn render_unwrapped_lines(&self, top_row: usize, height: usize, area_width: u16) -> (r: Vec<DisplayLine>)
        requires
            !self@.wrap_enabled,
        ensures
            self@.is_layout(top_row as nat, height as nat, area_width as nat, r@),
    {
        let lines_len = self.lines.len();
        let end = top_row.saturating_add(height);
        let bottom_row = if end < lines_len {
            end
        } else {
            lines_len
        };
        let (_, col_left) = self.viewport.scroll_top();
        let viewport_width = area_width.saturating_sub(self.calculate_line_number_width());
        let ghost v = self@;
        let mut out: Vec<DisplayLine> = Vec::new();
        let mut row = top_row;
        while row < bottom_row
            invariant
                v == self@,
                !v.wrap_enabled,
                bottom_row <= lines_len == v.lines.len(),
                bottom_row == (if top_row + height < lines_len { top_row + height } else { lines_len as int }),
                col_left == v.viewport.1,
                viewport_width == clamp_u16(area_width - v.gutter_width()),
                top_row <= row,
                row < bottom_row ==> out.len() == row - top_row,
                row >= bottom_row ==> out.len() == (if top_row < bottom_row { bottom_row - top_row } else { 0 }),
                forall|i: int|
                    0 <= i < out.len() ==> {
                        let d = #[trigger] out[i];
                        &&& d.row == top_row + i
                        &&& (d.start as nat, d.end as nat) == v.unwrapped_range(top_row + i, area_width as nat)
                        &&& d.first
                    },
            decreases bottom_row - row,
        {
            let line = self.lines[row].as_str();
            assert(v.lines[row as int] == self.lines@[row as int]@);
            let (start, end, _) = calculate_horizontal_range(line, col_left, viewport_width, self.tab_len);
            out.push(DisplayLine { row, start, end, first: true });
            row = row + 1;
        }
        out
    }

    /// Display rows of the wrapped text, from the first segment of row
    /// `top_row` on, at most `height` of them.
    fn render_wrapped_lines(&self, top_row: usize, height: usize, area_width: u16) -> (r: Vec<DisplayLine>)
        requires
            self@.wrap_enabled,
        ensures
            self@.is_layout(top_row as nat, height as nat, area_width as nat, r@),
    {
        let ww = self.calculate_effective_wrap_width(area_width);
        let ghost v = self@;
        let ghost top = top_row as int;
        let mut out: Vec<DisplayLine> = Vec::new();
        let mut row = top_row;
        if top_row >= self.lines.len() {
            return out;
        }
        while row < self.lines.len() && out.len() < height
            invariant
                v == self@,
                v.wrap_enabled,
                ww == v.effective_wrap_width(area_width as nat),
                top == top_row,
                top_row < v.lines.len(),
                top_row <= row <= v.lines.len(),
                out.len() <= height,
                out.len() == v.rows_between(top, row as int, ww as nat) || (out.len() == height
                    && height <= v.rows_between(top, row as int, ww as nat)),
                forall|i: int| 0 <= i < out.len() ==> v.shows_wrapped(top, ww as nat, i, #[trigger] out[i]),
                forall|i: int| 0 <= i < out.len() ==> layout_covers(v.lines[#[trigger] out[i].row as int], ww as nat),
            decreases v.lines.len() - row,
        {
            let segs = wrap_segments(self.lines[row].as_str(), ww);
            assert(v.lines[row as int] == self.lines@[row as int]@);
            let ghost ws = v.segments(row as int, ww as nat);
            proof {
                v.lemma_rows_between_step(top, row as int, ww as nat);
            }
            let ghost base = v.rows_between(top, row as int, ww as nat);
            let mut k: usize = 0;
            assert(out.len() == base);
            while k < segs.len() && out.len() < height
                invariant
                    v == self@,
                    ww == v.effective_wrap_width(area_width as nat),
                    top == top_row,
                    top_row <= row < v.lines.len(),
                    ws == v.segments(row as int, ww as nat),
                    segs.len() == ws.len(),
                    segs.len() >= 1,
                    layout_covers(v.lines[row as int], ww as nat),
                    forall|j: int|
                        0 <= j < segs.len() ==> #[trigger] segs[j].0 == seg_start(ws, j) && segs[j].1
                            == seg_start(ws, j + 1),
                    base == v.rows_between(top, row as int, ww as nat),
                    k <= segs.len(),
                    out.len() == base + k,
                    out.len() <= height,
                    forall|i: int| 0 <= i < out.len() ==> v.shows_wrapped(top, ww as nat, i, #[trigger] out[i]),
                    forall|i: int| 0 <= i < out.len() ==> layout_covers(v.lines[#[trigger] out[i].row as int], ww as nat),
                decreases segs.len() - k,
            {
                proof {
                    v.lemma_locate_rows_between(top, row as int, k as nat, ww as nat);
                }
                let (start, end) = segs[k];
                let ghost prev = out@;
                out.push(DisplayLine { row, start, end, first: k == 0 });
                assert forall|i: int| 0 <= i < out.len() implies layout_covers(
                    v.lines[#[trigger] out[i].row as int],
                    ww as nat,
                ) by {
                    if i == out.len() - 1 {
                        assert(out[i].row == row);
                    } else {
                        assert(out[i] == prev[i]);
                    }
                }
                k = k + 1;
            }
            row = row + 1;
        }
        proof {
            v.lemma_rows_between_monotone(top, row as int, v.lines.len() as int, ww as nat);
        }
        out
    }

    /// The display rows shown from row `top_row` on in an area `area_width`
    /// columns wide and `height` rows high.
    pub fn text_lines(&self, top_row: usize, height: usize, area_width: u16) -> (r: Vec<DisplayLine>)
        ensures
            self@.is_layout(top_row as nat, height as nat, area_width as nat, r@),
    {
        if self.wrap_enabled {
            self.render_wrapped_lines(top_row, height, area_width)
        } else {
            self.render_unwrapped_lines(top_row, height, area_width)
        }
    }

    /// One render pass over an area `width` by `height`: scrolls the viewport
    /// so that the cursor is visible, records the area, and returns the
    /// display rows to draw.
    pub fn render(&mut self, width: u16, height: u16) -> (r: Vec<DisplayLine>)
        ensures
            final(self)@ == (TextAreaView {
                viewport: (
                    old(self)@.scroll_top_spec(old(self)@.viewport.0, height),
                    old(self)@.scroll_left_spec(old(self)@.viewport.1, width),
                    width,
                    height,
                ),
                ..old(self)@
            }),
            final(self)@.wrap_enabled ==> final(self)@.viewport.1 == 0,
            final(self)@.is_layout(final(self)@.viewport.0 as nat, height as nat, width as nat, r@),
    {
        proof {
            use_type_invariant(&*self);
        }
        let (top_row, left_col) = self.viewport.scroll_top();
        let top_row = self.scroll_top_row(top_row, height);
        let left_col = self.scroll_left_col(left_col, width);
        let mut vp = self.viewport;
        vp.store(top_row, left_col, width, height);
        self.viewport = vp;
        self.text_lines(top_row as usize, height as usize, width)
    }

    /// Puts the cursor at `(row, col)`, clamped to the last row and to the
    /// end of that row.
    pub fn jump_cursor(&mut self, row: usize, col: usize)
        ensures
            ({
                let v = old(self)@;
                let r = if row < v.lines.len() { row as nat } else { (v.lines.len() - 1) as nat };
                let c = if col <= v.lines[r as int].len() { col as nat } else { v.lines[r as int].len() };
                final(self)@ == (TextAreaView { cursor: (r, c), ..v })
            }),
    {
        proof {
            use_type_invariant(&*self);
        }
        let r = if row < self.lines.len() {
            row
        } else {
            self.lines.len() - 1
        };
        let len = self.lines[r].unicode_len();
        assert(self@.lines[r as int] == self.lines@[r as int]@);
        let c = if col <= len {
            col
        } else {
            len
        };
        self.cursor = (r, c);
    }

    /// Routes a mouse event to its handler; other keys are ignored. Returns
    /// whether the cursor moved.
    pub fn handle_mouse_event(&mut self, key: Key, widget_area: Rect) -> (r: bool)
        ensures
            match key {
                Key::MouseClick(x, y) => click_post(old(self)@, final(self)@, x, y, widget_area, r),
                Key::MouseDrag(x, y) | Key::MouseUp(x, y) => move_post(old(self)@, final(self)@, x, y, widget_area, r),
                _ => !r && final(self)@ == old(self)@,
            },
    {
        match key {
            Key::MouseClick(x, y) => self.handle_mouse_click(x, y, widget_area),
            Key::MouseDrag(x, y) => self.handle_mouse_drag(x, y, widget_area),
            Key::MouseUp(x, y) => self.handle_mouse_up(x, y, widget_area),
            _ => false,
        }
    }

    /// A press at screen cell `(screen_x, screen_y)` in `widget_area` (the
    /// area that holds the text, inside any border): starts a selection and
    /// moves the cursor to the text position under it.
    pub fn handle_mouse_click(&mut self, screen_x: u16, screen_y: u16, widget_area: Rect) -> (r: bool)
        ensures
            click_post(old(self)@, final(self)@, screen_x, screen_y, widget_area, r),
    {
        match self.mouse_position(screen_x, screen_y, widget_area) {
            Some((row, col)) => {
                proof {
                    use_type_invariant(&*self);
                }
                self.selection_start = Some((row, col));
                self.jump_cursor(row, col);
                true
            },
            None => false,
        }
    }

    /// A drag to screen cell `(screen_x, screen_y)` in `widget_area`: moves
    /// the cursor, extending the selection.
    pub fn handle_mouse_drag(&mut self, screen_x: u16, screen_y: u16, widget_area: Rect) -> (r: bool)
        ensures
            move_post(old(self)@, final(self)@, screen_x, screen_y, widget_area, r),
    {
        match self.mouse_position(screen_x, screen_y, widget_area) {
            Some((row, col)) => {
                self.jump_cursor(row, col);
                true
            },
            None => false,
        }
    }

    /// A release at screen cell `(screen_x, screen_y)` in `widget_area`:
    /// moves the cursor to end the selection there.
    pub fn handle_mouse_up(&mut self, screen_x: u16, screen_y: u16, widget_area: Rect) -> (r: bool)
        ensures
            move_post(old(self)@, final(self)@, screen_x, screen_y, widget_area, r),
    {
        match self.mouse_position(screen_x, screen_y, widget_area) {
            Some((row, col)) => {
                self.jump_cursor(row, col);
                true
            },
            None => false,
        }
    }

    fn mouse_position(&self, screen_x: u16, screen_y: u16, area: Rect) -> (r: Option<Pos>)
        ensures
            pos_view(r) == self@.mouse_target(screen_x, screen_y, area),
            r matches Some(p) ==> p.0 < self@.lines.len() && p.1 <= self@.lines[p.0 as int].len(),
    {
        let rel_x = screen_x.saturating_sub(area.x);
        let rel_y = screen_y.saturating_sub(area.y);
        if rel_x >= area.width || rel_y >= area.height {
            return None;
        }
        self.screen_to_logical_position(rel_x, rel_y, area.width, area.height)
    }

    /// The gutter drawn before display row `d`; see
    /// [`TextAreaView::gutter_text`].
    pub fn gutter_text(&self, d: &DisplayLine) -> (r: Vec<char>)
        requires
            d.row < self@.lines.len(),
        ensures
            r@ == self@.gutter_text(*d),
    {
        let mut r: Vec<char> = Vec::new();
        if !self.show_line_numbers {
            assert(r@ =~= Seq::<char>::empty());
            return r;
        }
        if d.first {
            let digits = num_digits(self.lines.len());
            let number = line_number_text(d.row + 1, digits as usize);
            r.push(' ');
            let mut i: usize = 0;
            while i < number.len()
                invariant
                    i <= number.len(),
                    r@ == seq![' '] + number@.take(i as int),
                decreases number.len() - i,
            {
                r.push(number[i]);
                i = i + 1;
                assert(r@ =~= seq![' '] + number@.take(i as int));
            }
            r.push(' ');
            assert(number@.take(number.len() as int) =~= number@);
            assert(r@ =~= seq![' '] + number@ + seq![' ']);
        } else {
            let width = self.calculate_line_number_width() as usize;
            push_spaces(width, &mut r);
            assert(r@ =~= spaces(width as nat));
        }
        r
    }

    /// Columns taken by the line-number gutter.
    pub fn calculate_line_number_width(&self) -> (r: u16)
        ensures
            r == self@.gutter_width(),
            r <= 22,
    {
        if self.show_line_numbers {
            let d = num_digits(self.lines.len());
            d as u16 + 2
        } else {
            0
        }
    }

    /// The width that lines are wrapped at in an area `area_width` columns
    /// wide: the configured width if set, else the area less the gutter, and
    /// at least 1.
    pub fn calculate_effective_wrap_width(&self, area_width: u16) -> (r: usize)
        ensures
            r == self@.effective_wrap_width(area_width as nat),
            r >= 1,
    {
        let mut wrap_width = area_width as usize;
        if self.show_line_numbers {
            let lnum_len = num_digits(self.lines.len());
            wrap_width = wrap_width.saturating_sub(lnum_len as usize + 2);
        }
        if let Some(custom_width) = self.wrap_width {
            wrap_width = custom_width;
        }
        if wrap_width < 1 {
            1
        } else {
            wrap_width
        }
    }
}

} // verus!

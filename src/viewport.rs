//! Scroll offsets and the size of the last rendered rectangle, kept in one
//! 64-bit word so that the four values are always read and written together.
use vstd::prelude::*;

verus! {

/// The low sixteen bits of `u >> shift`.
pub open spec fn lane(u: u64, shift: u64) -> u16 {
    (u >> shift) as u16
}

/// `x` clamped into the range of `u16`.
pub open spec fn clamp_u16(x: int) -> u16 {
    if x < 0 {
        0
    } else if x > u16::MAX {
        u16::MAX
    } else {
        x as u16
    }
}

/// The last cell of a span of `len` cells that starts at `start`, computed with
/// saturating arithmetic and never before `start`.
pub open spec fn span_last(start: u16, len: u16) -> u16 {
    let last = clamp_u16(clamp_u16(start + len) - 1);
    if last < start {
        start
    } else {
        last
    }
}

/// Top row, left column, width and height of the visible part of a text area.
///
/// Width lives in bits 48..64, height in bits 32..48, the top row in bits
/// 16..32 and the left column in bits 0..16.
#[derive(Clone, Copy, Debug, Default)]
pub struct Viewport {
    packed: u64,
}

impl View for Viewport {
    /// `(top row, left column, width, height)`.
    type V = (u16, u16, u16, u16);

    closed spec fn view(&self) -> (u16, u16, u16, u16) {
        (lane(self.packed, 16), lane(self.packed, 0), lane(self.packed, 48), lane(self.packed, 32))
    }
}

impl Viewport {
    /// A viewport scrolled to the origin, with an empty rectangle.
    pub fn new() -> (r: Viewport)
        ensures
            r@ == (0u16, 0u16, 0u16, 0u16),
    {
        let r = Viewport { packed: 0 };
        assert(lane(0, 16) == 0 && lane(0, 0) == 0 && lane(0, 48) == 0 && lane(0, 32) == 0)
            by (bit_vector);
        r
    }

    /// The scroll offsets: `(top row, left column)`.
    pub fn scroll_top(&self) -> (r: (u16, u16))
        ensures
            r == (self@.0, self@.1),
    {
        let u = self.packed;
        let row = #[verifier::truncate] ((u >> 16u64) as u16);
        let col = #[verifier::truncate] ((u >> 0u64) as u16);
        (row, col)
    }

    /// `(top row, left column, width, height)`.
    pub fn rect(&self) -> (r: (u16, u16, u16, u16))
        ensures
            r == self@,
    {
        let u = self.packed;
        let width = #[verifier::truncate] ((u >> 48u64) as u16);
        let height = #[verifier::truncate] ((u >> 32u64) as u16);
        let row = #[verifier::truncate] ((u >> 16u64) as u16);
        let col = #[verifier::truncate] ((u >> 0u64) as u16);
        (row, col, width, height)
    }

    /// `(top row, left column, bottom row, right column)`, the bottom and right
    /// ends inclusive and never before the top and left ones.
    pub fn position(&self) -> (r: (u16, u16, u16, u16))
        ensures
            r == (self@.0, self@.1, span_last(self@.0, self@.3), span_last(self@.1, self@.2)),
    {
        let (row_top, col_top, width, height) = self.rect();
        let row_bottom = row_top.saturating_add(height).saturating_sub(1);
        let col_bottom = col_top.saturating_add(width).saturating_sub(1);
        let row_last = if row_bottom < row_top {
            row_top
        } else {
            row_bottom
        };
        let col_last = if col_bottom < col_top {
            col_top
        } else {
            col_bottom
        };
        (row_top, col_top, row_last, col_last)
    }

    /// Replaces all four values at once.
    pub fn store(&mut self, row: u16, col: u16, width: u16, height: u16)
        ensures
            final(self)@ == (row, col, width, height),
    {
        let u = ((width as u64) << 48u64) | ((height as u64) << 32u64) | ((row as u64) << 16u64)
            | (col as u64);
        assert(lane(u, 16) == row && lane(u, 0) == col && lane(u, 48) == width && lane(u, 32)
            == height) by (bit_vector)
            requires
                u == ((width as u64) << 48u64) | ((height as u64) << 32u64) | ((row as u64)
                    << 16u64) | (col as u64),
        ;
        self.packed = u;
    }

    /// Moves the scroll offsets by `rows` and `cols`, saturating at both ends of
    /// `u16`; the rectangle is kept.
    pub fn scroll(&mut self, rows: i16, cols: i16)
        ensures
            final(self)@ == (
                clamp_u16(old(self)@.0 + rows),
                clamp_u16(old(self)@.1 + cols),
                old(self)@.2,
                old(self)@.3,
            ),
    {
        let u = self.packed;
        let row = apply_scroll(#[verifier::truncate] ((u >> 16u64) as u16), rows);
        let col = apply_scroll(#[verifier::truncate] ((u >> 0u64) as u16), cols);
        let v = (u & 0xffff_ffff_0000_0000u64) | ((row as u64) << 16u64) | (col as u64);
        assert(lane(v, 16) == row && lane(v, 0) == col && lane(v, 48) == lane(u, 48) && lane(v, 32)
            == lane(u, 32)) by (bit_vector)
            requires
                v == (u & 0xffff_ffff_0000_0000u64) | ((row as u64) << 16u64) | (col as u64),
        ;
        self.packed = v;
    }
}

/// `pos + delta`, saturating at both ends of `u16`.
fn apply_scroll(pos: u16, delta: i16) -> (r: u16)
    ensures
        r == clamp_u16(pos + delta),
{
    if delta >= 0 {
        pos.saturating_add(delta as u16)
    } else {
        let back = (0 - (delta as i32)) as u16;
        pos.saturating_sub(back)
    }
}

/// The new first visible line (or column) of a window of `len` lines that must
/// show `cursor`: unchanged when the cursor is already inside, the cursor itself
/// when it is above, and the line that makes the cursor the last visible one
/// when it is below.
pub open spec fn next_scroll_top_spec(prev_top: u16, cursor: u16, len: u16) -> u16 {
    if cursor < prev_top {
        cursor
    } else if prev_top + len <= cursor {
        clamp_u16(cursor + 1 - len)
    } else {
        prev_top
    }
}

/// Scroll policy for one axis; see [`next_scroll_top_spec`].
pub fn next_scroll_top(prev_top: u16, cursor: u16, len: u16) -> (r: u16)
    ensures
        r == next_scroll_top_spec(prev_top, cursor, len),
        len >= 1 ==> r <= cursor <= r + len - 1,
{
    if cursor < prev_top {
        cursor
    } else if cursor - prev_top >= len {
        if len == 0 {
            if cursor == u16::MAX {
                u16::MAX
            } else {
                cursor + 1
            }
        } else {
            cursor - (len - 1)
        }
    } else {
        prev_top
    }
}

} // verus!

//! Laws that tie the two directions of the coordinate mapping together.
use vstd::prelude::*;
use crate::textarea::{TextAreaView, click_column_spec, cursor_cell_spec, first_covering};
use crate::width::{is_narrow, prefix_width};
use crate::wrap::{
    layout_covers, lemma_flatten_offsets, lemma_seg_start_monotone, lemma_without_newlines_id,
    seg_start,
};

verus! {

/// Over characters that take one cell each, the visual width of a prefix is
/// its length (capped at `usize::MAX`).
proof fn lemma_prefix_width_narrow(s: Seq<char>, n: nat, tab_len: nat)
    requires
        n <= s.len(),
        forall|i: int| 0 <= i < n ==> is_narrow(#[trigger] s[i]),
    ensures
        prefix_width(s, n, tab_len) == if n <= usize::MAX { n } else { usize::MAX as nat },
    decreases n,
{
    if n > 0 {
        lemma_prefix_width_narrow(s, (n - 1) as nat, tab_len);
        assert(is_narrow(s[n - 1]));
    }
}

/// The segment that [`first_covering`] picks from `j` on reaches `col`, and
/// `col` lies past the end of every segment it skipped.
proof fn lemma_first_covering(segs: Seq<Seq<char>>, col: nat, j: nat)
    requires
        j < segs.len(),
        col <= seg_start(segs, segs.len() as int),
    ensures
        j <= first_covering(segs, col, j) < segs.len(),
        col <= seg_start(segs, first_covering(segs, col, j) + 1int),
        first_covering(segs, col, j) > j ==> col > seg_start(
            segs,
            first_covering(segs, col, j) as int,
        ),
    decreases segs.len() - j,
{
    if col > seg_start(segs, j + 1int) {
        lemma_first_covering(segs, col, j + 1);
    }
}

proof fn lemma_round_trip_unwrapped(v: TextAreaView, w: nat, h: nat)
    requires
        v.wf(),
        !v.wrap_enabled,
        w <= u16::MAX,
        forall|i: int| 0 <= i < v.cursor.1 ==> is_narrow(#[trigger] v.lines[v.cursor.0 as int][i]),
        v.viewport.1 == 0,
        v.logical_to_screen(w, h) is Some,
    ensures
        ({
            let cell = v.logical_to_screen(w, h)->0;
            v.screen_to_logical(cell.0, cell.1, w, h) == Some(v.cursor)
        }),
{
    lemma_prefix_width_narrow(v.lines[v.cursor.0 as int], v.cursor.1, v.tab_len);
}

/// Segment `k` of a layout that joins into `line` is the slice of `line`
/// between its offsets, and the offsets end at the line's end.
proof fn lemma_segment_of_line(segs: Seq<Seq<char>>, line: Seq<char>, k: int)
    requires
        segs.flatten() == line,
        0 <= k < segs.len(),
    ensures
        seg_start(segs, segs.len() as int) == line.len(),
        seg_start(segs, k + 1) == seg_start(segs, k) + segs[k].len(),
        segs[k] == line.subrange(seg_start(segs, k) as int, seg_start(segs, k + 1) as int),
{
    lemma_flatten_offsets(segs);
}

proof fn lemma_round_trip_wrapped(v: TextAreaView, w: nat, h: nat)
    requires
        v.wf(),
        v.wrap_enabled,
        w <= u16::MAX,
        forall|i: int| 0 <= i < v.cursor.1 ==> is_narrow(#[trigger] v.lines[v.cursor.0 as int][i]),
        !v.lines[v.cursor.0 as int].contains('\n'),
        layout_covers(v.lines[v.cursor.0 as int], v.effective_wrap_width(w)),
        v.logical_to_screen(w, h) is Some,
    ensures
        ({
            let cell = v.logical_to_screen(w, h)->0;
            v.screen_to_logical(cell.0, cell.1, w, h) == Some(v.cursor)
        }),
{
    let row = v.cursor.0;
    let col = v.cursor.1;
    let line = v.lines[row as int];
    let top = v.viewport.0;
    let g = v.gutter_width();
    let ww = v.effective_wrap_width(w);
    let segs = v.segments(row as int, ww);
    lemma_without_newlines_id(line);
    if segs.len() == 0 {
        v.lemma_locate_rows_between(top as int, row as int, 0, ww);
    } else {
        lemma_segment_of_line(segs, line, 0);
        lemma_first_covering(segs, col, 0);
        let k = first_covering(segs, col, 0);
        let sk = seg_start(segs, k as int);
        let seg = segs[k as int];
        lemma_segment_of_line(segs, line, k as int);
        lemma_seg_start_monotone(segs, k + 1int, segs.len() as int);
        assert forall|i: int| 0 <= i < col - sk implies is_narrow(#[trigger] seg[i]) by {
            assert(col <= sk + seg.len());
            assert(line.subrange(sk as int, (sk + seg.len()) as int)[i] == line[sk + i]);
        }
        lemma_prefix_width_narrow(seg, (col - sk) as nat, v.tab_len);
        assert(cursor_cell_spec(segs, col, v.tab_len) == (k, prefix_width(seg, (col - sk) as nat, v.tab_len)));
        v.lemma_locate_rows_between(top as int, row as int, k, ww);
        let cell = v.logical_to_screen(w, h)->0;
        assert(cell.0 == g + (col - sk));
        assert(click_column_spec(segs, k, cell.0, g) == col);
    }
}

/// Clicking the cell where the cursor is drawn gives back the cursor.
///
/// This holds when the characters before the cursor take one cell each (no
/// tabs, no wide or zero-width characters), when the view is not scrolled
/// sideways (without wrapping, clicks are read from column 0 of the text),
/// and when the wrapped layout of the cursor's row joins back into the row,
/// which the wrapping call guarantees for every row without line breaks.
pub proof fn lemma_cursor_round_trip(v: TextAreaView, w: nat, h: nat)
    requires
        v.wf(),
        w <= u16::MAX,
        h <= u16::MAX,
        forall|i: int| 0 <= i < v.cursor.1 ==> is_narrow(#[trigger] v.lines[v.cursor.0 as int][i]),
        !v.wrap_enabled ==> v.viewport.1 == 0,
        v.wrap_enabled ==> !v.lines[v.cursor.0 as int].contains('\n') && layout_covers(
            v.lines[v.cursor.0 as int],
            v.effective_wrap_width(w),
        ),
        v.logical_to_screen(w, h) is Some,
    ensures
        ({
            let cell = v.logical_to_screen(w, h)->0;
            v.screen_to_logical(cell.0, cell.1, w, h) == Some(v.cursor)
        }),
{
    if v.wrap_enabled {
        lemma_round_trip_wrapped(v, w, h);
    } else {
        lemma_round_trip_unwrapped(v, w, h);
    }
}

} // verus!

//! Soft-wrap layout: the segments that one line of text is broken into for a
//! given wrap width, and their character offsets within the line.
use vstd::prelude::*;

verus! {

/// The segments that `textwrap` makes of `line` at `width` columns (first-fit,
/// trailing spaces kept at each break).
pub uninterp spec fn wrapped_lines(line: Seq<char>, width: nat) -> Seq<Seq<char>>;

/// `line` with its `'\n'` characters taken out.
pub open spec fn without_newlines(line: Seq<char>) -> Seq<char> {
    line.filter(|c: char| c != '\n')
}

/// The texts of a sequence of strings.
pub open spec fn texts(v: Seq<String>) -> Seq<Seq<char>> {
    v.map_values(|s: String| s@)
}

/// The segments of a line put back together give the line, line breaks aside.
pub open spec fn layout_covers(line: Seq<char>, width: nat) -> bool {
    wrapped_lines(line, width).flatten() == without_newlines(line)
}

/// Relies on `textwrap::wrap` with `Options::new(width)`, first-fit wrapping
/// and `preserve_trailing_space(true)`: the input is split at `'\n'` and each
/// piece is cut into consecutive slices of itself, at least one per piece, so
/// the slices joined give the input without its `'\n'` characters.
#[verifier::external_body]
fn textwrap_lines(line: &str, width: usize) -> (r: Vec<String>)
    requires
        width >= 1,
    ensures
        texts(r@) == wrapped_lines(line@, width as nat),
        r@.len() >= 1,
        texts(r@).flatten() == without_newlines(line@),
{
    let options = textwrap::Options::new(width).preserve_trailing_space(true).wrap_algorithm(
        textwrap::WrapAlgorithm::FirstFit,
    );
    textwrap::wrap(line, &options).into_iter().map(|l| l.into_owned()).collect()
}

/// The wrapped segments of `line` at `width` columns: at least one, their
/// lengths summing to no more than the line's, and, for a line without line
/// breaks, joining back into the line.
pub fn wrap_line(line: &str, width: usize) -> (r: Vec<String>)
    requires
        width >= 1,
    ensures
        texts(r@) == wrapped_lines(line@, width as nat),
        r.len() >= 1,
        seg_start(texts(r@), r.len() as int) <= line@.len() <= usize::MAX,
        layout_covers(line@, width as nat),
        !line@.contains('\n') ==> texts(r@).flatten() == line@,
{
    let r = textwrap_lines(line, width);
    let n = line.unicode_len();
    proof {
        lemma_flatten_offsets(texts(r@));
        line@.lemma_filter_len(|c: char| c != '\n');
        if !line@.contains('\n') {
            lemma_without_newlines_id(line@);
        }
    }
    r
}

/// Where segment `k` starts: the summed lengths of the segments before it.
pub open spec fn seg_start(segs: Seq<Seq<char>>, k: int) -> nat
    decreases k,
{
    if k <= 0 {
        0
    } else {
        seg_start(segs, k - 1) + segs[k - 1].len()
    }
}

/// Joining the first `k` segments gives a sequence of length `seg_start(k)`
/// whose `i`th segment sits at `seg_start(i)`.
pub proof fn lemma_flatten_offsets(segs: Seq<Seq<char>>)
    ensures
        segs.flatten().len() == seg_start(segs, segs.len() as int),
        forall|k: int|
            0 <= k < segs.len() ==> segs.flatten().subrange(
                seg_start(segs, k) as int,
                (seg_start(segs, k) + segs[k].len()) as int,
            ) == #[trigger] segs[k],
    decreases segs.len(),
{
    segs.lemma_flatten_and_flatten_alt_are_equivalent();
    if segs.len() > 0 {
        let init = segs.drop_last();
        lemma_flatten_offsets(init);
        init.lemma_flatten_and_flatten_alt_are_equivalent();
        assert(segs.flatten_alt() == init.flatten_alt() + segs.last());
        assert forall|k: int| 0 <= k < init.len() implies seg_start(init, k) == seg_start(segs, k) by {
            lemma_seg_start_prefix(segs, init, k);
        }
        assert(seg_start(segs, segs.len() as int) == seg_start(init, init.len() as int)
            + segs.last().len()) by {
            lemma_seg_start_prefix(segs, init, init.len() as int);
        }
        assert forall|k: int| 0 <= k < segs.len() implies segs.flatten().subrange(
            seg_start(segs, k) as int,
            (seg_start(segs, k) + segs[k].len()) as int,
        ) == #[trigger] segs[k] by {
            lemma_seg_start_prefix(segs, init, k);
            if k < init.len() {
                assert(init[k] == segs[k]);
                lemma_seg_start_prefix(segs, init, k + 1);
                assert(seg_start(init, k + 1) <= seg_start(init, init.len() as int)) by {
                    lemma_seg_start_monotone(init, k + 1, init.len() as int);
                }
                assert(segs.flatten().subrange(
                    seg_start(segs, k) as int,
                    (seg_start(segs, k) + segs[k].len()) as int,
                ) =~= init.flatten().subrange(
                    seg_start(init, k) as int,
                    (seg_start(init, k) + init[k].len()) as int,
                ));
            } else {
                assert(segs.flatten().subrange(
                    seg_start(segs, k) as int,
                    (seg_start(segs, k) + segs[k].len()) as int,
                ) =~= segs.last());
            }
        }
    }
}

proof fn lemma_seg_start_prefix(segs: Seq<Seq<char>>, init: Seq<Seq<char>>, k: int)
    requires
        init.len() <= segs.len(),
        forall|i: int| 0 <= i < init.len() ==> init[i] == segs[i],
        0 <= k <= init.len(),
    ensures
        seg_start(init, k) == seg_start(segs, k),
    decreases k,
{
    if k > 0 {
        lemma_seg_start_prefix(segs, init, k - 1);
    }
}

/// Segment offsets never decrease.
pub proof fn lemma_seg_start_monotone(segs: Seq<Seq<char>>, a: int, b: int)
    requires
        0 <= a <= b,
    ensures
        seg_start(segs, a) <= seg_start(segs, b),
    decreases b - a,
{
    if a < b {
        lemma_seg_start_monotone(segs, a, b - 1);
    }
}

/// The length of each segment of `line` at `width` columns; there is always
/// at least one.
pub fn segment_lengths(line: &str, width: usize) -> (r: Vec<usize>)
    requires
        width >= 1,
    ensures
        r.len() == wrapped_lines(line@, width as nat).len(),
        r.len() >= 1,
        forall|k: int| 0 <= k < r.len() ==> r[k] == #[trigger] wrapped_lines(line@, width as nat)[k].len(),
        seg_start(wrapped_lines(line@, width as nat), r.len() as int) <= line@.len(),
        layout_covers(line@, width as nat),
{
    let segs = wrap_line(line, width);
    let ghost ws = wrapped_lines(line@, width as nat);
    let mut r: Vec<usize> = Vec::new();
    let mut k: usize = 0;
    while k < segs.len()
        invariant
            texts(segs@) == ws,
            k <= segs.len(),
            r.len() == k,
            forall|i: int| 0 <= i < k ==> r[i] == #[trigger] ws[i].len(),
        decreases segs.len() - k,
    {
        assert(ws[k as int] == segs@[k as int]@);
        r.push(segs[k].unicode_len());
        k = k + 1;
    }
    r
}

/// A line without line breaks is its own `without_newlines`.
pub proof fn lemma_without_newlines_id(line: Seq<char>)
    requires
        !line.contains('\n'),
    ensures
        without_newlines(line) == line,
    decreases line.len(),
{
    reveal(Seq::filter);
    if line.len() > 0 {
        let init = line.drop_last();
        assert(!init.contains('\n')) by {
            if init.contains('\n') {
                let i = choose|i: int| 0 <= i < init.len() && init[i] == '\n';
                assert(line[i] == '\n');
            }
        }
        lemma_without_newlines_id(init);
        assert(line.last() != '\n') by {
            assert(line[line.len() - 1] == line.last());
        }
        assert(init.push(line.last()) =~= line);
    }
}

/// Segments that join into `line` are the slices of `line` between
/// consecutive offsets, and the offsets end at the line's end.
pub proof fn lemma_segments_slice_line(segs: Seq<Seq<char>>, line: Seq<char>)
    requires
        segs.flatten() == line,
    ensures
        seg_start(segs, segs.len() as int) == line.len(),
        forall|k: int|
            0 <= k < segs.len() ==> line.subrange(seg_start(segs, k) as int, seg_start(segs, k + 1) as int)
                == #[trigger] segs[k],
{
    lemma_flatten_offsets(segs);
    assert forall|k: int| 0 <= k < segs.len() implies line.subrange(
        seg_start(segs, k) as int,
        seg_start(segs, k + 1) as int,
    ) == #[trigger] segs[k] by {
        assert(seg_start(segs, k + 1) == seg_start(segs, k) + segs[k].len());
    }
}

/// Offsets of segments that join into `line` start at 0, end at the line's
/// end, meet each other and slice out the segments.
proof fn lemma_offsets_slice_line(r: Seq<(usize, usize)>, segs: Seq<Seq<char>>, line: Seq<char>)
    requires
        segs.flatten() == line,
        r.len() == segs.len(),
        r.len() >= 1,
        forall|k: int|
            #![trigger r[k]] 0 <= k < r.len() ==> r[k].0 == seg_start(segs, k) && r[k].1 == seg_start(segs, k + 1),
    ensures
        r[0].0 == 0,
        r[r.len() - 1].1 == line.len(),
        forall|k: int| 0 <= k < r.len() - 1 ==> #[trigger] r[k].1 == r[k + 1].0,
        forall|k: int| 0 <= k < r.len() ==> line.subrange(r[k].0 as int, r[k].1 as int) == #[trigger] segs[k],
{
    lemma_segments_slice_line(segs, line);
    assert(r[0].0 == seg_start(segs, 0));
    assert(r[r.len() - 1].1 == seg_start(segs, r.len() as int));
    assert forall|k: int| 0 <= k < r.len() - 1 implies #[trigger] r[k].1 == r[k + 1].0 by {
        assert(r[k].1 == seg_start(segs, k + 1));
        assert(r[k + 1].0 == seg_start(segs, k + 1));
    }
    assert forall|k: int| 0 <= k < r.len() implies line.subrange(r[k].0 as int, r[k].1 as int)
        == #[trigger] segs[k] by {
        assert(r[k].0 == seg_start(segs, k) && r[k].1 == seg_start(segs, k + 1));
    }
}

/// The wrapped segments of `line` at `width` columns, as `(start, end)`
/// character offsets into the line: consecutive, at least one, and for a line
/// without line breaks they start at 0, end at the line's end, meet each other
/// and hold exactly the text of the segments.
pub fn wrap_segments(line: &str, width: usize) -> (r: Vec<(usize, usize)>)
    requires
        width >= 1,
    ensures
        r.len() == wrapped_lines(line@, width as nat).len(),
        r.len() >= 1,
        layout_covers(line@, width as nat),
        forall|k: int|
            #![trigger r[k]] 0 <= k < r.len() ==> r[k].0 == seg_start(wrapped_lines(line@, width as nat), k)
                && r[k].1 == seg_start(wrapped_lines(line@, width as nat), k + 1),
        !line@.contains('\n') ==> {
            &&& r[0].0 == 0
            &&& r[r.len() - 1].1 == line@.len()
            &&& forall|k: int| 0 <= k < r.len() - 1 ==> #[trigger] r[k].1 == r[k + 1].0
            &&& forall|k: int|
                0 <= k < r.len() ==> line@.subrange(r[k].0 as int, r[k].1 as int)
                    == #[trigger] wrapped_lines(line@, width as nat)[k]
        },
{
    let lens = segment_lengths(line, width);
    let n = line.unicode_len();
    let ghost ws = wrapped_lines(line@, width as nat);
    let mut r: Vec<(usize, usize)> = Vec::new();
    let mut start: usize = 0;
    let mut k: usize = 0;
    while k < lens.len()
        invariant
            lens.len() == ws.len(),
            forall|i: int| 0 <= i < lens.len() ==> lens[i] == #[trigger] ws[i].len(),
            seg_start(ws, ws.len() as int) <= line@.len(),
            line@.len() == n,
            k <= lens.len(),
            r.len() == k,
            start == seg_start(ws, k as int),
            forall|i: int|
                #![trigger r[i]] 0 <= i < k ==> r[i].0 == seg_start(ws, i) && r[i].1 == seg_start(
                    ws,
                    i + 1,
                ),
        decreases lens.len() - k,
    {
        proof {
            lemma_seg_start_monotone(ws, k + 1, ws.len() as int);
        }
        let end = start + lens[k];
        r.push((start, end));
        start = end;
        k = k + 1;
    }
    proof {
        if !line@.contains('\n') {
            lemma_without_newlines_id(line@);
            lemma_offsets_slice_line(r@, ws, line@);
        }
    }
    r
}

} // verus!

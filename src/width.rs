//! Width model: how many terminal cells a character takes, with tabs expanded
//! to the next tab stop and every other character measured by its Unicode
//! display width.
use vstd::prelude::*;

verus! {

/// What `unicode_width` reports as the display width of `c` (`None` for a
/// control character).
pub uninterp spec fn unicode_width_of(c: char) -> Option<usize>;

/// Relies on `unicode_width::UnicodeWidthChar::width` for `char`: the display
/// width of a single character; printable ASCII is one column wide and the C0
/// and C1 control characters have no width (`None`).
#[verifier::external_body]
fn unicode_char_width(c: char) -> (r: Option<usize>)
    ensures
        r == unicode_width_of(c),
        (' ' <= c && c <= '~') ==> r == Some(1usize),
        (c < ' ' || ('\u{7f}' <= c && c < '\u{a0}')) ==> r is None,
{
    unicode_width::UnicodeWidthChar::width(c)
}

/// `x`, capped at `usize::MAX`.
pub open spec fn sat_usize(x: int) -> nat {
    if x > usize::MAX {
        usize::MAX as nat
    } else if x < 0 {
        0
    } else {
        x as nat
    }
}

/// Cells taken by `c` when it starts at visual column `pos`: a tab reaches the
/// next multiple of `tab_len` (and is invisible when `tab_len` is 0); any other
/// character takes its Unicode display width: one cell for printable ASCII,
/// none for a control character.
pub open spec fn cell_width(c: char, pos: nat, tab_len: nat) -> nat {
    if c == '\t' {
        if tab_len == 0 {
            0
        } else {
            (tab_len - pos % tab_len) as nat
        }
    } else if ' ' <= c && c <= '~' {
        1
    } else if c < ' ' || ('\u{7f}' <= c && c < '\u{a0}') {
        0
    } else {
        match unicode_width_of(c) {
            Some(w) => w as nat,
            None => 0,
        }
    }
}

/// Visual width of the first `n` characters of `s`, laid out from column 0
/// (saturating at `usize::MAX`).
pub open spec fn prefix_width(s: Seq<char>, n: nat, tab_len: nat) -> nat
    decreases n,
{
    if n == 0 || s.len() == 0 {
        0
    } else if n > s.len() {
        prefix_width(s, s.len(), tab_len)
    } else {
        let before = prefix_width(s, (n - 1) as nat, tab_len);
        sat_usize(before + cell_width(s[n - 1], before, tab_len) as int)
    }
}

/// A character that takes exactly one cell wherever it stands.
pub open spec fn is_narrow(c: char) -> bool {
    c != '\t' && cell_width(c, 0, 0) == 1
}

/// Cells taken by `c` when it starts at visual column `position`.
pub fn char_visual_width(c: char, position: usize, tab_len: u8) -> (r: usize)
    ensures
        r == cell_width(c, position as nat, tab_len as nat),
{
    if c == '\t' {
        if tab_len == 0 {
            0
        } else {
            let t = tab_len as usize;
            t - position % t
        }
    } else {
        match unicode_char_width(c) {
            Some(w) => w,
            None => 0,
        }
    }
}

/// The characters of `s`, in order.
pub fn chars_of(s: &str) -> (r: Vec<char>)
    ensures
        r@ == s@,
{
    let mut r: Vec<char> = Vec::new();
    for c in it: s.chars()
        invariant
            r@ == it.seq().take(it.index() as int),
    {
        r.push(c);
    }
    r
}

/// Visual width of the first `n` characters of `s` (all of them when `n` is
/// larger), laid out from column 0.
pub fn prefix_visual_width(s: &Vec<char>, n: usize, tab_len: u8) -> (r: usize)
    ensures
        r == prefix_width(s@, n as nat, tab_len as nat),
{
    let stop = if n < s.len() {
        n
    } else {
        s.len()
    };
    let mut pos: usize = 0;
    let mut i: usize = 0;
    while i < stop
        invariant
            stop <= s.len(),
            stop == n || stop == s.len(),
            i <= stop,
            pos == prefix_width(s@, i as nat, tab_len as nat),
        decreases stop - i,
    {
        let w = char_visual_width(s[i], pos, tab_len);
        pos = pos.saturating_add(w);
        i = i + 1;
    }
    pos
}

/// Visual width of the first `n` characters of `line` (all of them when `n` is
/// larger), laid out from column 0.
pub fn visual_width(line: &str, n: usize, tab_len: u8) -> (r: usize)
    ensures
        r == prefix_width(line@, n as nat, tab_len as nat),
{
    let chars = chars_of(line);
    prefix_visual_width(&chars, n, tab_len)
}

/// The first index `i >= from` whose character ends past column `bound`
/// (`prefix_width(s, i + 1) > bound`), or `s.len()` when there is none.
pub open spec fn first_ending_past(s: Seq<char>, from: nat, bound: nat, tab_len: nat) -> nat
    decreases s.len() - from,
{
    if from >= s.len() {
        s.len()
    } else if prefix_width(s, from + 1, tab_len) > bound {
        from
    } else {
        first_ending_past(s, from + 1, bound, tab_len)
    }
}

/// The first index `i >= from` whose character ends at or past column `bound`,
/// or `s.len()` when there is none.
pub open spec fn first_ending_at(s: Seq<char>, from: nat, bound: nat, tab_len: nat) -> nat
    decreases s.len() - from,
{
    if from >= s.len() {
        s.len()
    } else if prefix_width(s, from + 1, tab_len) >= bound {
        from
    } else {
        first_ending_at(s, from + 1, bound, tab_len)
    }
}

/// The characters of `s` shown in the columns `left .. left + width`:
/// `(start, end, offset)`, where `start` is the first character that ends
/// past `left`, `end` (exclusive) stops at the first character from `start`
/// on that reaches `left + width` (kept when it ends exactly there, dropped
/// when it is cut), and `offset` is how many columns of the character at
/// `start` lie left of `left`. A line that ends before `left` gives an empty
/// range at its end.
pub open spec fn horizontal_range(s: Seq<char>, left: nat, width: nat, tab_len: nat) -> (
    nat,
    nat,
    nat,
) {
    let start = first_ending_past(s, 0, left, tab_len);
    if start >= s.len() {
        (s.len(), s.len(), 0)
    } else {
        let right = left + width;
        let j = first_ending_at(s, start, right, tab_len);
        let end = if j >= s.len() {
            s.len()
        } else if prefix_width(s, j + 1, tab_len) == right {
            j + 1
        } else {
            j
        };
        let before = prefix_width(s, start, tab_len);
        let offset = if before < left {
            (left - before) as nat
        } else {
            0
        };
        (start, end, offset)
    }
}

/// Character range of `line` visible through a window of `viewport_width`
/// columns that starts at visual column `col_left`; see [`horizontal_range`].
pub fn calculate_horizontal_range(line: &str, col_left: u16, viewport_width: u16, tab_len: u8) -> (r: (
    usize,
    usize,
    usize,
))
    ensures
        (r.0 as nat, r.1 as nat, r.2 as nat) == horizontal_range(
            line@,
            col_left as nat,
            viewport_width as nat,
            tab_len as nat,
        ),
{
    let s = chars_of(line);
    let len = s.len();
    let left = col_left as usize;
    let right = left + viewport_width as usize;
    let ghost t = tab_len as nat;
    let mut pos: usize = 0;
    let mut i: usize = 0;
    let mut found = false;
    while i < len && !found
        invariant
            s@ == line@,
            t == tab_len as nat,
            len == s.len(),
            left == col_left as usize,
            right == left + viewport_width,
            i <= len,
            pos == prefix_width(s@, i as nat, t),
            found ==> i < len && prefix_width(s@, (i + 1) as nat, t) > left,
            first_ending_past(s@, 0, left as nat, t) == first_ending_past(s@, i as nat, left as nat, t),
        decreases len - i + (if found { 0int } else { 1int }),
    {
        let next = pos.saturating_add(char_visual_width(s[i], pos, tab_len));
        if next > left {
            found = true;
        } else {
            pos = next;
            i = i + 1;
        }
    }
    if !found {
        return (len, len, 0);
    }
    let start = i;
    assert(first_ending_past(s@, i as nat, left as nat, t) == i);
    let offset = if pos < left {
        left - pos
    } else {
        0
    };
    while i < len
        invariant
            s@ == line@,
            t == tab_len as nat,
            len == s.len(),
            left == col_left as usize,
            right == left + viewport_width,
            start <= i <= len,
            start == first_ending_past(s@, 0, left as nat, t),
            offset == (if prefix_width(s@, start as nat, t) < left { (left - prefix_width(s@, start as nat, t)) as nat } else { 0nat }),
            start < len,
            pos == prefix_width(s@, i as nat, t),
            first_ending_at(s@, start as nat, right as nat, t) == first_ending_at(
                s@,
                i as nat,
                right as nat,
                t,
            ),
        decreases len - i,
    {
        let next = pos.saturating_add(char_visual_width(s[i], pos, tab_len));
        if next >= right {
            assert(prefix_width(s@, (i + 1) as nat, t) == next);
            assert(first_ending_at(s@, i as nat, right as nat, t) == i);
            let end = if next == right {
                i + 1
            } else {
                i
            };
            return (start, end, offset);
        }
        pos = next;
        i = i + 1;
    }
    (start, len, offset)
}

} // verus!

//! Largest-rectangle-in-histogram core of the grid solvers.
//!
//! A boolean cell mask is swept row by row.  For every column the sweep keeps
//! the number of consecutive inside cells ending at the current row (the
//! column "height"); the rectangles that fit under that histogram and cannot
//! be widened or heightened are the maximal rectangles of the row.  The
//! solvers weigh those rectangles by their real-valued cell extents and keep
//! the best one.
use vstd::prelude::*;

verus! {

/// Minimum of `h[j..e)` (meaningful for `j < e`).
pub open spec fn min_from(h: Seq<usize>, j: int, e: int) -> int
    decreases e - j,
{
    if j + 1 >= e {
        h[j] as int
    } else {
        let m = min_from(h, j + 1, e);
        if (h[j] as int) < m {
            h[j] as int
        } else {
            m
        }
    }
}

/// `(start, end, height)` is a rectangle under the histogram `h` that can be
/// neither widened nor heightened: it spans columns `start..end`, its height
/// is the smallest column height there, and both neighbours are lower.
pub open spec fn is_maximal(h: Seq<usize>, r: (usize, usize, usize)) -> bool {
    let (s, e, m) = r;
    &&& s < e <= h.len()
    &&& m >= 1
    &&& m as int == min_from(h, s as int, e as int)
    &&& (s == 0 || h[s - 1] < m)
    &&& (e == h.len() || h[e as int] < m)
}

/// Order in which the sweep reports rectangles: by right end, then from
/// the narrowest to the widest.
pub open spec fn reported_before(a: (usize, usize, usize), b: (usize, usize, usize)) -> bool {
    a.1 < b.1 || (a.1 == b.1 && a.0 > b.0)
}

/// `cands` lists every maximal rectangle of `h`, nothing else, in sweep order.
pub open spec fn lists_all_maximal(h: Seq<usize>, cands: Seq<(usize, usize, usize)>) -> bool {
    &&& forall|k: int| 0 <= k < cands.len() ==> #[trigger] is_maximal(h, cands[k])
    &&& forall|r: (usize, usize, usize)| #[trigger] is_maximal(h, r) ==> cands.contains(r)
    &&& forall|k: int, l: int|
        0 <= k < l < cands.len() ==> reported_before(#[trigger] cands[k], #[trigger] cands[l])
}

/// Every column `s..e` has height at least `hh`.
pub open spec fn fits_under(h: Seq<usize>, s: int, e: int, hh: int) -> bool {
    forall|k: int| s <= k < e ==> hh <= #[trigger] h[k]
}

// ---------------------------------------------------------------------------
// Facts about `min_from`
// ---------------------------------------------------------------------------

proof fn lemma_min_extend(h: Seq<usize>, j: int, e: int)
    requires
        0 <= j < e < h.len(),
    ensures
        min_from(h, j, e + 1) == if min_from(h, j, e) < h[e] as int {
            min_from(h, j, e)
        } else {
            h[e] as int
        },
    decreases e - j,
{
    if j + 1 < e {
        lemma_min_extend(h, j + 1, e);
    } else {
        assert(min_from(h, e, e + 1) == h[e] as int);
    }
}

proof fn lemma_min_le(h: Seq<usize>, j: int, e: int, k: int)
    requires
        0 <= j <= k < e <= h.len(),
    ensures
        min_from(h, j, e) <= h[k] as int,
    decreases e - j,
{
    if j + 1 < e && j < k {
        lemma_min_le(h, j + 1, e, k);
    } else if j + 1 < e {
    }
}

proof fn lemma_min_ge(h: Seq<usize>, j: int, e: int, b: int)
    requires
        0 <= j < e <= h.len(),
        fits_under(h, j, e, b),
    ensures
        min_from(h, j, e) >= b,
    decreases e - j,
{
    if j + 1 < e {
        lemma_min_ge(h, j + 1, e, b);
    }
}

// ---------------------------------------------------------------------------
// The sweep stack
// ---------------------------------------------------------------------------

/// Column where the stack entry `i` stops owning suffix starts.
pub open spec fn seg_end(st: Seq<(usize, usize)>, i: int, col: int) -> int {
    if i + 1 < st.len() {
        st[i + 1].0 as int
    } else {
        col
    }
}

/// Height of column `col`, with a zero-height sentinel past the last column.
pub open spec fn height_at(h: Seq<usize>, col: int) -> int {
    if col < h.len() {
        h[col] as int
    } else {
        0
    }
}

/// State of the stack before column `col` is processed: entry `i` starts at
/// `st[i].0`, and every suffix start `k` inside its segment has
/// `min(h[k..col)) == st[i].1`.
pub open spec fn stack_ok(h: Seq<usize>, st: Seq<(usize, usize)>, col: int) -> bool {
    &&& 0 <= col <= h.len()
    &&& (col == 0 <==> st.len() == 0)
    &&& (st.len() > 0 ==> st[0].0 == 0)
    &&& forall|i: int| 0 <= i < st.len() ==> (#[trigger] st[i]).0 < col
    &&& forall|i: int, j: int|
        0 <= i < j < st.len() ==> (#[trigger] st[i]).0 < (#[trigger] st[j]).0 && st[i].1
            <= st[j].1
    &&& forall|i: int, k: int|
        0 <= i < st.len() && (#[trigger] st[i]).0 <= k < seg_end(st, i, col) ==> #[trigger] min_from(
            h,
            k,
            col,
        ) == st[i].1
}

/// Rectangles reported so far: maximal, in sweep order, all with a right
/// end below `done`, and every maximal rectangle with such an end is there.
pub open spec fn out_ok(h: Seq<usize>, out: Seq<(usize, usize, usize)>, done: int) -> bool {
    &&& forall|k: int| 0 <= k < out.len() ==> #[trigger] is_maximal(h, out[k])
    &&& forall|k: int| 0 <= k < out.len() ==> ((#[trigger] out[k]).1 as int) < done
    &&& forall|r: (usize, usize, usize)| #[trigger]
        is_maximal(h, r) && (r.1 as int) < done ==> out.contains(r)
    &&& sorted_reports(out)
}

pub open spec fn sorted_reports(out: Seq<(usize, usize, usize)>) -> bool {
    forall|k: int, l: int|
        0 <= k < l < out.len() ==> reported_before(#[trigger] out[k], #[trigger] out[l])
}

/// Appending a maximal rectangle that comes after every earlier report keeps
/// the report list maximal-only and sorted, and loses nothing.
proof fn lemma_append_report(
    h: Seq<usize>,
    before: Seq<(usize, usize, usize)>,
    r: (usize, usize, usize),
)
    requires
        forall|k: int| 0 <= k < before.len() ==> #[trigger] is_maximal(h, before[k]),
        sorted_reports(before),
        is_maximal(h, r),
        forall|k: int| 0 <= k < before.len() ==> reported_before(#[trigger] before[k], r),
    ensures
        forall|k: int|
            0 <= k < before.push(r).len() ==> #[trigger] is_maximal(h, before.push(r)[k]),
        sorted_reports(before.push(r)),
        forall|rr: (usize, usize, usize)| before.contains(rr) ==> #[trigger] before.push(
            r,
        ).contains(rr),
        before.push(r).contains(r),
{
    let after = before.push(r);
    assert forall|k: int| 0 <= k < after.len() implies #[trigger] is_maximal(h, after[k]) by {
        if k < before.len() {
            assert(after[k] == before[k]);
        }
    }
    assert forall|k: int, l: int| 0 <= k < l < after.len() implies reported_before(
        #[trigger] after[k],
        #[trigger] after[l],
    ) by {
        assert(after[k] == before[k]);
        if l < before.len() {
            assert(after[l] == before[l]);
        }
    }
    assert forall|rr: (usize, usize, usize)| before.contains(rr) implies #[trigger] after.contains(
        rr,
    ) by {
        let idx = choose|idx: int| 0 <= idx < before.len() && before[idx] == rr;
        assert(after[idx] == rr);
    }
    assert(after[after.len() - 1] == r);
}

/// Finds the stack segment that owns suffix start `k`.
proof fn lemma_find_segment(st: Seq<(usize, usize)>, col: int, lo: int, k: int) -> (i: int)
    requires
        0 <= lo < st.len(),
        st[lo].0 <= k < col,
        forall|a: int, b: int|
            0 <= a < b < st.len() ==> (#[trigger] st[a]).0 < (#[trigger] st[b]).0,
    ensures
        lo <= i < st.len(),
        st[i].0 <= k < seg_end(st, i, col),
    decreases st.len() - lo,
{
    if lo + 1 < st.len() && st[lo + 1].0 <= k {
        lemma_find_segment(st, col, lo + 1, k)
    } else {
        lo
    }
}

/// Pops every entry taller than `cur` (the height of column `col`) and
/// reports the maximal rectangles that end at `col`.  Returns the start
/// column inherited by the entry that will be pushed for `col`.
fn pop_taller(
    h: &Vec<usize>,
    st: &mut Vec<(usize, usize)>,
    out: &mut Vec<(usize, usize, usize)>,
    col: usize,
    cur: usize,
) -> (start: usize)
    requires
        stack_ok(h@, old(st)@, col as int),
        cur as int == height_at(h@, col as int),
        out_ok(h@, old(out)@, col as int),
    ensures
        final(st).len() <= old(st).len(),
        final(st)@ == old(st)@.subrange(0, final(st).len() as int),
        forall|i: int| 0 <= i < final(st).len() ==> (#[trigger] final(st)@[i]).1 <= cur,
        forall|i: int|
            final(st).len() <= i < old(st).len() ==> (#[trigger] old(st)@[i]).1 > cur,
        start == if final(st).len() == old(st).len() {
            col
        } else {
            old(st)@[final(st).len() as int].0
        },
        out_ok(h@, final(out)@, col + 1),
{
    let ghost st0 = st@;
    let ghost hs = h@;
    let mut start = col;
    while st.len() > 0 && st[st.len() - 1].1 > cur
        invariant
            stack_ok(hs, st0, col as int),
            cur as int == height_at(hs, col as int),
            hs == h@,
            st.len() <= st0.len(),
            st@ == st0.subrange(0, st.len() as int),
            forall|i: int| st.len() <= i < st0.len() ==> (#[trigger] st0[i]).1 > cur,
            start == if st.len() == st0.len() {
                col
            } else {
                st0[st.len() as int].0
            },
            forall|k: int| 0 <= k < out@.len() ==> #[trigger] is_maximal(hs, out@[k]),
            forall|r: (usize, usize, usize)| #[trigger]
                is_maximal(hs, r) && (r.1 as int) < col ==> out@.contains(r),
            sorted_reports(out@),
            forall|k: int|
                0 <= k < out.len() ==> (#[trigger] out@[k]).1 < col || (out@[k].1 == col && (
                st.len() > 0 ==> out@[k].0 > st0[st.len() - 1].0)),
            forall|i: int|
                #![trigger st0[i]]
                st.len() <= i < st0.len() && is_maximal(hs, (st0[i].0, col, st0[i].1))
                    ==> out@.contains((st0[i].0, col, st0[i].1)),
        decreases st.len(),
    {
        let top = st.len() - 1;
        let (sc, sh) = st[top];
        proof {
            assert(st@[top as int] == st0[top as int]);
            assert(min_from(hs, sc as int, col as int) == sh);
        }
        st.pop();
        start = sc;
        if sc == 0 || h[sc - 1] < sh {
            let ghost before = out@;
            let r = (sc, col, sh);
            proof {
                assert(is_maximal(hs, r));
                assert forall|k: int| 0 <= k < before.len() implies reported_before(
                    #[trigger] before[k],
                    r,
                ) by {}
                lemma_append_report(hs, before, r);
            }
            out.push(r);
            proof {
                assert forall|k: int| 0 <= k < out.len() implies (#[trigger] out@[k]).1 < col || (
                out@[k].1 == col && (st.len() > 0 ==> out@[k].0 > st0[st.len() - 1].0)) by {
                    if st.len() > 0 {
                        assert(st0[st.len() - 1].0 < st0[st.len() as int].0);
                        if k < before.len() {
                            assert(out@[k] == before[k]);
                        }
                    }
                }
            }
        } else {
            proof {
                assert(!is_maximal(hs, (sc, col, sh)));
                assert forall|k: int| 0 <= k < out.len() implies (#[trigger] out@[k]).1 < col || (
                out@[k].1 == col && (st.len() > 0 ==> out@[k].0 > st0[st.len() - 1].0)) by {
                    if st.len() > 0 {
                        assert(st0[st.len() - 1].0 < st0[st.len() as int].0);
                    }
                }
            }
        }
    }
    proof {
        assert forall|k: int| 0 <= k < out.len() implies (#[trigger] out@[k]).1 <= col by {}
        lemma_pop_done(hs, st0, st@, out@, col, cur as int);
    }
    start
}

/// After popping, the remaining entries are no taller than `cur`, and every
/// maximal rectangle ending at `col` has been reported.
proof fn lemma_pop_done(
    hs: Seq<usize>,
    st0: Seq<(usize, usize)>,
    st: Seq<(usize, usize)>,
    out: Seq<(usize, usize, usize)>,
    col: usize,
    cur: int,
)
    requires
        forall|k: int| 0 <= k < out.len() ==> (#[trigger] out[k]).1 <= col,
        stack_ok(hs, st0, col as int),
        cur == height_at(hs, col as int),
        st.len() <= st0.len(),
        st == st0.subrange(0, st.len() as int),
        st.len() == 0 || st[st.len() - 1].1 <= cur,
        forall|i: int| st.len() <= i < st0.len() ==> (#[trigger] st0[i]).1 > cur,
        forall|k: int| 0 <= k < out.len() ==> #[trigger] is_maximal(hs, out[k]),
        forall|r: (usize, usize, usize)| #[trigger]
            is_maximal(hs, r) && (r.1 as int) < col ==> out.contains(r),
        sorted_reports(out),
        forall|i: int|
            #![trigger st0[i]]
            st.len() <= i < st0.len() && is_maximal(hs, (st0[i].0, col, st0[i].1))
                ==> out.contains((st0[i].0, col, st0[i].1)),
    ensures
        forall|i: int| 0 <= i < st.len() ==> (#[trigger] st[i]).1 <= cur,
        out_ok(hs, out, col + 1),
{
    let fl = st.len() as int;
    assert forall|i: int| 0 <= i < fl implies (#[trigger] st[i]).1 <= cur by {
        assert(st[i] == st0[i]);
        assert(st[fl - 1] == st0[fl - 1]);
        if i < fl - 1 {
            assert(st0[i].1 <= st0[fl - 1].1);
        }
    }
    assert forall|r: (usize, usize, usize)| #[trigger]
        is_maximal(hs, r) && (r.1 as int) < col + 1 implies out.contains(r) by {
        if r.1 == col {
            let (s, e, m) = r;
            let i = lemma_find_segment(st0, col as int, 0, s as int);
            assert(min_from(hs, s as int, col as int) == st0[i].1);
            if i < fl {
                assert(st[i] == st0[i]);
                assert(false);
            }
            if st0[i].0 < s {
                assert(min_from(hs, s - 1, col as int) == st0[i].1);
                lemma_min_le(hs, s - 1, col as int, s - 1);
                assert(false);
            }
            assert(st0[i] == (s, m));
        }
    }
    assert forall|k: int| 0 <= k < out.len() implies ((#[trigger] out[k]).1 as int) < col + 1 by {
        assert(is_maximal(hs, out[k]));
    }
}

/// Maximal rectangles under the histogram `heights`, reported in sweep order
/// (by right end, then from the narrowest to the widest).
///
/// The solvers evaluate exactly these rectangles for each mask row; every
/// rectangle under the histogram lies inside one of them
/// (`lemma_every_rectangle_within_candidate`).
pub fn maximal_rectangles(heights: &Vec<usize>) -> (out: Vec<(usize, usize, usize)>)
    ensures
        lists_all_maximal(heights@, out@),
{
    let n = heights.len();
    let ghost hs = heights@;
    let mut st: Vec<(usize, usize)> = Vec::new();
    let mut out: Vec<(usize, usize, usize)> = Vec::new();
    let mut col: usize = 0;
    while col < n
        invariant
            n == hs.len(),
            hs == heights@,
            col <= n,
            stack_ok(hs, st@, col as int),
            out_ok(hs, out@, col as int),
        decreases n - col,
    {
        let cur = heights[col];
        let ghost st0 = st@;
        let start = pop_taller(heights, &mut st, &mut out, col, cur);
        let ghost rem = st@;
        st.push((start, cur));
        proof {
            let c = col as int;
            let fl = rem.len() as int;
            let st1 = st@;
            assert(st1 == rem.push((start, cur)));
            assert forall|i: int| 0 <= i < fl implies #[trigger] rem[i] == st0[i] by {
                assert(rem[i] == st0.subrange(0, fl)[i]);
            }
            // starts strictly increase, heights never decrease
            assert forall|i: int, j: int| 0 <= i < j < st1.len() implies (#[trigger] st1[i]).0
                < (#[trigger] st1[j]).0 && st1[i].1 <= st1[j].1 by {
                assert(st1[i] == rem[i]);
                if j < fl {
                    assert(st1[j] == rem[j]);
                } else {
                    if fl < st0.len() {
                        assert(st0[i].0 < st0[fl].0);
                    }
                }
            }
            assert forall|i: int| 0 <= i < st1.len() implies (#[trigger] st1[i]).0 < c + 1 by {
                if i < fl {
                    assert(st1[i] == rem[i]);
                }
            }
            if st1.len() > 0 {
                if fl > 0 {
                    assert(st1[0] == rem[0]);
                } else if st0.len() > 0 {
                    assert(start == st0[0].0);
                }
            }
            // the suffix minima account for the new column
            assert forall|i: int, k: int|
                0 <= i < st1.len() && (#[trigger] st1[i]).0 <= k < seg_end(st1, i, c + 1)
                    implies #[trigger] min_from(hs, k, c + 1) == st1[i].1 by {
                if i < fl {
                    assert(st1[i] == st0[i]);
                    assert(seg_end(st1, i, c + 1) == seg_end(st0, i, c)) by {
                        if i + 1 < fl {
                            assert(st1[i + 1] == st0[i + 1]);
                        }
                    }
                    assert(min_from(hs, k, c) == st0[i].1);
                    lemma_min_extend(hs, k, c);
                } else {
                    if k == c {
                    } else {
                        let j = lemma_find_segment(st0, c, fl, k);
                        assert(min_from(hs, k, c) == st0[j].1);
                        lemma_min_extend(hs, k, c);
                    }
                }
            }
        }
        col = col + 1;
    }
    let _ = pop_taller(heights, &mut st, &mut out, n, 0);
    proof {
        assert forall|r: (usize, usize, usize)| #[trigger] is_maximal(hs, r) implies out@.contains(
            r,
        ) by {
            assert((r.1 as int) < n + 1);
        }
    }
    out
}

// ---------------------------------------------------------------------------
// Column heights over a row-major cell mask
// ---------------------------------------------------------------------------

/// Number of consecutive inside cells of column `c` ending at row `r` of a
/// row-major mask with `n` columns (0 for rows before the first).
pub open spec fn run_length(mask: Seq<bool>, n: int, r: int, c: int) -> nat
    decreases r + 1,
{
    if r < 0 {
        0
    } else if mask[r * n + c] {
        run_length(mask, n, r - 1, c) + 1
    } else {
        0
    }
}

proof fn lemma_row_index(row: int, n: int, c: int, len: int)
    requires
        0 <= row,
        0 <= c < n,
        (row + 1) * n <= len,
    ensures
        0 <= row * n,
        row * n + c < len,
        row * n + n == (row + 1) * n,
{
    assert(row * n + n == (row + 1) * n) by (nonlinear_arith);
    assert(0 <= row * n) by (nonlinear_arith)
        requires
            0 <= row,
            0 <= c < n,
    ;
}

/// Adds mask row `row` to the column heights: a column grows by one where
/// the row's cell is inside and drops to zero where it is outside.
pub fn update_heights(heights: &mut Vec<usize>, mask: &Vec<bool>, row: usize)
    requires
        (row as int + 1) * (old(heights).len() as int) <= mask.len(),
        forall|c: int|
            0 <= c < old(heights).len() && mask@[row * old(heights).len() + c] ==> old(
                heights,
            )@[c] < usize::MAX,
    ensures
        final(heights).len() == old(heights).len(),
        forall|c: int|
            0 <= c < final(heights).len() ==> #[trigger] final(heights)@[c] == if mask@[row
                * old(heights).len() + c] {
                old(heights)@[c] + 1
            } else {
                0
            },
{
    let n = heights.len();
    let ghost h0 = heights@;
    if n == 0 {
        return ;
    }
    proof {
        lemma_row_index(row as int, n as int, 0, mask.len() as int);
    }
    let base = row * n;
    let mut c: usize = 0;
    while c < n
        invariant
            n == heights.len(),
            n == h0.len(),
            base == row * n,
            (row as int + 1) * (n as int) <= mask.len(),
            0 <= c <= n,
            forall|k: int|
                0 <= k < n && mask@[row * n + k] ==> h0[k] < usize::MAX,
            forall|k: int| c <= k < n ==> heights@[k] == h0[k],
            forall|k: int|
                0 <= k < c ==> #[trigger] heights@[k] == if mask@[row * n + k] {
                    h0[k] + 1
                } else {
                    0
                },
        decreases n - c,
    {
        proof {
            lemma_row_index(row as int, n as int, c as int, mask.len() as int);
        }
        if mask[base + c] {
            assert(mask@[row * n + c]);
            assert(h0[c as int] < usize::MAX);
            let v = heights[c] + 1;
            heights.set(c, v);
        } else {
            heights.set(c, 0);
        }
        c = c + 1;
    }
}

/// Some interval `[start, end)` of `intervals` contains column `c`.
pub open spec fn covered(intervals: Seq<(usize, usize)>, c: int) -> bool {
    exists|j: int| 0 <= j < intervals.len() && (#[trigger] intervals[j]).0 <= c < intervals[j].1
}

/// Marks the cells of mask row `row` whose columns fall in one of the
/// `[start, end)` column intervals (columns past `n_cols` are ignored).
pub fn fill_row_intervals(
    mask: &mut Vec<bool>,
    row: usize,
    n_cols: usize,
    intervals: &Vec<(usize, usize)>,
)
    requires
        (row as int + 1) * (n_cols as int) <= old(mask).len(),
    ensures
        final(mask).len() == old(mask).len(),
        forall|c: int|
            0 <= c < n_cols ==> #[trigger] final(mask)@[row * n_cols + c] == (old(mask)@[row
                * n_cols + c] || covered(intervals@, c)),
        forall|i: int|
            0 <= i < old(mask).len() && !(row * n_cols <= i < row * n_cols + n_cols)
                ==> #[trigger] final(mask)@[i] == old(mask)@[i],
{
    let ghost m0 = mask@;
    let ghost iv = intervals@;
    if n_cols == 0 {
        return ;
    }
    proof {
        lemma_row_index(row as int, n_cols as int, 0, mask.len() as int);
    }
    let base = row * n_cols;
    let mut j: usize = 0;
    while j < intervals.len()
        invariant
            iv == intervals@,
            mask.len() == m0.len(),
            base == row * n_cols,
            n_cols > 0,
            (row as int + 1) * (n_cols as int) <= m0.len(),
            0 <= j <= iv.len(),
            forall|c: int|
                0 <= c < n_cols ==> #[trigger] mask@[row * n_cols + c] == (m0[row * n_cols + c]
                    || exists|t: int| 0 <= t < j && (#[trigger] iv[t]).0 <= c < iv[t].1),
            forall|i: int|
                0 <= i < m0.len() && !(row * n_cols <= i < row * n_cols + n_cols)
                    ==> #[trigger] mask@[i] == m0[i],
        decreases iv.len() - j,
    {
        let (cs, ce) = intervals[j];
        let ghost mj = mask@;
        let mut col = cs;
        while col < ce
            invariant
                iv == intervals@,
                mask.len() == m0.len(),
                base == row * n_cols,
                n_cols > 0,
                (row as int + 1) * (n_cols as int) <= m0.len(),
                0 <= j < iv.len(),
                iv[j as int] == (cs, ce),
                cs <= col <= ce || (cs > ce && col == cs),
                forall|c: int|
                    0 <= c < n_cols ==> #[trigger] mask@[row * n_cols + c] == (mj[row * n_cols
                        + c] || (cs <= c < col)),
                forall|i: int|
                    0 <= i < m0.len() && !(row * n_cols <= i < row * n_cols + n_cols)
                        ==> #[trigger] mask@[i] == mj[i],
            decreases ce - col,
        {
            if col < n_cols {
                proof {
                    lemma_row_index(row as int, n_cols as int, col as int, m0.len() as int);
                }
                mask.set(base + col, true);
                proof {
                    assert forall|c: int| 0 <= c < n_cols implies #[trigger] mask@[row * n_cols
                        + c] == (mj[row * n_cols + c] || (cs <= c < col + 1)) by {
                        lemma_row_index(row as int, n_cols as int, c, m0.len() as int);
                    }
                    assert forall|i: int|
                        0 <= i < m0.len() && !(row * n_cols <= i < row * n_cols + n_cols)
                            implies #[trigger] mask@[i] == mj[i] by {}
                }
            }
            col = col + 1;
        }
        proof {
            assert forall|c: int| 0 <= c < n_cols implies #[trigger] mask@[row * n_cols + c] == (
            m0[row * n_cols + c] || exists|t: int| 0 <= t < j + 1 && (#[trigger] iv[t]).0 <= c < iv[t].1) by {
                if cs <= c < ce {
                    assert(iv[j as int].0 <= c < iv[j as int].1);
                }
            }
        }
        j = j + 1;
    }
}

// ---------------------------------------------------------------------------
// Laws
// ---------------------------------------------------------------------------

/// Adding row `r` to heights that are the run lengths up to row `r - 1`
/// yields the run lengths up to row `r`.
pub proof fn lemma_heights_are_runs(
    mask: Seq<bool>,
    n: int,
    r: int,
    before: Seq<usize>,
    after: Seq<usize>,
)
    requires
        0 <= r,
        before.len() == n,
        after.len() == n,
        forall|c: int| 0 <= c < n ==> #[trigger] before[c] == run_length(mask, n, r - 1, c),
        forall|c: int|
            0 <= c < n ==> #[trigger] after[c] == if mask[r * n + c] {
                before[c] + 1
            } else {
                0
            },
    ensures
        forall|c: int| 0 <= c < n ==> #[trigger] after[c] == run_length(mask, n, r, c),
{
    assert forall|c: int| 0 <= c < n implies #[trigger] after[c] == run_length(mask, n, r, c) by {
        assert(before[c] == run_length(mask, n, r - 1, c));
    }
}

/// A column whose run length at row `r` is at least `hh` is inside on the
/// `hh` rows ending at `r`; so every rectangle under the histogram of row
/// `r` covers inside cells only.
pub proof fn lemma_run_cells_inside(mask: Seq<bool>, n: int, r: int, c: int, hh: int, t: int)
    requires
        0 <= r,
        hh <= run_length(mask, n, r, c),
        0 <= t,
        r - hh < t <= r,
    ensures
        mask[t * n + c],
    decreases r - t,
{
    if t < r {
        lemma_run_cells_inside(mask, n, r - 1, c, hh - 1, t);
    }
}

/// Widens a run of columns of height at least `hh` to the right until a
/// lower column or the end of the histogram.
proof fn lemma_extend_right(h: Seq<usize>, s: int, e: int, hh: int) -> (e2: int)
    requires
        0 <= s < e <= h.len(),
        fits_under(h, s, e, hh),
    ensures
        e <= e2 <= h.len(),
        fits_under(h, s, e2, hh),
        e2 == h.len() || (h[e2] as int) < hh,
    decreases h.len() - e,
{
    if e == h.len() || (h[e] as int) < hh {
        e
    } else {
        assert(fits_under(h, s, e + 1, hh)) by {
            assert forall|k: int| s <= k < e + 1 implies hh <= #[trigger] h[k] by {
                if k < e {
                }
            }
        }
        lemma_extend_right(h, s, e + 1, hh)
    }
}

/// Widens a run of columns of height at least `hh` to the left.
proof fn lemma_extend_left(h: Seq<usize>, s: int, e: int, hh: int) -> (s2: int)
    requires
        0 <= s < e <= h.len(),
        fits_under(h, s, e, hh),
    ensures
        0 <= s2 <= s,
        fits_under(h, s2, e, hh),
        s2 == 0 || (h[s2 - 1] as int) < hh,
    decreases s,
{
    if s == 0 || (h[s - 1] as int) < hh {
        s
    } else {
        assert(fits_under(h, s - 1, e, hh)) by {
            assert forall|k: int| s - 1 <= k < e implies hh <= #[trigger] h[k] by {
                if k > s - 1 {
                }
            }
        }
        lemma_extend_left(h, s - 1, e, hh)
    }
}

/// Any rectangle that fits under a histogram lies inside a maximal one.
pub proof fn lemma_rectangle_within_maximal(h: Seq<usize>, s: int, e: int, hh: int) -> (r: (
    usize,
    usize,
    usize,
))
    requires
        h.len() <= usize::MAX,
        0 <= s < e <= h.len(),
        1 <= hh,
        fits_under(h, s, e, hh),
    ensures
        is_maximal(h, r),
        r.0 <= s,
        e <= r.1,
        hh <= r.2,
{
    let e2 = lemma_extend_right(h, s, e, hh);
    let s2 = lemma_extend_left(h, s, e2, hh);
    lemma_min_ge(h, s2, e2, hh);
    let m = min_from(h, s2, e2);
    lemma_min_le(h, s2, e2, s2);
    (s2 as usize, e2 as usize, m as usize)
}

/// Every rectangle that fits under the histogram lies inside one of the
/// candidates that `maximal_rectangles` reports, so the best-weighted
/// rectangle is always among them.
pub proof fn lemma_every_rectangle_within_candidate(
    h: Seq<usize>,
    cands: Seq<(usize, usize, usize)>,
    s: int,
    e: int,
    hh: int,
) -> (k: int)
    requires
        h.len() <= usize::MAX,
        lists_all_maximal(h, cands),
        0 <= s < e <= h.len(),
        1 <= hh,
        fits_under(h, s, e, hh),
    ensures
        0 <= k < cands.len(),
        cands[k].0 <= s,
        e <= cands[k].1,
        hh <= cands[k].2,
        fits_under(h, cands[k].0 as int, cands[k].1 as int, cands[k].2 as int),
{
    let r = lemma_rectangle_within_maximal(h, s, e, hh);
    assert(cands.contains(r));
    let k = choose|k: int| 0 <= k < cands.len() && cands[k] == r;
    assert forall|j: int| r.0 <= j < r.1 implies r.2 <= #[trigger] h[j] by {
        lemma_min_le(h, r.0 as int, r.1 as int, j);
    }
    k
}

} // verus!

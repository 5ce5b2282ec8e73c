//! The expected-value solver: for any board state, the exact expectation
//! under optimal continued play and the action that attains it.
//!
//! Every expectation here is the exact rational `num / den`: an integer
//! total of payouts divided by the number of equally likely cases.  For a
//! board with `h` hidden cells and `h <= 7` the denominator is `h!`; the
//! one-revealed-cell states come from the opening book with their own
//! denominators.

use vstd::prelude::*;

use crate::board::{
    has_value, hidden_count, spec_hidden_indices, spec_hidden_values, spec_visible_indices,
    spec_visible_values, wf_board, lemma_hidden_count_update, lemma_hidden_idxs_upto_in_range,
    lemma_hidden_vals_upto_membership, lemma_hidden_values_complement, lemma_idxs_partition,
    lemma_visible_idxs_upto_in_range, lemma_wf_update, Cactpot,
};
use crate::book::{
    lemma_opening_den_positive, opening_cells, opening_coords, opening_den, opening_num,
    opening_value,
};
use crate::payout::{payout, spec_payout};

verus! {

/// What the solver recommends: cells to reveal next, or lines to choose
/// for the final payout.
#[derive(Debug, Clone, PartialEq, Eq)]
pub enum Recommendation {
    /// Cell indices worth revealing next, ascending.
    Coordinates(Vec<usize>),
    /// Line indices tied for the best expected payout, ascending.
    Rows(Vec<usize>),
}

/// An exact expectation: `num / den` credits.
#[derive(Debug, Clone, Copy, PartialEq, Eq)]
pub struct Expectation {
    /// Total payout over all equally likely cases.
    pub num: u64,
    /// The number of equally likely cases.
    pub den: u64,
}

/// The cell indices of scoreable line `r`: three rows, three columns and
/// two diagonals, in that order.
pub open spec fn line_cells(r: int) -> (int, int, int) {
    if r == 0 {
        (0, 1, 2)
    } else if r == 1 {
        (3, 4, 5)
    } else if r == 2 {
        (6, 7, 8)
    } else if r == 3 {
        (0, 3, 6)
    } else if r == 4 {
        (1, 4, 7)
    } else if r == 5 {
        (2, 5, 8)
    } else if r == 6 {
        (0, 4, 8)
    } else {
        (2, 4, 6)
    }
}

/// The sum of the three cells of line `r` on board `b`.
pub open spec fn line_sum(b: Seq<u8>, r: int) -> int {
    b[line_cells(r).0] + b[line_cells(r).1] + b[line_cells(r).2]
}

/// n factorial.
pub open spec fn fact(n: int) -> int
    decreases n,
{
    if n <= 0 {
        1
    } else {
        n * fact(n - 1)
    }
}

/// The total payout of line `r` over every assignment of the values
/// `vals` onto the cells `idxs` of board `b`: each assignment places one
/// value per cell, and all `vals.len()!` assignments count once.
pub open spec fn perm_total(b: Seq<u8>, idxs: Seq<usize>, vals: Seq<u8>, r: int) -> int
    decreases vals.len(), 1int, 0int,
{
    if vals.len() == 0 {
        spec_payout(line_sum(b, r))
    } else {
        choice_sum(b, idxs, vals, r, vals.len() as int)
    }
}

/// The partial sum of `perm_total` over the first `j` choices of which
/// value to place on the first cell `idxs[0]`.
pub open spec fn choice_sum(b: Seq<u8>, idxs: Seq<usize>, vals: Seq<u8>, r: int, j: int) -> int
    decreases vals.len(), 0int, j,
{
    if j <= 0 || j > vals.len() {
        0
    } else {
        choice_sum(b, idxs, vals, r, j - 1) + perm_total(
            b.update(idxs[0] as int, vals[j - 1]),
            idxs.drop_first(),
            vals.remove(j - 1),
            r,
        )
    }
}

/// Totals over permutations are nonnegative and at most `vals.len()!`
/// times the largest payout.
pub proof fn lemma_perm_total_bounds(b: Seq<u8>, idxs: Seq<usize>, vals: Seq<u8>, r: int)
    ensures
        0 <= perm_total(b, idxs, vals, r) <= fact(vals.len() as int) * 10000,
    decreases vals.len(), 1int, 0int,
{
    if vals.len() == 0 {
    } else {
        lemma_choice_sum_bounds(b, idxs, vals, r, vals.len() as int);
    }
}

/// Partial choice sums are nonnegative and at most `j * (vals.len()-1)!`
/// times the largest payout.
pub proof fn lemma_choice_sum_bounds(b: Seq<u8>, idxs: Seq<usize>, vals: Seq<u8>, r: int, j: int)
    ensures
        0 <= choice_sum(b, idxs, vals, r, j),
        0 <= j <= vals.len() ==> choice_sum(b, idxs, vals, r, j) <= j * fact(vals.len() - 1)
            * 10000,
    decreases vals.len(), 0int, j,
{
    if j <= 0 || j > vals.len() {
        assert(choice_sum(b, idxs, vals, r, j) == 0);
        if 0 <= j <= vals.len() {
            assert(j == 0);
            assert(j * fact(vals.len() - 1) * 10000 == 0) by (nonlinear_arith)
                requires j == 0;
        }
    } else {
        lemma_choice_sum_bounds(b, idxs, vals, r, j - 1);
        lemma_perm_total_bounds(
            b.update(idxs[0] as int, vals[j - 1]),
            idxs.drop_first(),
            vals.remove(j - 1),
            r,
        );
        let f = fact(vals.len() - 1);
        let prev = choice_sum(b, idxs, vals, r, j - 1);
        let pt = perm_total(b.update(idxs[0] as int, vals[j - 1]), idxs.drop_first(), vals.remove(j - 1), r);
        assert(vals.remove(j - 1).len() == vals.len() - 1);
        assert(choice_sum(b, idxs, vals, r, j) == prev + pt);
        assert(prev <= (j - 1) * f * 10000);
        assert(pt <= f * 10000);
        assert((j - 1) * f * 10000 + f * 10000 == j * f * 10000) by (nonlinear_arith);
    }
}

/// `fact` stays positive, and its small values are the familiar ones.
pub proof fn lemma_fact_bounds(n: int)
    ensures
        1 <= fact(n),
        n <= 1 ==> fact(n) == 1,
        n == 2 ==> fact(n) == 2,
        n == 3 ==> fact(n) == 6,
        n == 4 ==> fact(n) == 24,
        n == 5 ==> fact(n) == 120,
        n == 6 ==> fact(n) == 720,
        n == 7 ==> fact(n) == 5040,
    decreases n,
{
    if n > 0 {
        lemma_fact_bounds(n - 1);
        vstd::arithmetic::mul::lemma_mul_strictly_positive(n, fact(n - 1));
    }
}

/// The largest of `max(0, ...)` over the totals of the first `r` lines.
pub open spec fn lines_max(b: Seq<u8>, idxs: Seq<usize>, vals: Seq<u8>, r: int) -> int
    decreases r,
{
    if r <= 0 {
        0
    } else {
        let t = perm_total(b, idxs, vals, r - 1);
        let m = lines_max(b, idxs, vals, r - 1);
        if t > m {
            t
        } else {
            m
        }
    }
}

/// The line indices below `r` whose total attains the maximum over all
/// eight lines, ascending.
pub open spec fn rows_filter(b: Seq<u8>, idxs: Seq<usize>, vals: Seq<u8>, r: int) -> Seq<usize>
    decreases r,
{
    if r <= 0 {
        Seq::empty()
    } else if perm_total(b, idxs, vals, r - 1) == lines_max(b, idxs, vals, 8) {
        rows_filter(b, idxs, vals, r - 1).push((r - 1) as usize)
    } else {
        rows_filter(b, idxs, vals, r - 1)
    }
}

/// The expectation numerator under optimal play from board `b`: the total
/// payout over `spec_solve_den(b)` equally likely cases.
///
/// With the board empty there is no information and the expectation is
/// zero.  With one cell revealed the opening book answers.  With at most
/// five cells hidden the best line's total over all assignments of the
/// hidden values decides.  Otherwise the best cell to reveal next is the
/// one whose reveal maximizes the summed expectation over every still
/// unseen digit.
pub open spec fn solve_num(b: Seq<u8>) -> int
    decreases hidden_count(b), 2int, 0int,
{
    let h = hidden_count(b);
    if h >= 9 {
        0
    } else if h == 8 {
        opening_num(spec_visible_indices(b)[0] as int, spec_visible_values(b)[0] as int)
    } else if h <= 5 {
        lines_max(b, spec_hidden_indices(b), spec_hidden_values(b), 8)
    } else {
        cand_max(b, h)
    }
}

/// The largest summed child expectation over the first `p` hidden cells.
pub open spec fn cand_max(b: Seq<u8>, p: int) -> int
    decreases hidden_count(b), 1int, p,
{
    if p <= 0 || p > spec_hidden_indices(b).len() {
        0
    } else {
        let s = cand_sum(
            b,
            spec_hidden_indices(b)[p - 1] as int,
            spec_hidden_values(b).len() as int,
        );
        let m = cand_max(b, p - 1);
        if s > m {
            s
        } else {
            m
        }
    }
}

/// The summed expectation numerator over the first `q` unseen digits when
/// the next reveal is cell `i`.
pub open spec fn cand_sum(b: Seq<u8>, i: int, q: int) -> int
    decreases hidden_count(b), 0int, q,
        when 0 <= i < 9 && b.len() == 9 && b[i] == 0 && q <= spec_hidden_values(b).len()
{
    if q <= 0 {
        0
    } else {
        proof {
            lemma_hidden_vals_upto_membership(b, 9);
            lemma_hidden_count_update(b, i, spec_hidden_values(b)[q - 1]);
        }
        cand_sum(b, i, q - 1) + solve_num(b.update(i, spec_hidden_values(b)[q - 1]))
    }
}

/// The hidden cells among the first `p` whose summed child expectation
/// attains the maximum, ascending.
pub open spec fn coords_filter(b: Seq<u8>, p: int) -> Seq<usize>
    decreases p,
{
    if p <= 0 || p > spec_hidden_indices(b).len() {
        Seq::empty()
    } else if cand_sum(
        b,
        spec_hidden_indices(b)[p - 1] as int,
        spec_hidden_values(b).len() as int,
    ) == cand_max(b, hidden_count(b)) {
        coords_filter(b, p - 1).push(spec_hidden_indices(b)[p - 1])
    } else {
        coords_filter(b, p - 1)
    }
}

/// Whether `rec` is the recommendation the solver owes for board `b`:
/// the right variant, holding exactly the recommended indices.
pub open spec fn rec_matches(b: Seq<u8>, rec: Recommendation) -> bool {
    match rec {
        Recommendation::Coordinates(c) => !spec_recommends_rows(b) && c@ == spec_solve_cells(b),
        Recommendation::Rows(c) => spec_recommends_rows(b) && c@ == spec_solve_cells(b),
    }
}

/// The denominator of the expectation from board `b`: the number of
/// equally likely cases behind `solve_num(b)`.
pub open spec fn spec_solve_den(b: Seq<u8>) -> int {
    let h = hidden_count(b);
    if h >= 9 {
        1
    } else if h == 8 {
        opening_den(spec_visible_indices(b)[0] as int, spec_visible_values(b)[0] as int)
    } else {
        fact(h)
    }
}

/// The cells or lines the solver recommends from board `b`, as the list
/// of their indices, ascending.
pub open spec fn spec_solve_cells(b: Seq<u8>) -> Seq<usize> {
    let h = hidden_count(b);
    if h >= 9 {
        seq![0usize, 2, 6, 8]
    } else if h == 8 {
        opening_coords(spec_visible_indices(b)[0] as int, spec_visible_values(b)[0] as int)
    } else if h <= 5 {
        rows_filter(b, spec_hidden_indices(b), spec_hidden_values(b), 8)
    } else {
        coords_filter(b, hidden_count(b))
    }
}

/// Whether the recommendation from board `b` is a final line choice
/// (at most five cells hidden) rather than a next reveal.
pub open spec fn spec_recommends_rows(b: Seq<u8>) -> bool {
    hidden_count(b) <= 5
}

/// `lines_max` is a nonnegative total bounded like each line's total.
pub proof fn lemma_lines_max_bounds(b: Seq<u8>, idxs: Seq<usize>, vals: Seq<u8>, r: int)
    ensures
        0 <= lines_max(b, idxs, vals, r) <= fact(vals.len() as int) * 10000,
    decreases r,
{
    if r <= 0 {
        lemma_fact_bounds(vals.len() as int);
        assert(0 <= fact(vals.len() as int) * 10000) by (nonlinear_arith)
            requires 1 <= fact(vals.len() as int);
    } else {
        lemma_lines_max_bounds(b, idxs, vals, r - 1);
        lemma_perm_total_bounds(b, idxs, vals, r - 1);
    }
}

/// The solver's expectation numerator is a nonnegative payout total of at
/// most `h! * 10000` over the `h!` cases, for any board with at most
/// seven cells hidden.
pub proof fn lemma_solve_num_bounds(b: Seq<u8>)
    requires
        wf_board(b),
        hidden_count(b) <= 7,
    ensures
        0 <= solve_num(b) <= fact(hidden_count(b)) * 10000,
    decreases hidden_count(b), 2int, 0int,
{
    let h = hidden_count(b);
    lemma_hidden_values_complement(b);
    if h <= 5 {
        lemma_lines_max_bounds(b, spec_hidden_indices(b), spec_hidden_values(b), 8);
    } else {
        lemma_cand_max_bounds(b, h);
        lemma_fact_bounds(h - 1);
        assert(h * (fact(h - 1) * 10000) == fact(h) * 10000) by (nonlinear_arith)
            requires h >= 1 && fact(h) == h * fact(h - 1);
    }
}

/// Each prefix maximum of summed child expectations is nonnegative and at
/// most `h * (h-1)! * 10000`.
pub proof fn lemma_cand_max_bounds(b: Seq<u8>, p: int)
    requires
        wf_board(b),
        6 <= hidden_count(b) <= 7,
        p <= hidden_count(b),
    ensures
        0 <= cand_max(b, p) <= hidden_count(b) * (fact(hidden_count(b) - 1) * 10000),
    decreases hidden_count(b), 1int, p,
{
    let h = hidden_count(b);
    lemma_fact_bounds(h - 1);
    if p <= 0 || p > spec_hidden_indices(b).len() {
        assert(0 <= h * (fact(h - 1) * 10000)) by (nonlinear_arith)
            requires h >= 6 && fact(h - 1) >= 1;
    } else {
        lemma_cand_max_bounds(b, p - 1);
        lemma_hidden_values_complement(b);
        lemma_hidden_idxs_upto_in_range(b, 9);
        let i = spec_hidden_indices(b)[p - 1] as int;
        lemma_cand_sum_bounds(b, i, spec_hidden_values(b).len() as int);
        assert(h * (fact(h - 1) * 10000) == hidden_count(b) * (fact(hidden_count(b) - 1) * 10000));
    }
}

/// Each partial sum of child expectations over the first `q` unseen
/// digits is nonnegative and at most `q * (h-1)! * 10000`.
pub proof fn lemma_cand_sum_bounds(b: Seq<u8>, i: int, q: int)
    requires
        wf_board(b),
        6 <= hidden_count(b) <= 7,
        0 <= i < 9,
        b[i] == 0,
        q <= spec_hidden_values(b).len(),
    ensures
        0 <= cand_sum(b, i, q) <= if q >= 0 {
            q * (fact(hidden_count(b) - 1) * 10000)
        } else {
            0
        },
    decreases hidden_count(b), 0int, q,
{
    let h = hidden_count(b);
    lemma_fact_bounds(h - 1);
    if q <= 0 {
    } else {
        lemma_cand_sum_bounds(b, i, q - 1);
        lemma_hidden_vals_upto_membership(b, 9);
        let v = spec_hidden_values(b)[q - 1];
        let c = b.update(i, v);
        lemma_hidden_count_update(b, i, v);
        lemma_wf_update(b, i, v);
        lemma_solve_num_bounds(c);
        assert(cand_sum(b, i, q) == cand_sum(b, i, q - 1) + solve_num(c));
        assert(fact(hidden_count(c)) == fact(h - 1));
        assert((q - 1) * (fact(h - 1) * 10000) + fact(h - 1) * 10000 == q * (fact(h - 1)
            * 10000)) by (nonlinear_arith);
    }
}

/// Some line's total attains each prefix maximum: `lines_max` never
/// invents a value.
proof fn lemma_lines_max_attained(b: Seq<u8>, idxs: Seq<usize>, vals: Seq<u8>, r: int)
    requires
        1 <= r,
    ensures
        exists|t: int|
            0 <= t < r && #[trigger] perm_total(b, idxs, vals, t) == lines_max(b, idxs, vals, r),
    decreases r,
{
    if r == 1 {
        lemma_perm_total_bounds(b, idxs, vals, 0);
        assert(lines_max(b, idxs, vals, 0) == 0);
        assert(perm_total(b, idxs, vals, 0) == lines_max(b, idxs, vals, 1));
    } else {
        lemma_lines_max_attained(b, idxs, vals, r - 1);
        if perm_total(b, idxs, vals, r - 1) > lines_max(b, idxs, vals, r - 1) {
            assert(perm_total(b, idxs, vals, r - 1) == lines_max(b, idxs, vals, r));
        }
    }
}

/// Once some line below `r` attains the overall maximum, the filtered
/// row list is nonempty.
proof fn lemma_rows_filter_nonempty(b: Seq<u8>, idxs: Seq<usize>, vals: Seq<u8>, r: int)
    requires
        exists|t: int|
            0 <= t < r && #[trigger] perm_total(b, idxs, vals, t) == lines_max(b, idxs, vals, 8),
    ensures
        rows_filter(b, idxs, vals, r).len() >= 1,
    decreases r,
{
    let t = choose|t: int|
        0 <= t < r && #[trigger] perm_total(b, idxs, vals, t) == lines_max(b, idxs, vals, 8);
    if t < r - 1 {
        lemma_rows_filter_nonempty(b, idxs, vals, r - 1);
    }
}

/// Some hidden cell's summed child expectation attains each prefix
/// maximum: `cand_max` never invents a value.
proof fn lemma_cand_max_attained(b: Seq<u8>, p: int)
    requires
        wf_board(b),
        6 <= hidden_count(b) <= 7,
        1 <= p <= hidden_count(b),
    ensures
        exists|t: int|
            0 <= t < p && #[trigger] cand_sum(b, spec_hidden_indices(b)[t] as int, spec_hidden_values(b).len() as int)
                == cand_max(b, p),
    decreases p,
{
    lemma_hidden_values_complement(b);
    lemma_hidden_idxs_upto_in_range(b, 9);
    if p == 1 {
        lemma_cand_sum_bounds(b, spec_hidden_indices(b)[0] as int, spec_hidden_values(b).len() as int);
        assert(cand_max(b, 0) == 0);
        assert(cand_sum(b, spec_hidden_indices(b)[0] as int, spec_hidden_values(b).len() as int)
            == cand_max(b, 1));
    } else {
        lemma_cand_max_attained(b, p - 1);
        let s = cand_sum(
            b,
            spec_hidden_indices(b)[p - 1] as int,
            spec_hidden_values(b).len() as int,
        );
        if s > cand_max(b, p - 1) {
            assert(s == cand_max(b, p));
        }
    }
}

/// Once some hidden cell below `p` attains the overall maximum, the
/// filtered coordinate list is nonempty.
proof fn lemma_coords_filter_nonempty(b: Seq<u8>, p: int)
    requires
        p <= spec_hidden_indices(b).len(),
        exists|t: int|
            0 <= t < p && #[trigger] cand_sum(b, spec_hidden_indices(b)[t] as int, spec_hidden_values(b).len() as int)
                == cand_max(b, hidden_count(b)),
    ensures
        coords_filter(b, p).len() >= 1,
    decreases p,
{
    let t = choose|t: int|
        0 <= t < p && #[trigger] cand_sum(b, spec_hidden_indices(b)[t] as int, spec_hidden_values(b).len() as int)
            == cand_max(b, hidden_count(b));
    if t < p - 1 {
        lemma_coords_filter_nonempty(b, p - 1);
    }
}

/// The solver always has something to recommend: for every well-formed
/// board the recommended index list is nonempty.
pub proof fn lemma_solver_always_recommends(b: Seq<u8>)
    requires
        wf_board(b),
    ensures
        spec_solve_cells(b).len() >= 1,
{
    let h = hidden_count(b);
    if h >= 9 {
    } else if h == 8 {
    } else if h <= 5 {
        lemma_lines_max_attained(b, spec_hidden_indices(b), spec_hidden_values(b), 8);
        lemma_rows_filter_nonempty(b, spec_hidden_indices(b), spec_hidden_values(b), 8);
    } else {
        lemma_cand_max_attained(b, h);
        lemma_coords_filter_nonempty(b, h);
    }
}

/// h factorial, for the small h a board can have hidden.
fn fact_small(h: usize) -> (r: u64)
    requires
        h <= 7,
    ensures
        r as int == fact(h as int),
        1 <= r,
{
    proof {
        lemma_fact_bounds(h as int);
    }
    match h {
        0 => 1,
        1 => 1,
        2 => 2,
        3 => 6,
        4 => 24,
        5 => 120,
        6 => 720,
        _ => 5040,
    }
}

impl Cactpot {
    /// The exact expectation under optimal play from this board, and the
    /// action that attains it: the cells worth revealing next while more
    /// than five cells are hidden, otherwise the lines tied for the best
    /// expected payout.
    #[verifier::loop_isolation(false)]
    pub fn solve(&self) -> (r: (Expectation, Recommendation))
        requires
            self.wf(),
        ensures
            r.0.num as int == solve_num(self@),
            r.0.den as int == spec_solve_den(self@),
            r.0.den > 0,
            rec_matches(self@, r.1),
        decreases hidden_count(self@),
    {
        let ghost b = self@;
        let hidden_idx = self.hidden_indices();
        let h = hidden_idx.len();
        proof {
            lemma_hidden_values_complement(b);
            lemma_hidden_idxs_upto_in_range(b, 9);
            lemma_visible_idxs_upto_in_range(b, 9);
            lemma_idxs_partition(b, 9);
            lemma_hidden_vals_upto_membership(b, 9);
        }
        if h >= 9 {
            let cells: Vec<usize> = vec![0, 2, 6, 8];
            proof {
                assert(cells@ =~= spec_solve_cells(b));
            }
            (Expectation { num: 0, den: 1 }, Recommendation::Coordinates(cells))
        } else if h == 8 {
            let vis_i = self.visible_indices();
            let vis_v = self.visible_values();
            assert(vis_i@.len() == 1);
            let i = vis_i[0];
            let v = vis_v[0];
            assert(v as int == b[i as int]);
            let (num, den) = opening_value(i, v);
            let cells = opening_cells(i, v);
            proof {
                lemma_opening_den_positive(i as int, v as int);
            }
            (Expectation { num, den }, Recommendation::Coordinates(cells))
        } else if h <= 5 {
            let mut vals = self.hidden_values();
            let ghost idxsg = hidden_idx@;
            let ghost valsg = vals@;
            let mut board = self.board_copy();
            let mut totals: Vec<u64> = vec![0, 0, 0, 0, 0, 0, 0, 0];
            proof {
                assert(idxsg.skip(0) =~= idxsg);
                lemma_fact_bounds(valsg.len() as int);
                assert forall|r: int| 0 <= r < 8 implies #[trigger] totals@[r] + perm_total(
                    b,
                    idxsg.skip(0),
                    valsg,
                    r,
                ) <= u64::MAX by {
                    lemma_perm_total_bounds(b, idxsg.skip(0), valsg, r);
                }
            }
            accumulate(&mut board, &hidden_idx, 0, &mut vals, &mut totals);
            let mut mx: u64 = 0;
            let mut r: usize = 0;
            while r < 8
                invariant
                    r <= 8,
                    mx as int == lines_max(b, idxsg, valsg, r as int),
                decreases 8 - r,
            {
                if totals[r] > mx {
                    mx = totals[r];
                }
                r = r + 1;
            }
            let mut rows: Vec<usize> = Vec::new();
            let mut r2: usize = 0;
            while r2 < 8
                invariant
                    r2 <= 8,
                    mx as int == lines_max(b, idxsg, valsg, 8),
                    rows@ == rows_filter(b, idxsg, valsg, r2 as int),
                decreases 8 - r2,
            {
                if totals[r2] == mx {
                    rows.push(r2);
                }
                r2 = r2 + 1;
            }
            let den = fact_small(h);
            (Expectation { num: mx, den }, Recommendation::Rows(rows))
        } else {
            let vals = self.hidden_values();
            let ghost idxsg = hidden_idx@;
            let ghost valsg = vals@;
            proof {
                lemma_fact_bounds(h as int - 1);
            }
            let mut sums: Vec<u64> = Vec::new();
            let mut p: usize = 0;
            while p < h
                invariant
                    p <= h,
                    sums@.len() == p,
                    forall|t: int|
                        0 <= t < p ==> #[trigger] sums@[t] as int == cand_sum(
                            b,
                            idxsg[t] as int,
                            valsg.len() as int,
                        ),
                decreases h - p,
            {
                let i = hidden_idx[p];
                assert(b[i as int] == 0);
                let mut s: u64 = 0;
                let mut q: usize = 0;
                while q < h
                    invariant
                        q <= h,
                        s as int == cand_sum(b, i as int, q as int),
                    decreases h - q,
                {
                    let v = vals[q];
                    assert(1 <= v <= 9 && !has_value(b, v as int));
                    let child = self.with_value(i, v);
                    proof {
                        lemma_hidden_count_update(b, i as int, v);
                        lemma_solve_num_bounds(child@);
                        lemma_cand_sum_bounds(b, i as int, q as int);
                        assert(fact(hidden_count(child@)) == fact(h as int - 1));
                        assert(s as int + solve_num(child@) <= 50400000) by (nonlinear_arith)
                            requires
                                0 <= s as int <= q as int * (fact(h as int - 1) * 10000),
                                q < 7,
                                1 <= fact(h as int - 1) <= 720,
                                0 <= solve_num(child@) <= fact(h as int - 1) * 10000,
                        ;
                    }
                    let (e, _child_rec) = child.solve();
                    s = s + e.num;
                    q = q + 1;
                }
                sums.push(s);
                p = p + 1;
            }
            let mut mx: u64 = 0;
            let mut p2: usize = 0;
            while p2 < h
                invariant
                    p2 <= h,
                    mx as int == cand_max(b, p2 as int),
                decreases h - p2,
            {
                if sums[p2] > mx {
                    mx = sums[p2];
                }
                p2 = p2 + 1;
            }
            let mut cells: Vec<usize> = Vec::new();
            let mut p3: usize = 0;
            while p3 < h
                invariant
                    p3 <= h,
                    mx as int == cand_max(b, h as int),
                    cells@ == coords_filter(b, p3 as int),
                decreases h - p3,
            {
                if sums[p3] == mx {
                    cells.push(hidden_idx[p3]);
                }
                p3 = p3 + 1;
            }
            let den = fact_small(h);
            (Expectation { num: mx, den }, Recommendation::Coordinates(cells))
        }
    }

    /// The payout of line `row` as the board stands now.
    pub fn row_value(&self, row: usize) -> (p: u64)
        requires
            self.wf(),
            row < 8,
        ensures
            p as int == spec_payout(line_sum(self@, row as int)),
    {
        let (a, b, c) = row_cells(row);
        payout(self.cell(a) + self.cell(b) + self.cell(c))
    }
}

/// Partial choice sums only grow as more choices are added.
pub proof fn lemma_choice_sum_mono(b: Seq<u8>, idxs: Seq<usize>, vals: Seq<u8>, r: int, j1: int, j2: int)
    requires
        0 <= j1 <= j2 <= vals.len(),
    ensures
        choice_sum(b, idxs, vals, r, j1) <= choice_sum(b, idxs, vals, r, j2),
    decreases j2 - j1,
{
    if j1 < j2 {
        lemma_choice_sum_mono(b, idxs, vals, r, j1, j2 - 1);
        lemma_perm_total_bounds(
            b.update(idxs[0] as int, vals[j2 - 1]),
            idxs.drop_first(),
            vals.remove(j2 - 1),
            r,
        );
    }
}

/// The payout of line `r` as `board` stands now.
fn line_payout(board: &Vec<u8>, r: usize) -> (p: u64)
    requires
        board@.len() == 9,
        forall|i: int| 0 <= i < 9 ==> board@[i] <= 9,
        r < 8,
    ensures
        p as int == spec_payout(line_sum(board@, r as int)),
{
    let (a, b, c) = row_cells(r);
    payout(board[a] + board[b] + board[c])
}

/// Adds to each `totals[r]` the payout total of line `r` over every
/// assignment of the values `vals` onto the cells `idxs[k..]` of
/// `board`; the board and the value list come back unchanged.
fn accumulate(
    board: &mut Vec<u8>,
    idxs: &Vec<usize>,
    k: usize,
    vals: &mut Vec<u8>,
    totals: &mut Vec<u64>,
)
    requires
        old(board)@.len() == 9,
        forall|i: int| 0 <= i < 9 ==> old(board)@[i] <= 9,
        k <= idxs@.len() <= 9,
        idxs@.len() - k == old(vals)@.len(),
        forall|m: int| k <= m < idxs@.len() ==> #[trigger] idxs@[m] < 9,
        forall|j: int| 0 <= j < old(vals)@.len() ==> 1 <= #[trigger] old(vals)@[j] <= 9,
        old(totals)@.len() == 8,
        forall|r: int|
            0 <= r < 8 ==> #[trigger] old(totals)@[r] + perm_total(
                old(board)@,
                idxs@.skip(k as int),
                old(vals)@,
                r,
            ) <= u64::MAX,
    ensures
        final(board)@ == old(board)@,
        final(vals)@ == old(vals)@,
        final(totals)@.len() == 8,
        forall|r: int|
            0 <= r < 8 ==> #[trigger] final(totals)@[r] == old(totals)@[r] + perm_total(
                old(board)@,
                idxs@.skip(k as int),
                old(vals)@,
                r,
            ),
    decreases old(vals)@.len(),
{
    let ghost b0 = board@;
    let ghost vals0 = vals@;
    let ghost totals0 = totals@;
    let ghost sk = idxs@.skip(k as int);
    if vals.len() == 0 {
        let mut r: usize = 0;
        while r < 8
            invariant
                board@ == b0,
                vals@ == vals0,
                vals0.len() == 0,
                b0.len() == 9,
                forall|i: int| 0 <= i < 9 ==> b0[i] <= 9,
                totals@.len() == 8,
                r <= 8,
                forall|q: int|
                    0 <= q < 8 ==> #[trigger] totals0[q] + perm_total(b0, sk, vals0, q)
                        <= u64::MAX,
                forall|q: int|
                    r <= q < 8 ==> #[trigger] totals@[q] == totals0[q],
                forall|q: int|
                    0 <= q < r ==> #[trigger] totals@[q] == totals0[q] + perm_total(
                        b0,
                        sk,
                        vals0,
                        q,
                    ),
            decreases 8 - r,
        {
            let p = line_payout(board, r);
            assert(perm_total(b0, sk, vals0, r as int) == spec_payout(line_sum(b0, r as int)));
            let t = totals[r];
            totals.set(r, t + p);
            r = r + 1;
        }
    } else {
        let mut j: usize = 0;
        while j < vals.len()
            invariant
                board@ == b0,
                vals@ == vals0,
                vals0 == old(vals)@,
                0 < vals0.len(),
                b0.len() == 9,
                forall|i: int| 0 <= i < 9 ==> b0[i] <= 9,
                k < idxs@.len() <= 9,
                idxs@.len() - k == vals0.len(),
                forall|m: int| k <= m < idxs@.len() ==> #[trigger] idxs@[m] < 9,
                forall|q: int| 0 <= q < vals0.len() ==> 1 <= #[trigger] vals0[q] <= 9,
                sk == idxs@.skip(k as int),
                totals@.len() == 8,
                j <= vals0.len(),
                forall|r: int|
                    0 <= r < 8 ==> #[trigger] totals0[r] + perm_total(b0, sk, vals0, r)
                        <= u64::MAX,
                forall|r: int|
                    0 <= r < 8 ==> #[trigger] totals@[r] == totals0[r] + choice_sum(
                        b0,
                        sk,
                        vals0,
                        r,
                        j as int,
                    ),
            decreases vals0.len() - j,
        {
            let i = idxs[k];
            let prev = board[i];
            let v = vals.remove(j);
            board.set(i, v);
            proof {
                assert(sk[0] == idxs@[k as int]);
                assert(sk.drop_first() =~= idxs@.skip(k as int + 1));
                assert(board@ == b0.update(sk[0] as int, vals0[j as int]));
                assert(vals@ == vals0.remove(j as int));
                assert forall|r: int| 0 <= r < 8 implies #[trigger] totals@[r] + perm_total(
                    board@,
                    idxs@.skip(k as int + 1),
                    vals@,
                    r,
                ) <= u64::MAX by {
                    assert(choice_sum(b0, sk, vals0, r, j as int + 1) == choice_sum(
                        b0,
                        sk,
                        vals0,
                        r,
                        j as int,
                    ) + perm_total(board@, idxs@.skip(k as int + 1), vals@, r));
                    lemma_choice_sum_mono(b0, sk, vals0, r, j as int + 1, vals0.len() as int);
                    assert(choice_sum(b0, sk, vals0, r, vals0.len() as int) == perm_total(
                        b0,
                        sk,
                        vals0,
                        r,
                    ));
                }
            }
            accumulate(board, idxs, k + 1, vals, totals);
            board.set(i, prev);
            vals.insert(j, v);
            proof {
                assert(board@ =~= b0);
                assert(vals@ =~= vals0);
                assert forall|r: int| 0 <= r < 8 implies #[trigger] totals@[r] == totals0[r]
                    + choice_sum(b0, sk, vals0, r, j as int + 1) by {
                    assert(choice_sum(b0, sk, vals0, r, j as int + 1) == choice_sum(
                        b0,
                        sk,
                        vals0,
                        r,
                        j as int,
                    ) + perm_total(
                        b0.update(sk[0] as int, vals0[j as int]),
                        sk.drop_first(),
                        vals0.remove(j as int),
                        r,
                    ));
                }
            }
            j = j + 1;
        }
        proof {
            assert forall|r: int| 0 <= r < 8 implies #[trigger] totals@[r] == totals0[r]
                + perm_total(b0, sk, vals0, r) by {
                assert(choice_sum(b0, sk, vals0, r, vals0.len() as int) == perm_total(
                    b0,
                    sk,
                    vals0,
                    r,
                ));
            }
        }
    }
}

/// The three cell indices of line `row`.
pub fn row_cells(row: usize) -> (c: (usize, usize, usize))
    requires
        row < 8,
    ensures
        c.0 as int == line_cells(row as int).0,
        c.1 as int == line_cells(row as int).1,
        c.2 as int == line_cells(row as int).2,
        c.0 < 9 && c.1 < 9 && c.2 < 9,
{
    match row {
        0 => (0, 1, 2),
        1 => (3, 4, 5),
        2 => (6, 7, 8),
        3 => (0, 3, 6),
        4 => (1, 4, 7),
        5 => (2, 5, 8),
        6 => (0, 4, 8),
        _ => (2, 4, 6),
    }
}

} // verus!

//! The 3x3 board: nine cells, each either hidden (0) or revealed with a
//! digit 1-9, no digit revealed twice.

use vstd::prelude::*;

verus! {

/// Reasons a reveal can be refused.
#[derive(Clone, Copy, Debug, PartialEq, Eq)]
pub enum CactpotError {
    /// The cell index is not in 0..9.
    OutOfRange,
    /// The value is not a digit 1..=9.
    InvalidValue,
    /// The value is already revealed elsewhere on the board.
    DuplicateValue,
}

/// A board is well formed when it has nine cells, every cell holds 0..=9,
/// and no nonzero value appears in two cells.
pub open spec fn wf_board(b: Seq<u8>) -> bool {
    &&& b.len() == 9
    &&& forall|i: int| 0 <= i < 9 ==> b[i] <= 9
    &&& forall|i: int, j: int|
        0 <= i < 9 && 0 <= j < 9 && i != j && b[i] != 0 ==> b[i] != b[j]
}

/// Whether the digit `v` is revealed somewhere on the board.
pub open spec fn has_value(b: Seq<u8>, v: int) -> bool {
    exists|i: int| 0 <= i < b.len() && b[i] == v
}

/// The hidden cell indices among the first `n` cells, ascending.
pub open spec fn hidden_idxs_upto(b: Seq<u8>, n: int) -> Seq<usize>
    decreases n,
{
    if n <= 0 {
        Seq::empty()
    } else if b[n - 1] == 0 {
        hidden_idxs_upto(b, n - 1).push((n - 1) as usize)
    } else {
        hidden_idxs_upto(b, n - 1)
    }
}

/// The revealed cell indices among the first `n` cells, ascending.
pub open spec fn visible_idxs_upto(b: Seq<u8>, n: int) -> Seq<usize>
    decreases n,
{
    if n <= 0 {
        Seq::empty()
    } else if b[n - 1] != 0 {
        visible_idxs_upto(b, n - 1).push((n - 1) as usize)
    } else {
        visible_idxs_upto(b, n - 1)
    }
}

/// The digits in 1..=v that are not revealed anywhere, ascending.
pub open spec fn hidden_vals_upto(b: Seq<u8>, v: int) -> Seq<u8>
    decreases v,
{
    if v <= 0 {
        Seq::empty()
    } else if has_value(b, v) {
        hidden_vals_upto(b, v - 1)
    } else {
        hidden_vals_upto(b, v - 1).push(v as u8)
    }
}

/// All hidden cell indices, ascending.
pub open spec fn spec_hidden_indices(b: Seq<u8>) -> Seq<usize> {
    hidden_idxs_upto(b, b.len() as int)
}

/// All revealed cell indices, ascending.
pub open spec fn spec_visible_indices(b: Seq<u8>) -> Seq<usize> {
    visible_idxs_upto(b, b.len() as int)
}

/// The digits 1..=9 not revealed anywhere, ascending.
pub open spec fn spec_hidden_values(b: Seq<u8>) -> Seq<u8> {
    hidden_vals_upto(b, 9)
}

/// The revealed values in cell-index order.
pub open spec fn spec_visible_values(b: Seq<u8>) -> Seq<u8> {
    spec_visible_indices(b).map_values(|i: usize| b[i as int])
}

/// How many cells are still hidden.
pub open spec fn hidden_count(b: Seq<u8>) -> int {
    spec_hidden_indices(b).len() as int
}

/// The game board.
#[derive(Debug, Clone, PartialEq, Eq)]
pub struct Cactpot {
    board: Vec<u8>,
}

impl View for Cactpot {
    type V = Seq<u8>;

    closed spec fn view(&self) -> Seq<u8> {
        self.board@
    }
}

impl Cactpot {
    /// The board invariant: nine cells, digits in range, no duplicates.
    pub open spec fn wf(&self) -> bool {
        wf_board(self@)
    }

    /// An empty board: all nine cells hidden.
    pub fn new() -> (r: Self)
        ensures
            r.wf(),
            r@.len() == 9,
            forall|i: int| 0 <= i < 9 ==> r@[i] == 0,
    {
        let mut board: Vec<u8> = Vec::new();
        let mut k: usize = 0;
        while k < 9
            invariant
                board@.len() == k,
                k <= 9,
                forall|i: int| 0 <= i < k ==> board@[i] == 0,
            decreases 9 - k,
        {
            board.push(0);
            k = k + 1;
        }
        Cactpot { board }
    }

    /// Reveal `value` at cell `coords`.  Refused when the index is out of
    /// range, the value is not a digit 1..=9, or the value is already on
    /// the board; on success the cell is updated and nothing else changes.
    pub fn set(&mut self, coords: usize, value: u8) -> (r: Result<(), CactpotError>)
        requires
            old(self).wf(),
        ensures
            final(self).wf(),
            coords >= 9 ==> r == Err::<(), CactpotError>(CactpotError::OutOfRange)
                && final(self)@ == old(self)@,
            coords < 9 && !(1 <= value <= 9) ==> r == Err::<(), CactpotError>(
                CactpotError::InvalidValue,
            ) && final(self)@ == old(self)@,
            coords < 9 && 1 <= value <= 9 && has_value(old(self)@, value as int) ==> r == Err::<
                (),
                CactpotError,
            >(CactpotError::DuplicateValue) && final(self)@ == old(self)@,
            coords < 9 && 1 <= value <= 9 && !has_value(old(self)@, value as int) ==> r == Ok::<
                (),
                CactpotError,
            >(()) && final(self)@ == old(self)@.update(coords as int, value),
    {
        if coords >= 9 {
            return Err(CactpotError::OutOfRange);
        }
        if value < 1 || value > 9 {
            return Err(CactpotError::InvalidValue);
        }
        if self.contains_value(value) {
            return Err(CactpotError::DuplicateValue);
        }
        self.board.set(coords, value);
        Ok(())
    }

    /// Whether `value` is already revealed on the board.
    pub fn contains_value(&self, value: u8) -> (r: bool)
        requires
            self.wf(),
        ensures
            r == has_value(self@, value as int),
    {
        let mut k: usize = 0;
        while k < 9
            invariant
                self.wf(),
                k <= 9,
                forall|i: int| 0 <= i < k ==> self@[i] != value,
            decreases 9 - k,
        {
            if self.board[k] == value {
                return true;
            }
            k = k + 1;
        }
        false
    }

    /// The value at cell `idx`: 0 when hidden, the digit when revealed.
    pub fn cell(&self, idx: usize) -> (v: u8)
        requires
            self.wf(),
            idx < 9,
        ensures
            v == self@[idx as int],
    {
        self.board[idx]
    }

    /// A copy of the raw cells.
    pub(crate) fn board_copy(&self) -> (r: Vec<u8>)
        requires
            self.wf(),
        ensures
            r@ == self@,
    {
        let mut r: Vec<u8> = Vec::new();
        let mut k: usize = 0;
        while k < 9
            invariant
                self.wf(),
                k <= 9,
                r@.len() == k,
                forall|i: int| 0 <= i < k ==> r@[i] == self@[i],
            decreases 9 - k,
        {
            r.push(self.cell(k));
            k = k + 1;
        }
        proof {
            assert(r@ =~= self@);
        }
        r
    }

    /// The board with the absent digit `value` revealed at the hidden
    /// cell `idx`; the receiver is untouched.
    pub(crate) fn with_value(&self, idx: usize, value: u8) -> (r: Cactpot)
        requires
            self.wf(),
            idx < 9,
            self@[idx as int] == 0,
            1 <= value <= 9,
            !has_value(self@, value as int),
        ensures
            r@ == self@.update(idx as int, value),
            r.wf(),
    {
        let mut board = self.board_copy();
        board.set(idx, value);
        proof {
            lemma_wf_update(self@, idx as int, value);
        }
        Cactpot { board }
    }

    /// The character a cell shows: `-` while hidden, its digit once
    /// revealed.
    pub fn square_to_ch(square: u8) -> (c: char)
        requires
            square <= 9,
        ensures
            square == 0 ==> c == '-',
            1 <= square <= 9 ==> c as int == 0x30 + square as int,
    {
        match square {
            0 => '-',
            1 => '1',
            2 => '2',
            3 => '3',
            4 => '4',
            5 => '5',
            6 => '6',
            7 => '7',
            8 => '8',
            _ => '9',
        }
    }

    /// The hidden cell indices, ascending.
    pub fn hidden_indices(&self) -> (r: Vec<usize>)
        requires
            self.wf(),
        ensures
            r@ == spec_hidden_indices(self@),
    {
        let mut r: Vec<usize> = Vec::new();
        let mut k: usize = 0;
        while k < 9
            invariant
                self.wf(),
                k <= 9,
                r@ == hidden_idxs_upto(self@, k as int),
            decreases 9 - k,
        {
            if self.board[k] == 0 {
                r.push(k);
            }
            k = k + 1;
        }
        r
    }

    /// The revealed cell indices, ascending.
    pub fn visible_indices(&self) -> (r: Vec<usize>)
        requires
            self.wf(),
        ensures
            r@ == spec_visible_indices(self@),
    {
        let mut r: Vec<usize> = Vec::new();
        let mut k: usize = 0;
        while k < 9
            invariant
                self.wf(),
                k <= 9,
                r@ == visible_idxs_upto(self@, k as int),
            decreases 9 - k,
        {
            if self.board[k] != 0 {
                r.push(k);
            }
            k = k + 1;
        }
        r
    }

    /// The revealed values, in cell-index order.
    pub fn visible_values(&self) -> (r: Vec<u8>)
        requires
            self.wf(),
        ensures
            r@ == spec_visible_values(self@),
    {
        let mut r: Vec<u8> = Vec::new();
        let mut k: usize = 0;
        while k < 9
            invariant
                self.wf(),
                k <= 9,
                r@ == visible_idxs_upto(self@, k as int).map_values(|i: usize| self@[i as int]),
            decreases 9 - k,
        {
            proof {
                lemma_visible_idxs_upto_in_range(self@, k as int + 1);
            }
            if self.board[k] != 0 {
                r.push(self.board[k]);
                proof {
                    assert(visible_idxs_upto(self@, k as int + 1) == visible_idxs_upto(
                        self@,
                        k as int,
                    ).push(k));
                    assert(r@ =~= visible_idxs_upto(self@, k as int + 1).map_values(
                        |i: usize| self@[i as int],
                    ));
                }
            }
            k = k + 1;
        }
        r
    }

    /// The digits 1..=9 not yet on the board, ascending.
    pub fn hidden_values(&self) -> (r: Vec<u8>)
        requires
            self.wf(),
        ensures
            r@ == spec_hidden_values(self@),
    {
        let mut r: Vec<u8> = Vec::new();
        let mut v: u8 = 1;
        while v <= 9
            invariant
                self.wf(),
                1 <= v <= 10,
                r@ == hidden_vals_upto(self@, v as int - 1),
            decreases 10 - v,
        {
            if !self.contains_value(v) {
                r.push(v);
            }
            v = v + 1;
        }
        r
    }
}

/// The linear cell index for one-based grid coordinates: column `x` and
/// row `y`, each 1..=3; `None` when either is off the grid.
pub fn grid_index(x: usize, y: usize) -> (r: Option<usize>)
    ensures
        1 <= x <= 3 && 1 <= y <= 3 ==> r == Some((x - 1 + (y - 1) * 3) as usize),
        !(1 <= x <= 3 && 1 <= y <= 3) ==> r == None::<usize>,
{
    if 1 <= x && x <= 3 && 1 <= y && y <= 3 {
        Some(x - 1 + (y - 1) * 3)
    } else {
        None
    }
}

/// Revealing a digit in a hidden cell shortens the hidden-index list by
/// exactly that cell.
pub proof fn lemma_hidden_idxs_upto_update(b: Seq<u8>, i: int, v: u8, n: int)
    requires
        b.len() == 9,
        0 <= i < 9,
        b[i] == 0,
        v != 0,
        0 <= n <= 9,
    ensures
        hidden_idxs_upto(b.update(i, v), n).len() == hidden_idxs_upto(b, n).len() - if i < n {
            1int
        } else {
            0int
        },
    decreases n,
{
    if n > 0 {
        lemma_hidden_idxs_upto_update(b, i, v, n - 1);
    }
}

/// Revealing a digit in a hidden cell lowers the hidden-cell count by one.
pub proof fn lemma_hidden_count_update(b: Seq<u8>, i: int, v: u8)
    requires
        b.len() == 9,
        0 <= i < 9,
        b[i] == 0,
        v != 0,
    ensures
        hidden_count(b.update(i, v)) == hidden_count(b) - 1,
{
    lemma_hidden_idxs_upto_update(b, i, v, 9);
}

/// Revealing an absent digit 1..=9 in a hidden cell keeps the board well
/// formed.
pub proof fn lemma_wf_update(b: Seq<u8>, i: int, v: u8)
    requires
        wf_board(b),
        0 <= i < 9,
        b[i] == 0,
        1 <= v <= 9,
        !has_value(b, v as int),
    ensures
        wf_board(b.update(i, v)),
{
    let c = b.update(i, v);
    assert forall|p: int, q: int|
        0 <= p < 9 && 0 <= q < 9 && p != q && c[p] != 0 implies c[p] != c[q] by {
        if p == i {
            if c[q] == v {
                assert(b[q] == v);
                assert(has_value(b, v as int));
            }
        } else if q == i {
            if c[p] == v {
                assert(b[p] == v);
                assert(has_value(b, v as int));
            }
        }
    }
}

/// Whether the digit `v` is revealed among the first `n` cells.
pub open spec fn has_value_upto(b: Seq<u8>, v: int, n: int) -> bool {
    exists|i: int| 0 <= i < n && b[i] == v
}

/// How many digits in 1..=v are revealed among the first `n` cells.
pub open spec fn present_count_upto(b: Seq<u8>, v: int, n: int) -> int
    decreases v,
{
    if v <= 0 {
        0
    } else {
        present_count_upto(b, v - 1, n) + if has_value_upto(b, v, n) {
            1int
        } else {
            0int
        }
    }
}

/// Each cell is either hidden or revealed, so the two index lists
/// partition the first `n` cells.
pub proof fn lemma_idxs_partition(b: Seq<u8>, n: int)
    ensures
        visible_idxs_upto(b, n).len() + hidden_idxs_upto(b, n).len() == if n >= 0 {
            n
        } else {
            0
        },
    decreases n,
{
    if n > 0 {
        lemma_idxs_partition(b, n - 1);
    }
}

/// The hidden digits together with the revealed digits up to `v` account
/// for every digit 1..=v.
proof fn lemma_hidden_vals_complement_count(b: Seq<u8>, v: int)
    requires
        0 <= v,
    ensures
        hidden_vals_upto(b, v).len() + present_count_upto(b, v, b.len() as int) == v,
    decreases v,
{
    if v > 0 {
        lemma_hidden_vals_complement_count(b, v - 1);
        assert(has_value(b, v) == has_value_upto(b, v, b.len() as int)) by {
            if has_value(b, v) {
                let i = choose|i: int| 0 <= i < b.len() && b[i] == v;
                assert(0 <= i < b.len() as int && b[i] == v);
            }
            if has_value_upto(b, v, b.len() as int) {
                let i = choose|i: int| 0 <= i < b.len() as int && b[i] == v;
                assert(0 <= i < b.len() && b[i] == v);
            }
        }
    }
}

/// Revealing one more cell raises the present-digit count by one exactly
/// when that cell holds a digit in range that was not present before.
proof fn lemma_present_count_step(b: Seq<u8>, v: int, n: int)
    requires
        1 <= n <= b.len(),
        0 <= v,
    ensures
        present_count_upto(b, v, n) == present_count_upto(b, v, n - 1) + if 1 <= b[n - 1] <= v
            && !has_value_upto(b, b[n - 1] as int, n - 1) {
            1int
        } else {
            0int
        },
    decreases v,
{
    if v > 0 {
        lemma_present_count_step(b, v - 1, n);
        assert(has_value_upto(b, v, n) == (has_value_upto(b, v, n - 1) || b[n - 1] == v)) by {
            if has_value_upto(b, v, n) {
                let i = choose|i: int| 0 <= i < n && b[i] == v;
                if i < n - 1 {
                    assert(has_value_upto(b, v, n - 1));
                }
            }
            if has_value_upto(b, v, n - 1) {
                let i = choose|i: int| 0 <= i < n - 1 && b[i] == v;
                assert(0 <= i < n && b[i] == v);
            }
            if b[n - 1] == v {
                assert(0 <= n - 1 < n && b[n - 1] == v);
            }
        }
    }
}

/// No digit is revealed among the first zero cells.
proof fn lemma_present_count_empty(b: Seq<u8>, v: int)
    ensures
        present_count_upto(b, v, 0) == 0,
    decreases v,
{
    if v > 0 {
        lemma_present_count_empty(b, v - 1);
    }
}

/// On a well-formed board the number of distinct revealed digits equals
/// the number of revealed cells.
proof fn lemma_present_count_is_visible_count(b: Seq<u8>, n: int)
    requires
        wf_board(b),
        0 <= n <= 9,
    ensures
        present_count_upto(b, 9, n) == visible_idxs_upto(b, n).len(),
    decreases n,
{
    if n <= 0 {
        lemma_present_count_empty(b, 9);
    } else {
        lemma_present_count_is_visible_count(b, n - 1);
        lemma_present_count_step(b, 9, n);
        let w = b[n - 1];
        if w != 0 {
            assert(1 <= w as int <= 9);
            assert(!has_value_upto(b, w as int, n - 1)) by {
                if has_value_upto(b, w as int, n - 1) {
                    let i = choose|i: int| 0 <= i < n - 1 && b[i] == w as int;
                    assert(b[i] == b[n - 1] && i != n - 1 && b[i] != 0);
                    assert(b[i] != b[n - 1]);
                    assert(false);
                }
            }
            assert(present_count_upto(b, 9, n) == present_count_upto(b, 9, n - 1) + 1);
            assert(visible_idxs_upto(b, n).len() == visible_idxs_upto(b, n - 1).len() + 1);
        } else {
            assert(present_count_upto(b, 9, n) == present_count_upto(b, 9, n - 1));
            assert(visible_idxs_upto(b, n).len() == visible_idxs_upto(b, n - 1).len());
        }
    }
}

/// The hidden digits are exactly the digits 1..=9 absent from the board:
/// there are 9 minus the number of revealed cells of them, they are
/// strictly ascending, and membership matches absence.
pub proof fn lemma_hidden_values_complement(b: Seq<u8>)
    requires
        wf_board(b),
    ensures
        spec_hidden_values(b).len() + spec_visible_indices(b).len() == 9,
        spec_hidden_values(b).len() == hidden_count(b),
        forall|k: int|
            0 <= k < spec_hidden_values(b).len() ==> 1 <= #[trigger] spec_hidden_values(b)[k] <= 9
                && !has_value(b, spec_hidden_values(b)[k] as int),
        forall|k1: int, k2: int|
            0 <= k1 < k2 < spec_hidden_values(b).len() ==> #[trigger] spec_hidden_values(b)[k1]
                < #[trigger] spec_hidden_values(b)[k2],
        forall|d: int| 1 <= d <= 9 && !has_value(b, d) ==> spec_hidden_values(b).contains(d as u8),
{
    lemma_hidden_vals_complement_count(b, 9);
    lemma_present_count_is_visible_count(b, 9);
    lemma_idxs_partition(b, 9);
    lemma_hidden_vals_upto_membership(b, 9);
}

/// Every index listed by `visible_idxs_upto` lies below `n`.
pub proof fn lemma_visible_idxs_upto_in_range(b: Seq<u8>, n: int)
    requires
        n <= 9,
    ensures
        forall|k: int|
            0 <= k < visible_idxs_upto(b, n).len() ==> 0 <= #[trigger] visible_idxs_upto(b, n)[k]
                < n && b[visible_idxs_upto(b, n)[k] as int] != 0,
    decreases n,
{
    if n > 0 {
        lemma_visible_idxs_upto_in_range(b, n - 1);
        let prev = visible_idxs_upto(b, n - 1);
        if b[n - 1] != 0 {
            assert(visible_idxs_upto(b, n) == prev.push((n - 1) as usize));
            assert forall|k: int| 0 <= k < visible_idxs_upto(b, n).len() implies 0
                <= #[trigger] visible_idxs_upto(b, n)[k] < n && b[visible_idxs_upto(b, n)[k] as int]
                != 0 by {
                if k < prev.len() {
                    assert(visible_idxs_upto(b, n)[k] == prev[k]);
                } else {
                    assert(visible_idxs_upto(b, n)[k] == (n - 1) as usize);
                }
            }
        }
    }
}

/// Every index listed by `hidden_idxs_upto` lies below `n` and is hidden,
/// and the list is strictly ascending.
pub proof fn lemma_hidden_idxs_upto_in_range(b: Seq<u8>, n: int)
    requires
        n <= 9,
    ensures
        forall|k: int|
            0 <= k < hidden_idxs_upto(b, n).len() ==> 0 <= #[trigger] hidden_idxs_upto(b, n)[k] < n
                && b[hidden_idxs_upto(b, n)[k] as int] == 0,
        forall|k1: int, k2: int|
            0 <= k1 < k2 < hidden_idxs_upto(b, n).len() ==> #[trigger] hidden_idxs_upto(b, n)[k1]
                < #[trigger] hidden_idxs_upto(b, n)[k2],
    decreases n,
{
    if n > 0 {
        lemma_hidden_idxs_upto_in_range(b, n - 1);
        let prev = hidden_idxs_upto(b, n - 1);
        if b[n - 1] == 0 {
            assert(hidden_idxs_upto(b, n) == prev.push((n - 1) as usize));
            assert forall|k: int| 0 <= k < hidden_idxs_upto(b, n).len() implies 0
                <= #[trigger] hidden_idxs_upto(b, n)[k] < n && b[hidden_idxs_upto(b, n)[k] as int]
                == 0 by {
                if k < prev.len() {
                    assert(hidden_idxs_upto(b, n)[k] == prev[k]);
                } else {
                    assert(hidden_idxs_upto(b, n)[k] == (n - 1) as usize);
                }
            }
            assert forall|k1: int, k2: int|
                0 <= k1 < k2 < hidden_idxs_upto(b, n).len() implies #[trigger] hidden_idxs_upto(
                b,
                n,
            )[k1] < #[trigger] hidden_idxs_upto(b, n)[k2] by {
                if k2 < prev.len() {
                    assert(hidden_idxs_upto(b, n)[k1] == prev[k1]);
                    assert(hidden_idxs_upto(b, n)[k2] == prev[k2]);
                } else {
                    assert(hidden_idxs_upto(b, n)[k1] == prev[k1]);
                    assert(prev[k1] < n - 1);
                    assert(hidden_idxs_upto(b, n)[k2] == (n - 1) as usize);
                }
            }
        }
    }
}

/// Every value listed by `hidden_vals_upto` is a digit 1..=v absent from
/// the board, the list is strictly ascending, and it holds exactly the
/// absent digits: a digit d in 1..=v is in the list iff it is not on the
/// board.
pub proof fn lemma_hidden_vals_upto_membership(b: Seq<u8>, v: int)
    requires
        v <= 9,
    ensures
        forall|k: int|
            0 <= k < hidden_vals_upto(b, v).len() ==> 1 <= #[trigger] hidden_vals_upto(b, v)[k]
                <= v && !has_value(b, hidden_vals_upto(b, v)[k] as int),
        forall|k1: int, k2: int|
            0 <= k1 < k2 < hidden_vals_upto(b, v).len() ==> #[trigger] hidden_vals_upto(b, v)[k1]
                < #[trigger] hidden_vals_upto(b, v)[k2],
        forall|d: int|
            1 <= d <= v && !has_value(b, d) ==> hidden_vals_upto(b, v).contains(d as u8),
    decreases v,
{
    if v > 0 {
        lemma_hidden_vals_upto_membership(b, v - 1);
        let prev = hidden_vals_upto(b, v - 1);
        let cur = hidden_vals_upto(b, v);
        if !has_value(b, v) {
            assert(cur == prev.push(v as u8));
            assert forall|k: int| 0 <= k < cur.len() implies 1 <= #[trigger] cur[k] <= v
                && !has_value(b, cur[k] as int) by {
                if k < prev.len() {
                    assert(cur[k] == prev[k]);
                } else {
                    assert(cur[k] == v as u8);
                }
            }
            assert forall|k1: int, k2: int| 0 <= k1 < k2 < cur.len() implies #[trigger] cur[k1]
                < #[trigger] cur[k2] by {
                if k2 < prev.len() {
                    assert(cur[k1] == prev[k1]);
                    assert(cur[k2] == prev[k2]);
                } else {
                    assert(cur[k1] == prev[k1]);
                    assert(prev[k1] <= v - 1);
                    assert(cur[k2] == v as u8);
                }
            }
            assert forall|d: int| 1 <= d <= v && !has_value(b, d) implies cur.contains(
                d as u8,
            ) by {
                if d < v {
                    assert(prev.contains(d as u8));
                    let k = choose|k: int|
                        0 <= k < prev.len() && #[trigger] prev[k] == d as u8;
                    assert(cur[k] == d as u8);
                } else {
                    assert(cur[cur.len() - 1] == v as u8);
                }
            }
        } else {
            assert(cur == prev);
        }
    }
}

} // verus!

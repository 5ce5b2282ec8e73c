//! The opening book: the precomputed expectation and recommended next
//! reveals for every state with exactly one revealed cell, indexed by the
//! revealed position and its value.
//!
//! Expectations are exact rationals whose denominators are powers of two:
//! each pair reproduces the precomputed expectation for that entry
//! exactly.  By the symmetry of the empty board the entries depend only
//! on whether the revealed cell is a corner, an edge or the center, apart
//! from which cells are recommended.

use vstd::prelude::*;

verus! {

/// The opening-book expectation numerator when the revealed cell is a corner holding `v`.
pub open spec fn book_num_corner(v: int) -> int {
    if v == 1 {
        7378978298152003
    } else if v == 2 {
        3663161081360423
    } else if v == 3 {
        7311773267789025
    } else if v == 4 {
        187604825960487
    } else if v == 5 {
        747425425305483
    } else if v == 6 {
        6000274489235397
    } else if v == 7 {
        199911216205941
    } else if v == 8 {
        3358100925762765
    } else {
        3337504716878175
    }
}

/// The opening-book expectation denominator when the revealed cell is a corner holding `v`.
pub open spec fn book_den_corner(v: int) -> int {
    if v == 1 {
        4398046511104
    } else if v == 2 {
        2199023255552
    } else if v == 3 {
        4398046511104
    } else if v == 4 {
        137438953472
    } else if v == 5 {
        549755813888
    } else if v == 6 {
        4398046511104
    } else if v == 7 {
        137438953472
    } else if v == 8 {
        2199023255552
    } else {
        2199023255552
    }
}

/// The opening-book expectation numerator when the revealed cell is an edge holding `v`.
pub open spec fn book_num_edge(v: int) -> int {
    if v == 1 {
        3103600634320213
    } else if v == 2 {
        6222972715786943
    } else if v == 3 {
        6185496385531163
    } else if v == 4 {
        6347728017267097
    } else if v == 5 {
        198505452957735
    } else if v == 6 {
        3169598165306261
    } else if v == 7 {
        816763377332107
    } else if v == 8 {
        6653927607236159
    } else {
        417392857288665
    }
}

/// The opening-book expectation denominator when the revealed cell is an edge holding `v`.
pub open spec fn book_den_edge(v: int) -> int {
    if v == 1 {
        2199023255552
    } else if v == 2 {
        4398046511104
    } else if v == 3 {
        4398046511104
    } else if v == 4 {
        4398046511104
    } else if v == 5 {
        137438953472
    } else if v == 6 {
        2199023255552
    } else if v == 7 {
        549755813888
    } else if v == 8 {
        4398046511104
    } else {
        274877906944
    }
}

/// The opening-book expectation numerator when the revealed cell is the center holding `v`.
pub open spec fn book_num_center(v: int) -> int {
    if v == 1 {
        4091151218241887
    } else if v == 2 {
        8059602174593629
    } else if v == 3 {
        2016701975645701
    } else if v == 4 {
        1288591304601483
    } else if v == 5 {
        5173003249439149
    } else if v == 6 {
        5429891051844871
    } else if v == 7 {
        6277588338011887
    } else if v == 8 {
        6793929469954809
    } else {
        1659380330754711
    }
}

/// The opening-book expectation denominator when the revealed cell is the center holding `v`.
pub open spec fn book_den_center(v: int) -> int {
    if v == 1 {
        2199023255552
    } else if v == 2 {
        4398046511104
    } else if v == 3 {
        1099511627776
    } else if v == 4 {
        1099511627776
    } else if v == 5 {
        4398046511104
    } else if v == 6 {
        4398046511104
    } else if v == 7 {
        4398046511104
    } else if v == 8 {
        4398046511104
    } else {
        1099511627776
    }
}

/// The opening-book expectation numerator for revealed cell `i` holding
/// digit `v`.
pub open spec fn opening_num(i: int, v: int) -> int {
    if i == 4 {
        book_num_center(v)
    } else if i == 0 || i == 2 || i == 6 || i == 8 {
        book_num_corner(v)
    } else {
        book_num_edge(v)
    }
}

/// The opening-book expectation denominator for revealed cell `i`
/// holding digit `v`.
pub open spec fn opening_den(i: int, v: int) -> int {
    if i == 4 {
        book_den_center(v)
    } else if i == 0 || i == 2 || i == 6 || i == 8 {
        book_den_corner(v)
    } else {
        book_den_edge(v)
    }
}

/// Every opening-book denominator is positive.
pub proof fn lemma_opening_den_positive(i: int, v: int)
    ensures
        opening_den(i, v) > 0,
{
}

/// The cells the opening book recommends revealing next for revealed
/// cell `i` holding digit `v`, ascending.
pub open spec fn opening_coords(i: int, v: int) -> Seq<usize> {
    if i == 4 {
        seq![0usize, 2, 6, 8]
    } else if i == 0 || i == 8 {
        if v <= 3 {
            seq![2usize, 6]
        } else if v <= 7 {
            seq![4usize]
        } else {
            seq![2usize, 4, 6]
        }
    } else if i == 2 || i == 6 {
        if v <= 3 {
            seq![0usize, 8]
        } else if v <= 7 {
            seq![4usize]
        } else {
            seq![0usize, 4, 8]
        }
    } else if i == 1 {
        if v <= 3 || v == 6 || v == 7 {
            seq![4usize]
        } else if v == 4 {
            seq![6usize, 8]
        } else if v == 5 {
            seq![4usize, 6, 8]
        } else {
            seq![0usize, 2]
        }
    } else if i == 3 {
        if v <= 3 || v == 6 || v == 7 {
            seq![4usize]
        } else if v == 4 {
            seq![2usize, 8]
        } else if v == 5 {
            seq![2usize, 4, 8]
        } else {
            seq![0usize, 6]
        }
    } else if i == 5 {
        if v <= 3 || v == 6 || v == 7 {
            seq![4usize]
        } else if v == 4 {
            seq![0usize, 6]
        } else if v == 5 {
            seq![0usize, 4, 6]
        } else {
            seq![2usize, 8]
        }
    } else {
        if v <= 3 || v == 6 || v == 7 {
            seq![4usize]
        } else if v == 4 {
            seq![0usize, 2]
        } else if v == 5 {
            seq![0usize, 2, 4]
        } else {
            seq![6usize, 8]
        }
    }
}

/// The opening-book expectation for revealed cell `i` holding digit `v`,
/// as an exact numerator/denominator pair.
pub fn opening_value(i: usize, v: u8) -> (r: (u64, u64))
    requires
        i < 9,
        1 <= v <= 9,
    ensures
        r.0 as int == opening_num(i as int, v as int),
        r.1 as int == opening_den(i as int, v as int),
{
    if i == 4 {
        match v {
        1 => (4091151218241887, 2199023255552),
        2 => (8059602174593629, 4398046511104),
        3 => (2016701975645701, 1099511627776),
        4 => (1288591304601483, 1099511627776),
        5 => (5173003249439149, 4398046511104),
        6 => (5429891051844871, 4398046511104),
        7 => (6277588338011887, 4398046511104),
        8 => (6793929469954809, 4398046511104),
        9 => (1659380330754711, 1099511627776),
        _ => (0, 1),
        }
    } else if i == 0 || i == 2 || i == 6 || i == 8 {
        match v {
        1 => (7378978298152003, 4398046511104),
        2 => (3663161081360423, 2199023255552),
        3 => (7311773267789025, 4398046511104),
        4 => (187604825960487, 137438953472),
        5 => (747425425305483, 549755813888),
        6 => (6000274489235397, 4398046511104),
        7 => (199911216205941, 137438953472),
        8 => (3358100925762765, 2199023255552),
        9 => (3337504716878175, 2199023255552),
        _ => (0, 1),
        }
    } else {
        match v {
        1 => (3103600634320213, 2199023255552),
        2 => (6222972715786943, 4398046511104),
        3 => (6185496385531163, 4398046511104),
        4 => (6347728017267097, 4398046511104),
        5 => (198505452957735, 137438953472),
        6 => (3169598165306261, 2199023255552),
        7 => (816763377332107, 549755813888),
        8 => (6653927607236159, 4398046511104),
        9 => (417392857288665, 274877906944),
        _ => (0, 1),
        }
    }
}

/// The cells the opening book recommends for revealed cell `i` holding
/// digit `v`.
pub fn opening_cells(i: usize, v: u8) -> (r: Vec<usize>)
    requires
        i < 9,
        1 <= v <= 9,
    ensures
        r@ == opening_coords(i as int, v as int),
{
    let r: Vec<usize> = if i == 4 {
        vec![0, 2, 6, 8]
    } else if i == 0 || i == 8 {
        if v <= 3 {
            vec![2, 6]
        } else if v <= 7 {
            vec![4]
        } else {
            vec![2, 4, 6]
        }
    } else if i == 2 || i == 6 {
        if v <= 3 {
            vec![0, 8]
        } else if v <= 7 {
            vec![4]
        } else {
            vec![0, 4, 8]
        }
    } else if i == 1 {
        if v <= 3 || v == 6 || v == 7 {
            vec![4]
        } else if v == 4 {
            vec![6, 8]
        } else if v == 5 {
            vec![4, 6, 8]
        } else {
            vec![0, 2]
        }
    } else if i == 3 {
        if v <= 3 || v == 6 || v == 7 {
            vec![4]
        } else if v == 4 {
            vec![2, 8]
        } else if v == 5 {
            vec![2, 4, 8]
        } else {
            vec![0, 6]
        }
    } else if i == 5 {
        if v <= 3 || v == 6 || v == 7 {
            vec![4]
        } else if v == 4 {
            vec![0, 6]
        } else if v == 5 {
            vec![0, 4, 6]
        } else {
            vec![2, 8]
        }
    } else {
        if v <= 3 || v == 6 || v == 7 {
            vec![4]
        } else if v == 4 {
            vec![0, 2]
        } else if v == 5 {
            vec![0, 2, 4]
        } else {
            vec![6, 8]
        }
    };
    proof {
        assert(r@ =~= opening_coords(i as int, v as int));
    }
    r
}

} // verus!

//! Boards packed into one number, two bits for each cell, and the census of
//! the boards on which a game can end: what the whole of it holds is found
//! by going through all the numbers at once.

use crate::board::{EMPTY, O, X};
use vstd::prelude::*;

verus! {

/// The two bits that stand for a mark: 0 for `EMPTY`, 1 for `X`, 2 for `O`.
pub open spec fn digit(c: char) -> u32 {
    if c == X {
        1
    } else if c == O {
        2
    } else {
        0
    }
}

/// The mark that two bits stand for.
pub open spec fn mark(d: u32) -> char {
    if d == 1 {
        X
    } else if d == 2 {
        O
    } else {
        EMPTY
    }
}

/// Nine cells in row-major order as one number: the first cell in the two
/// highest of eighteen bits, the last cell in the two lowest.
pub open spec fn pack(
    d0: u32,
    d1: u32,
    d2: u32,
    d3: u32,
    d4: u32,
    d5: u32,
    d6: u32,
    d7: u32,
    d8: u32,
) -> u32 {
    d0 << 16 | d1 << 14 | d2 << 12 | d3 << 10 | d4 << 8 | d5 << 6 | d6 << 4 | d7 << 2 | d8
}

/// By how many bits cell `k` stands above the lowest two.
pub open spec fn shift(k: u32) -> u32 {
    if k == 0 {
        16
    } else if k == 1 {
        14
    } else if k == 2 {
        12
    } else if k == 3 {
        10
    } else if k == 4 {
        8
    } else if k == 5 {
        6
    } else if k == 6 {
        4
    } else if k == 7 {
        2
    } else {
        0
    }
}

/// Cell `k` of a packed board.
pub open spec fn cell_at(v: u32, k: u32) -> u32 {
    (v >> shift(k)) & 3
}

/// A number that packs a well-formed board: eighteen bits, and no cell with
/// both of its bits set.
pub open spec fn valid(v: u32) -> bool {
    &&& v < 262144
    &&& cell_at(v, 0) != 3 && cell_at(v, 1) != 3 && cell_at(v, 2) != 3
    &&& cell_at(v, 3) != 3 && cell_at(v, 4) != 3 && cell_at(v, 5) != 3
    &&& cell_at(v, 6) != 3 && cell_at(v, 7) != 3 && cell_at(v, 8) != 3
}

/// The cells `a`, `b` and `c` hold the same mark, which is not `EMPTY`.
pub open spec fn line_at(v: u32, a: u32, b: u32, c: u32) -> bool {
    cell_at(v, a) != 0 && cell_at(v, a) == cell_at(v, b) && cell_at(v, b) == cell_at(v, c)
}

/// One of the eight lines is complete.
pub open spec fn line_in(v: u32) -> bool {
    line_at(v, 0, 1, 2) || line_at(v, 3, 4, 5) || line_at(v, 6, 7, 8) || line_at(v, 0, 3, 6)
        || line_at(v, 1, 4, 7) || line_at(v, 2, 5, 8) || line_at(v, 0, 4, 8) || line_at(v, 2, 4, 6)
}

/// No cell is empty.
pub open spec fn full_in(v: u32) -> bool {
    cell_at(v, 0) != 0 && cell_at(v, 1) != 0 && cell_at(v, 2) != 0 && cell_at(v, 3) != 0
        && cell_at(v, 4) != 0 && cell_at(v, 5) != 0 && cell_at(v, 6) != 0 && cell_at(v, 7) != 0
        && cell_at(v, 8) != 0
}

/// 1 where cell `k` holds `d`, else 0.
pub open spec fn one_if(v: u32, k: u32, d: u32) -> u32 {
    if cell_at(v, k) == d {
        1
    } else {
        0
    }
}

/// How many cells hold `d`.
pub open spec fn count_in(v: u32, d: u32) -> u32 {
    (one_if(v, 0, d) + one_if(v, 1, d) + one_if(v, 2, d) + one_if(v, 3, d) + one_if(v, 4, d)
        + one_if(v, 5, d) + one_if(v, 6, d) + one_if(v, 7, d) + one_if(v, 8, d)) as u32
}

/// The packed board without the mark on cell `k`.
pub open spec fn without(v: u32, k: u32) -> u32 {
    v & !(3u32 << shift(k))
}

/// The mark on cell `k` can have been the last one played: without it no
/// line is complete, and it is an `X` that is one ahead of the `O`, or an `O`
/// that has drawn level with the `X`.
pub open spec fn last_at(v: u32, k: u32) -> bool {
    &&& !line_in(without(v, k))
    &&& {
        ||| cell_at(v, k) == 1 && count_in(v, 1) == count_in(v, 2) + 1
        ||| cell_at(v, k) == 2 && count_in(v, 1) == count_in(v, 2)
    }
}

/// Some mark can have been the last one played.
pub open spec fn played_in(v: u32) -> bool {
    last_at(v, 0) || last_at(v, 1) || last_at(v, 2) || last_at(v, 3) || last_at(v, 4) || last_at(
        v,
        5,
    ) || last_at(v, 6) || last_at(v, 7) || last_at(v, 8)
}

/// A game from the empty board can end on this packed board.
pub open spec fn final_in(v: u32) -> bool {
    (line_in(v) || full_in(v)) && played_in(v)
}

/// The packed board turned by a quarter.
pub open spec fn turned(v: u32) -> u32 {
    pack(
        cell_at(v, 6),
        cell_at(v, 3),
        cell_at(v, 0),
        cell_at(v, 7),
        cell_at(v, 4),
        cell_at(v, 1),
        cell_at(v, 8),
        cell_at(v, 5),
        cell_at(v, 2),
    )
}

/// The packed board mirrored in its main diagonal.
pub open spec fn mirrored(v: u32) -> u32 {
    pack(
        cell_at(v, 0),
        cell_at(v, 3),
        cell_at(v, 6),
        cell_at(v, 1),
        cell_at(v, 4),
        cell_at(v, 7),
        cell_at(v, 2),
        cell_at(v, 5),
        cell_at(v, 8),
    )
}

/// The `f`-th of the eight symmetric forms of a packed board, numbered as
/// the forms of a board are.
pub open spec fn form(v: u32, f: int) -> u32 {
    if f == 0 {
        v
    } else if f == 1 {
        mirrored(v)
    } else if f == 2 {
        turned(v)
    } else if f == 3 {
        mirrored(turned(v))
    } else if f == 4 {
        turned(turned(v))
    } else if f == 5 {
        mirrored(turned(turned(v)))
    } else if f == 6 {
        turned(turned(turned(v)))
    } else {
        mirrored(turned(turned(turned(v))))
    }
}

/// None of the eight symmetric forms packs to a smaller number.
pub open spec fn least_form(v: u32) -> bool {
    v <= form(v, 1) && v <= form(v, 2) && v <= form(v, 3) && v <= form(v, 4) && v <= form(v, 5)
        && v <= form(v, 6) && v <= form(v, 7)
}

/// The census: for each class of symmetric boards on which a game can end,
/// the least of the numbers that pack its boards, in rising order. Read two
/// bits at a time from the left, an entry shows its board cell by cell: `00`
/// an empty cell, `01` an `X`, `10` an `O`.
#[verifier::opaque]
pub open spec fn census_at(j: u32) -> u32 {
    match j {
        0 => 0b00_00_00_00_10_10_01_01_01,
        1 => 0b00_00_00_01_01_01_00_10_10,
        2 => 0b00_00_00_01_01_01_10_00_10,
        3 => 0b00_00_00_10_00_10_01_01_01,
        4 => 0b00_00_01_00_00_01_10_10_01,
        5 => 0b00_00_01_00_01_00_01_10_10,
        6 => 0b00_00_01_00_01_01_10_10_10,
        7 => 0b00_00_01_00_01_10_01_10_00,
        8 => 0b00_00_01_00_10_01_10_00_01,
        9 => 0b00_00_01_01_00_01_10_10_10,
        10 => 0b00_00_01_01_01_00_10_10_10,
        11 => 0b00_00_01_01_01_10_01_10_10,
        12 => 0b00_00_01_01_10_01_10_10_01,
        13 => 0b00_00_01_10_00_01_00_10_01,
        14 => 0b00_00_01_10_00_01_10_00_01,
        15 => 0b00_00_01_10_01_00_01_00_10,
        16 => 0b00_00_01_10_01_00_01_10_00,
        17 => 0b00_00_01_10_01_01_01_10_10,
        18 => 0b00_00_01_10_01_01_10_10_01,
        19 => 0b00_00_01_10_01_10_01_00_00,
        20 => 0b00_00_01_10_01_10_01_01_10,
        21 => 0b00_00_01_10_01_10_01_10_01,
        22 => 0b00_00_01_10_10_01_00_00_01,
        23 => 0b00_00_01_10_10_01_01_10_01,
        24 => 0b00_00_01_10_10_01_10_01_01,
        25 => 0b00_00_01_10_10_10_00_01_01,
        26 => 0b00_00_01_10_10_10_01_00_01,
        27 => 0b00_00_01_10_10_10_01_01_00,
        28 => 0b00_00_10_00_10_01_10_01_01,
        29 => 0b00_00_10_01_00_10_01_01_10,
        30 => 0b00_00_10_01_01_01_00_00_10,
        31 => 0b00_00_10_01_01_01_00_10_00,
        32 => 0b00_00_10_01_01_01_01_10_10,
        33 => 0b00_00_10_01_01_01_10_00_00,
        34 => 0b00_00_10_01_01_01_10_01_10,
        35 => 0b00_00_10_01_01_01_10_10_01,
        36 => 0b00_00_10_01_01_10_00_01_10,
        37 => 0b00_00_10_01_01_10_01_00_10,
        38 => 0b00_00_10_01_10_00_10_01_01,
        39 => 0b00_00_10_01_10_01_10_00_01,
        40 => 0b00_00_10_01_10_01_10_01_00,
        41 => 0b00_00_10_01_10_10_01_01_01,
        42 => 0b00_00_10_10_00_00_01_01_01,
        43 => 0b00_00_10_10_01_10_01_01_01,
        44 => 0b00_00_10_10_10_01_01_01_01,
        45 => 0b00_01_00_01_00_01_10_10_10,
        46 => 0b00_01_00_01_01_10_10_01_10,
        47 => 0b00_01_00_10_01_10_00_01_00,
        48 => 0b00_01_00_10_01_10_01_01_10,
        49 => 0b00_01_00_10_10_10_00_01_01,
        50 => 0b00_01_00_10_10_10_01_00_01,
        51 => 0b00_01_01_01_00_00_10_10_10,
        52 => 0b00_01_01_01_01_10_10_10_10,
        53 => 0b00_01_01_01_10_01_10_10_10,
        54 => 0b00_01_01_10_00_01_10_10_01,
        55 => 0b00_01_01_10_01_00_01_10_10,
        56 => 0b00_01_01_10_01_00_10_01_10,
        57 => 0b00_01_01_10_01_01_10_10_10,
        58 => 0b00_01_01_10_01_10_00_01_10,
        59 => 0b00_01_01_10_01_10_01_00_10,
        60 => 0b00_01_01_10_01_10_01_10_00,
        61 => 0b00_01_01_10_01_10_10_01_00,
        62 => 0b00_01_01_10_10_01_00_10_01,
        63 => 0b00_01_01_10_10_01_10_00_01,
        64 => 0b00_01_01_10_10_10_01_01_10,
        65 => 0b00_01_01_10_10_10_01_10_01,
        66 => 0b00_01_01_10_10_10_10_01_01,
        67 => 0b00_01_10_01_01_00_10_01_10,
        68 => 0b00_01_10_01_01_01_10_10_00,
        69 => 0b00_01_10_01_10_00_10_00_01,
        70 => 0b00_01_10_01_10_01_10_01_10,
        71 => 0b00_01_10_01_10_01_10_10_01,
        72 => 0b00_01_10_10_00_10_01_01_01,
        73 => 0b00_01_10_10_01_00_01_01_10,
        74 => 0b00_01_10_10_01_00_10_01_01,
        75 => 0b00_01_10_10_01_01_00_01_10,
        76 => 0b00_01_10_10_10_00_01_01_01,
        77 => 0b00_01_10_10_10_01_10_01_01,
        78 => 0b00_10_00_10_01_10_01_01_01,
        79 => 0b00_10_01_10_00_01_01_10_01,
        80 => 0b00_10_01_10_00_01_10_01_01,
        81 => 0b00_10_01_10_01_00_01_01_10,
        82 => 0b00_10_01_10_01_00_01_10_01,
        83 => 0b00_10_01_10_01_01_10_00_01,
        84 => 0b00_10_01_10_10_00_01_01_01,
        85 => 0b01_00_01_00_00_01_10_10_10,
        86 => 0b01_00_01_00_01_00_10_10_10,
        87 => 0b01_00_01_00_01_10_01_10_10,
        88 => 0b01_00_01_00_01_10_10_10_01,
        89 => 0b01_00_01_00_10_01_10_10_01,
        90 => 0b01_00_01_01_00_10_01_10_10,
        91 => 0b01_00_01_01_01_10_10_10_10,
        92 => 0b01_00_01_01_10_01_10_10_10,
        93 => 0b01_00_01_01_10_10_01_00_10,
        94 => 0b01_00_01_10_01_10_01_00_10,
        95 => 0b01_00_01_10_10_10_01_01_10,
        96 => 0b01_00_01_10_10_10_01_10_01,
        97 => 0b01_00_10_00_01_00_10_00_01,
        98 => 0b01_00_10_00_01_01_10_10_01,
        99 => 0b01_00_10_00_10_00_10_01_01,
        100 => 0b01_00_10_01_00_00_01_00_10,
        101 => 0b01_00_10_01_00_01_01_10_10,
        102 => 0b01_00_10_01_00_10_01_10_01,
        103 => 0b01_00_10_01_01_00_01_10_10,
        104 => 0b01_00_10_01_01_00_10_10_01,
        105 => 0b01_00_10_01_01_01_10_00_10,
        106 => 0b01_00_10_01_01_10_10_00_01,
        107 => 0b01_00_10_01_01_10_10_01_10,
        108 => 0b01_00_10_01_10_00_01_01_10,
        109 => 0b01_00_10_01_10_00_01_10_01,
        110 => 0b01_00_10_01_10_01_01_00_10,
        111 => 0b01_00_10_01_10_01_10_01_10,
        112 => 0b01_00_10_01_10_01_10_10_01,
        113 => 0b01_00_10_01_10_10_10_01_01,
        114 => 0b01_00_10_10_00_10_01_01_01,
        115 => 0b01_00_10_10_01_00_01_10_01,
        116 => 0b01_00_10_10_01_10_01_01_10,
        117 => 0b01_00_10_10_10_01_10_01_01,
        118 => 0b01_01_01_01_00_10_10_00_10,
        119 => 0b01_01_01_01_10_10_01_10_10,
        120 => 0b01_01_01_01_10_10_10_01_10,
        121 => 0b01_01_01_01_10_10_10_10_01,
        122 => 0b01_01_01_10_01_10_01_10_10,
        123 => 0b01_01_01_10_01_10_10_01_10,
        124 => 0b01_01_10_01_00_01_10_10_10,
        125 => 0b01_01_10_01_01_00_10_10_10,
        126 => 0b01_01_10_01_01_10_10_10_01,
        127 => 0b01_01_10_01_10_00_10_01_10,
        128 => 0b01_01_10_10_00_10_01_01_10,
        129 => 0b01_01_10_10_01_01_01_10_10,
        130 => 0b01_01_10_10_01_01_10_01_10,
        131 => 0b01_01_10_10_01_01_10_10_01,
        132 => 0b01_01_10_10_01_10_01_10_01,
        133 => 0b01_01_10_10_01_10_10_01_01,
        134 => 0b01_01_10_10_10_01_01_01_10,
        135 => 0b01_01_10_10_10_01_01_10_01,
        136 => 0b01_10_01_10_01_10_01_10_01,
        _ => 0b10_01_10_01_01_01_10_01_10,
    }
}

/// The place of `v` in the census, and the length of the census for a number
/// that is no entry.
#[verifier::opaque]
pub open spec fn place(v: u32) -> u32 {
    match v {
        0b00_00_00_00_10_10_01_01_01 => 0,
        0b00_00_00_01_01_01_00_10_10 => 1,
        0b00_00_00_01_01_01_10_00_10 => 2,
        0b00_00_00_10_00_10_01_01_01 => 3,
        0b00_00_01_00_00_01_10_10_01 => 4,
        0b00_00_01_00_01_00_01_10_10 => 5,
        0b00_00_01_00_01_01_10_10_10 => 6,
        0b00_00_01_00_01_10_01_10_00 => 7,
        0b00_00_01_00_10_01_10_00_01 => 8,
        0b00_00_01_01_00_01_10_10_10 => 9,
        0b00_00_01_01_01_00_10_10_10 => 10,
        0b00_00_01_01_01_10_01_10_10 => 11,
        0b00_00_01_01_10_01_10_10_01 => 12,
        0b00_00_01_10_00_01_00_10_01 => 13,
        0b00_00_01_10_00_01_10_00_01 => 14,
        0b00_00_01_10_01_00_01_00_10 => 15,
        0b00_00_01_10_01_00_01_10_00 => 16,
        0b00_00_01_10_01_01_01_10_10 => 17,
        0b00_00_01_10_01_01_10_10_01 => 18,
        0b00_00_01_10_01_10_01_00_00 => 19,
        0b00_00_01_10_01_10_01_01_10 => 20,
        0b00_00_01_10_01_10_01_10_01 => 21,
        0b00_00_01_10_10_01_00_00_01 => 22,
        0b00_00_01_10_10_01_01_10_01 => 23,
        0b00_00_01_10_10_01_10_01_01 => 24,
        0b00_00_01_10_10_10_00_01_01 => 25,
        0b00_00_01_10_10_10_01_00_01 => 26,
        0b00_00_01_10_10_10_01_01_00 => 27,
        0b00_00_10_00_10_01_10_01_01 => 28,
        0b00_00_10_01_00_10_01_01_10 => 29,
        0b00_00_10_01_01_01_00_00_10 => 30,
        0b00_00_10_01_01_01_00_10_00 => 31,
        0b00_00_10_01_01_01_01_10_10 => 32,
        0b00_00_10_01_01_01_10_00_00 => 33,
        0b00_00_10_01_01_01_10_01_10 => 34,
        0b00_00_10_01_01_01_10_10_01 => 35,
        0b00_00_10_01_01_10_00_01_10 => 36,
        0b00_00_10_01_01_10_01_00_10 => 37,
        0b00_00_10_01_10_00_10_01_01 => 38,
        0b00_00_10_01_10_01_10_00_01 => 39,
        0b00_00_10_01_10_01_10_01_00 => 40,
        0b00_00_10_01_10_10_01_01_01 => 41,
        0b00_00_10_10_00_00_01_01_01 => 42,
        0b00_00_10_10_01_10_01_01_01 => 43,
        0b00_00_10_10_10_01_01_01_01 => 44,
        0b00_01_00_01_00_01_10_10_10 => 45,
        0b00_01_00_01_01_10_10_01_10 => 46,
        0b00_01_00_10_01_10_00_01_00 => 47,
        0b00_01_00_10_01_10_01_01_10 => 48,
        0b00_01_00_10_10_10_00_01_01 => 49,
        0b00_01_00_10_10_10_01_00_01 => 50,
        0b00_01_01_01_00_00_10_10_10 => 51,
        0b00_01_01_01_01_10_10_10_10 => 52,
        0b00_01_01_01_10_01_10_10_10 => 53,
        0b00_01_01_10_00_01_10_10_01 => 54,
        0b00_01_01_10_01_00_01_10_10 => 55,
        0b00_01_01_10_01_00_10_01_10 => 56,
        0b00_01_01_10_01_01_10_10_10 => 57,
        0b00_01_01_10_01_10_00_01_10 => 58,
        0b00_01_01_10_01_10_01_00_10 => 59,
        0b00_01_01_10_01_10_01_10_00 => 60,
        0b00_01_01_10_01_10_10_01_00 => 61,
        0b00_01_01_10_10_01_00_10_01 => 62,
        0b00_01_01_10_10_01_10_00_01 => 63,
        0b00_01_01_10_10_10_01_01_10 => 64,
        0b00_01_01_10_10_10_01_10_01 => 65,
        0b00_01_01_10_10_10_10_01_01 => 66,
        0b00_01_10_01_01_00_10_01_10 => 67,
        0b00_01_10_01_01_01_10_10_00 => 68,
        0b00_01_10_01_10_00_10_00_01 => 69,
        0b00_01_10_01_10_01_10_01_10 => 70,
        0b00_01_10_01_10_01_10_10_01 => 71,
        0b00_01_10_10_00_10_01_01_01 => 72,
        0b00_01_10_10_01_00_01_01_10 => 73,
        0b00_01_10_10_01_00_10_01_01 => 74,
        0b00_01_10_10_01_01_00_01_10 => 75,
        0b00_01_10_10_10_00_01_01_01 => 76,
        0b00_01_10_10_10_01_10_01_01 => 77,
        0b00_10_00_10_01_10_01_01_01 => 78,
        0b00_10_01_10_00_01_01_10_01 => 79,
        0b00_10_01_10_00_01_10_01_01 => 80,
        0b00_10_01_10_01_00_01_01_10 => 81,
        0b00_10_01_10_01_00_01_10_01 => 82,
        0b00_10_01_10_01_01_10_00_01 => 83,
        0b00_10_01_10_10_00_01_01_01 => 84,
        0b01_00_01_00_00_01_10_10_10 => 85,
        0b01_00_01_00_01_00_10_10_10 => 86,
        0b01_00_01_00_01_10_01_10_10 => 87,
        0b01_00_01_00_01_10_10_10_01 => 88,
        0b01_00_01_00_10_01_10_10_01 => 89,
        0b01_00_01_01_00_10_01_10_10 => 90,
        0b01_00_01_01_01_10_10_10_10 => 91,
        0b01_00_01_01_10_01_10_10_10 => 92,
        0b01_00_01_01_10_10_01_00_10 => 93,
        0b01_00_01_10_01_10_01_00_10 => 94,
        0b01_00_01_10_10_10_01_01_10 => 95,
        0b01_00_01_10_10_10_01_10_01 => 96,
        0b01_00_10_00_01_00_10_00_01 => 97,
        0b01_00_10_00_01_01_10_10_01 => 98,
        0b01_00_10_00_10_00_10_01_01 => 99,
        0b01_00_10_01_00_00_01_00_10 => 100,
        0b01_00_10_01_00_01_01_10_10 => 101,
        0b01_00_10_01_00_10_01_10_01 => 102,
        0b01_00_10_01_01_00_01_10_10 => 103,
        0b01_00_10_01_01_00_10_10_01 => 104,
        0b01_00_10_01_01_01_10_00_10 => 105,
        0b01_00_10_01_01_10_10_00_01 => 106,
        0b01_00_10_01_01_10_10_01_10 => 107,
        0b01_00_10_01_10_00_01_01_10 => 108,
        0b01_00_10_01_10_00_01_10_01 => 109,
        0b01_00_10_01_10_01_01_00_10 => 110,
        0b01_00_10_01_10_01_10_01_10 => 111,
        0b01_00_10_01_10_01_10_10_01 => 112,
        0b01_00_10_01_10_10_10_01_01 => 113,
        0b01_00_10_10_00_10_01_01_01 => 114,
        0b01_00_10_10_01_00_01_10_01 => 115,
        0b01_00_10_10_01_10_01_01_10 => 116,
        0b01_00_10_10_10_01_10_01_01 => 117,
        0b01_01_01_01_00_10_10_00_10 => 118,
        0b01_01_01_01_10_10_01_10_10 => 119,
        0b01_01_01_01_10_10_10_01_10 => 120,
        0b01_01_01_01_10_10_10_10_01 => 121,
        0b01_01_01_10_01_10_01_10_10 => 122,
        0b01_01_01_10_01_10_10_01_10 => 123,
        0b01_01_10_01_00_01_10_10_10 => 124,
        0b01_01_10_01_01_00_10_10_10 => 125,
        0b01_01_10_01_01_10_10_10_01 => 126,
        0b01_01_10_01_10_00_10_01_10 => 127,
        0b01_01_10_10_00_10_01_01_10 => 128,
        0b01_01_10_10_01_01_01_10_10 => 129,
        0b01_01_10_10_01_01_10_01_10 => 130,
        0b01_01_10_10_01_01_10_10_01 => 131,
        0b01_01_10_10_01_10_01_10_01 => 132,
        0b01_01_10_10_01_10_10_01_01 => 133,
        0b01_01_10_10_10_01_01_01_10 => 134,
        0b01_01_10_10_10_01_01_10_01 => 135,
        0b01_10_01_10_01_10_01_10_01 => 136,
        0b10_01_10_01_01_01_10_01_10 => 137,
        _ => 138,
    }
}

/// `v` is an entry of the census.
pub open spec fn in_census(v: u32) -> bool {
    place(v) < 138
}

/// Every packed board on which a game can end has a symmetric form in the
/// census. The forms are handed in one by one.
pub proof fn lemma_survey(v: u32, f1: u32, f2: u32, f3: u32, f4: u32, f5: u32, f6: u32, f7: u32)
    by (bit_vector)
    requires
        valid(v),
        final_in(v),
        f1 == form(v, 1),
        f2 == form(v, 2),
        f3 == form(v, 3),
        f4 == form(v, 4),
        f5 == form(v, 5),
        f6 == form(v, 6),
        f7 == form(v, 7),
    ensures
        in_census(v) || in_census(f1) || in_census(f2) || in_census(f3) || in_census(f4)
            || in_census(f5) || in_census(f6) || in_census(f7),
{
}

/// Every entry of the census packs a board on which a game can end, is the
/// least among the symmetric forms of that board, and has its own place.
pub proof fn lemma_census_entries(j: u32, v: u32)
    by (bit_vector)
    requires
        j < 138,
        v == census_at(j),
    ensures
        valid(v),
        final_in(v),
        least_form(v),
        place(v) == j,
{
}

/// The entry at the place of an entry is that entry.
pub proof fn lemma_census_place(v: u32, j: u32)
    by (bit_vector)
    requires
        j == place(v),
        j < 138,
    ensures
        census_at(j) == v,
{
}

/// Packing nine cells and reading them again gives the nine cells.
pub proof fn lemma_pack_then_read(
    d0: u32,
    d1: u32,
    d2: u32,
    d3: u32,
    d4: u32,
    d5: u32,
    d6: u32,
    d7: u32,
    d8: u32,
)
    by (bit_vector)
    requires
        d0 <= 2 && d1 <= 2 && d2 <= 2 && d3 <= 2 && d4 <= 2 && d5 <= 2 && d6 <= 2 && d7 <= 2 && d8
            <= 2,
    ensures
        valid(pack(d0, d1, d2, d3, d4, d5, d6, d7, d8)),
        cell_at(pack(d0, d1, d2, d3, d4, d5, d6, d7, d8), 0) == d0,
        cell_at(pack(d0, d1, d2, d3, d4, d5, d6, d7, d8), 1) == d1,
        cell_at(pack(d0, d1, d2, d3, d4, d5, d6, d7, d8), 2) == d2,
        cell_at(pack(d0, d1, d2, d3, d4, d5, d6, d7, d8), 3) == d3,
        cell_at(pack(d0, d1, d2, d3, d4, d5, d6, d7, d8), 4) == d4,
        cell_at(pack(d0, d1, d2, d3, d4, d5, d6, d7, d8), 5) == d5,
        cell_at(pack(d0, d1, d2, d3, d4, d5, d6, d7, d8), 6) == d6,
        cell_at(pack(d0, d1, d2, d3, d4, d5, d6, d7, d8), 7) == d7,
        cell_at(pack(d0, d1, d2, d3, d4, d5, d6, d7, d8), 8) == d8,
{
}

/// Reading the nine cells of a valid number and packing them gives the
/// number.
pub proof fn lemma_read_then_pack(v: u32)
    by (bit_vector)
    requires
        v < 262144,
    ensures
        pack(
            cell_at(v, 0),
            cell_at(v, 1),
            cell_at(v, 2),
            cell_at(v, 3),
            cell_at(v, 4),
            cell_at(v, 5),
            cell_at(v, 6),
            cell_at(v, 7),
            cell_at(v, 8),
        ) == v,
{
}

/// Taking the mark off cell `k` of nine packed cells leaves the other eight
/// as they were.
pub proof fn lemma_pack_without(
    d0: u32,
    d1: u32,
    d2: u32,
    d3: u32,
    d4: u32,
    d5: u32,
    d6: u32,
    d7: u32,
    d8: u32,
    k: u32,
)
    by (bit_vector)
    requires
        d0 <= 2 && d1 <= 2 && d2 <= 2 && d3 <= 2 && d4 <= 2 && d5 <= 2 && d6 <= 2 && d7 <= 2 && d8
            <= 2,
        k < 9,
    ensures
        without(pack(d0, d1, d2, d3, d4, d5, d6, d7, d8), k) == pack(
            if k == 0 { 0 } else { d0 },
            if k == 1 { 0 } else { d1 },
            if k == 2 { 0 } else { d2 },
            if k == 3 { 0 } else { d3 },
            if k == 4 { 0 } else { d4 },
            if k == 5 { 0 } else { d5 },
            if k == 6 { 0 } else { d6 },
            if k == 7 { 0 } else { d7 },
            if k == 8 { 0 } else { d8 },
        ),
{
}

/// A cell of a packed board is a number of two bits.
pub proof fn lemma_cell_range(v: u32, k: u32)
    by (bit_vector)
    ensures
        cell_at(v, k) <= 3,
{
}

} // verus!

//! Axial coordinates on a hexagonal grid and the bounded hexagonal board.

use vstd::prelude::*;
use vstd::math::abs;
use vstd::string::StringExecFns;

verus! {

/// The character for one decimal digit.
pub open spec fn dec_digit(d: int) -> char {
    if d == 0 {
        '0'
    } else if d == 1 {
        '1'
    } else if d == 2 {
        '2'
    } else if d == 3 {
        '3'
    } else if d == 4 {
        '4'
    } else if d == 5 {
        '5'
    } else if d == 6 {
        '6'
    } else if d == 7 {
        '7'
    } else if d == 8 {
        '8'
    } else {
        '9'
    }
}

/// The decimal rendering of a non-negative integer, most significant digit
/// first, without leading zeros (a lone zero for zero itself).
pub open spec fn dec_rep(v: nat) -> Seq<char>
    decreases v,
{
    if v < 10 {
        seq![dec_digit(v as int)]
    } else {
        dec_rep(v / 10) + seq![dec_digit((v % 10) as int)]
    }
}

/// The decimal rendering of a signed integer: a minus sign before the
/// magnitude for negative values.
pub open spec fn dec_int(v: int) -> Seq<char> {
    if v < 0 {
        seq!['-'] + dec_rep((-v) as nat)
    } else {
        dec_rep(v as nat)
    }
}

/// Bound on the magnitude of a coordinate component. It keeps every sum and
/// difference formed by the geometry (in particular the three-term numerator
/// of the distance formula) inside the range of `i32`.
pub const COORD_LIMIT: i32 = 0x0800_0000;

/// An axial coordinate addressing one hex cell. The third cube coordinate
/// `s = -q - r` is always derived, never stored, so the cube-coordinate
/// invariant `q + r + s == 0` holds by construction.
#[derive(Debug, Clone, Copy, PartialEq, Eq, Hash, Structural)]
pub struct HexCoord {
    pub q: i32,
    pub r: i32,
}

/// The textual form of a coordinate: `(q,r)` in decimal.
pub open spec fn spec_algebraic(c: HexCoord) -> Seq<char> {
    seq!['('] + dec_int(c.q as int) + seq![','] + dec_int(c.r as int) + seq![')']
}

/// The literal for one decimal digit.
fn digit_literal(d: u32) -> (s: &'static str)
    requires
        d < 10,
    ensures
        s@ == seq![dec_digit(d as int)],
{
    let s = match d {
        0 => "0",
        1 => "1",
        2 => "2",
        3 => "3",
        4 => "4",
        5 => "5",
        6 => "6",
        7 => "7",
        8 => "8",
        _ => "9",
    };
    proof {
        reveal_strlit("0");
        reveal_strlit("1");
        reveal_strlit("2");
        reveal_strlit("3");
        reveal_strlit("4");
        reveal_strlit("5");
        reveal_strlit("6");
        reveal_strlit("7");
        reveal_strlit("8");
        reveal_strlit("9");
        assert(s@ =~= seq![dec_digit(d as int)]);
    }
    s
}

/// Appends the decimal rendering of `v` to `out`.
fn push_decimal(out: &mut String, v: u32)
    ensures
        final(out)@ == old(out)@ + dec_rep(v as nat),
    decreases v,
{
    if v >= 10 {
        push_decimal(out, v / 10);
    }
    out.append(digit_literal(v % 10));
    proof {
        assert(out@ =~= old(out)@ + dec_rep(v as nat));
    }
}

/// Appends the decimal rendering of `v`, sign included, to `out`.
fn push_signed(out: &mut String, v: i32)
    ensures
        final(out)@ == old(out)@ + dec_int(v as int),
{
    if v < 0 {
        out.append("-");
        let magnitude = (-(v as i64)) as u32;
        push_decimal(out, magnitude);
        proof {
            reveal_strlit("-");
            assert("-"@ =~= seq!['-']);
            assert(out@ =~= old(out)@ + dec_int(v as int));
        }
    } else {
        push_decimal(out, v as u32);
    }
}

/// The offset from a coordinate to its `i`-th neighbor, clockwise from east.
pub open spec fn neighbor_offset(i: int) -> (int, int) {
    if i == 0 {
        (1, 0)
    } else if i == 1 {
        (1, -1)
    } else if i == 2 {
        (0, -1)
    } else if i == 3 {
        (-1, 0)
    } else if i == 4 {
        (-1, 1)
    } else {
        (0, 1)
    }
}

/// Two coordinates are adjacent when they differ by one of the six
/// neighbor offsets.
pub open spec fn adjacent(c: HexCoord, d: HexCoord) -> bool {
    exists|i: int|
        0 <= i < 6 && d.q == c.q + #[trigger] neighbor_offset(i).0 && d.r == c.r
            + neighbor_offset(i).1
}

/// Hex Manhattan distance: half the sum of the absolute cube-coordinate
/// differences. The sum is always even, so the division is exact
/// (`lemma_distance_numerator_even`).
pub open spec fn spec_distance(a: HexCoord, b: HexCoord) -> int {
    ((abs(a.q - b.q) + abs(a.r - b.r) + abs(a.spec_s() - b.spec_s())) as int) / 2
}

/// A coordinate lies within `radius` rings of the origin when no cube
/// coordinate exceeds `radius` in magnitude.
pub open spec fn in_radius(c: HexCoord, radius: int) -> bool {
    abs(c.q as int) <= radius && abs(c.r as int) <= radius && abs(c.spec_s()) <= radius
}

impl HexCoord {
    /// The derived cube coordinate, as a mathematical integer.
    pub open spec fn spec_s(self) -> int {
        -(self.q as int) - (self.r as int)
    }

    /// Components small enough that the coordinate arithmetic cannot
    /// overflow `i32`.
    pub open spec fn bounded(self) -> bool {
        -COORD_LIMIT <= self.q <= COORD_LIMIT && -COORD_LIMIT <= self.r <= COORD_LIMIT
    }

    pub fn new(q: i32, r: i32) -> (c: HexCoord)
        ensures
            c == (HexCoord { q, r }),
    {
        HexCoord { q, r }
    }

    /// The third cube coordinate, calculated from `q` and `r`.
    pub fn s(&self) -> (s: i32)
        requires
            self.bounded(),
        ensures
            s as int == self.spec_s(),
    {
        -self.q - self.r
    }

    /// All six neighboring coordinates, clockwise from east.
    pub fn neighbors(&self) -> (out: Vec<HexCoord>)
        requires
            self.bounded(),
        ensures
            out@.len() == 6,
            forall|i: int|
                0 <= i < 6 ==> out@[i].q == self.q + #[trigger] neighbor_offset(i).0
                    && out@[i].r == self.r + neighbor_offset(i).1,
            forall|i: int| 0 <= i < 6 ==> adjacent(*self, #[trigger] out@[i]),
    {
        let out = vec![
            HexCoord { q: self.q + 1, r: self.r },
            HexCoord { q: self.q + 1, r: self.r - 1 },
            HexCoord { q: self.q, r: self.r - 1 },
            HexCoord { q: self.q - 1, r: self.r },
            HexCoord { q: self.q - 1, r: self.r + 1 },
            HexCoord { q: self.q, r: self.r + 1 },
        ];
        proof {
            assert forall|i: int| 0 <= i < 6 implies out@[i].q == self.q
                + #[trigger] neighbor_offset(i).0 && out@[i].r == self.r
                + neighbor_offset(i).1 by {
                assert(out@.len() == 6);
            }
            assert forall|i: int| 0 <= i < 6 implies adjacent(*self, #[trigger] out@[i]) by {
                assert(out@[i].q == self.q + neighbor_offset(i).0 && out@[i].r == self.r
                    + neighbor_offset(i).1);
            }
        }
        out
    }

    /// Manhattan distance in the hex grid.
    pub fn distance(&self, other: &HexCoord) -> (d: i32)
        requires
            self.bounded(),
            other.bounded(),
        ensures
            d as int == spec_distance(*self, *other),
            d >= 0,
    {
        let dq = if self.q >= other.q {
            self.q - other.q
        } else {
            other.q - self.q
        };
        let dr = if self.r >= other.r {
            self.r - other.r
        } else {
            other.r - self.r
        };
        let ss = self.s();
        let os = other.s();
        let ds = if ss >= os {
            ss - os
        } else {
            os - ss
        };
        (dq + dr + ds) / 2
    }

    /// Whether no cube coordinate exceeds `radius` in magnitude.
    pub fn is_within_radius(&self, radius: i32) -> (b: bool)
        requires
            self.bounded(),
        ensures
            b == in_radius(*self, radius as int),
    {
        let q_abs = if self.q >= 0 {
            self.q
        } else {
            -self.q
        };
        let r_abs = if self.r >= 0 {
            self.r
        } else {
            -self.r
        };
        let s = self.s();
        let s_abs = if s >= 0 {
            s
        } else {
            -s
        };
        q_abs <= radius && r_abs <= radius && s_abs <= radius
    }

    /// The coordinate written as text, `(q,r)` in decimal.
    pub fn to_algebraic(&self) -> (s: String)
        ensures
            s@ == spec_algebraic(*self),
    {
        let mut out = String::new();
        out.append("(");
        push_signed(&mut out, self.q);
        out.append(",");
        push_signed(&mut out, self.r);
        out.append(")");
        proof {
            reveal_strlit("(");
            reveal_strlit(",");
            reveal_strlit(")");
            assert("("@ =~= seq!['(']);
            assert(","@ =~= seq![',']);
            assert(")"@ =~= seq![')']);
            assert(out@ =~= spec_algebraic(*self));
        }
        out
    }

    /// Parsing of notation back into a coordinate. No notation scheme is
    /// defined for this board, so nothing is accepted.
    pub fn from_algebraic(_notation: &str) -> (c: Option<HexCoord>)
        ensures
            c is None,
    {
        None
    }

    /// Whether the coordinate lies on the default board of side length 6,
    /// where the maximum magnitude of any cube coordinate is 5.
    pub fn is_valid(&self) -> (b: bool)
        requires
            self.bounded(),
        ensures
            b == in_radius(*self, 5),
    {
        self.is_within_radius(5)
    }
}

/// The six neighbors of a coordinate are pairwise distinct and none of them
/// is the coordinate itself.
pub proof fn lemma_neighbors_distinct(c: HexCoord, out: Seq<HexCoord>)
    requires
        out.len() == 6,
        forall|i: int|
            0 <= i < 6 ==> out[i].q == c.q + #[trigger] neighbor_offset(i).0 && out[i].r == c.r
                + neighbor_offset(i).1,
    ensures
        forall|i: int, j: int| 0 <= i < 6 && 0 <= j < 6 && i != j ==> out[i] != out[j],
        forall|i: int| 0 <= i < 6 ==> out[i] != c,
{
    assert forall|i: int, j: int| 0 <= i < 6 && 0 <= j < 6 && i != j implies out[i] != out[j] by {
        assert(neighbor_offset(i).0 != neighbor_offset(j).0 || neighbor_offset(i).1
            != neighbor_offset(j).1);
    }
    assert forall|i: int| 0 <= i < 6 implies out[i] != c by {
        assert(neighbor_offset(i).0 != 0 || neighbor_offset(i).1 != 0);
    }
}

/// Bound on a board's side length. It keeps every screen position computed
/// by the layout projection inside the range of `i32`, and the coordinate
/// count of any board inside `usize` even on 32-bit machines.
pub const SIDE_LIMIT: i32 = 0x4000;

/// A bounded hexagonal region: all coordinates whose cube coordinates stay
/// within `side_length - 1` of the origin. Immutable once constructed.
#[derive(Debug)]
pub struct HexBoard {
    side_length: i32,
}

/// Membership of a coordinate on a board of side length `n`.
pub open spec fn in_board(n: int, c: HexCoord) -> bool {
    in_radius(c, n - 1)
}

/// The lowest valid value of one axial coordinate on a board of side
/// length `n`, given the other coordinate. The hexagonal region is
/// symmetric in `q` and `r`, so the same bound serves columns and rows.
pub open spec fn axis_lo(n: int, other: int) -> int {
    vstd::math::max(-(n - 1), -other - (n - 1))
}

/// The highest valid value of one axial coordinate on a board of side
/// length `n`, given the other coordinate.
pub open spec fn axis_hi(n: int, other: int) -> int {
    vstd::math::min(n - 1, -other + (n - 1))
}

/// The coordinates of column `q`, with `r` ascending from `axis_lo(n, q)` up to
/// (excluding) `r_end`.
pub open spec fn row_seq(n: int, q: int, r_end: int) -> Seq<HexCoord>
    decreases r_end - axis_lo(n, q),
{
    if r_end <= axis_lo(n, q) {
        Seq::empty()
    } else {
        row_seq(n, q, r_end - 1).push(HexCoord { q: q as i32, r: (r_end - 1) as i32 })
    }
}

/// All board coordinates with column below `q_end`, in traversal order:
/// `q` ascending, and `r` ascending within each column.
pub open spec fn coords_upto(n: int, q_end: int) -> Seq<HexCoord>
    decreases q_end + n,
{
    if q_end <= -(n - 1) {
        Seq::empty()
    } else {
        coords_upto(n, q_end - 1) + row_seq(n, q_end - 1, axis_hi(n, q_end - 1) + 1)
    }
}

/// The full enumeration of a board of side length `n`.
pub open spec fn board_seq(n: int) -> Seq<HexCoord> {
    coords_upto(n, n)
}

/// Twice the number of coordinates of a board with maximum extent `max`
/// whose first axis lies below `upto` (the region is symmetric in `q` and
/// `r`, so the same count serves both traversal orders). Doubling keeps the
/// closed form free of interior divisions.
pub open spec fn double_count(max: int, upto: int) -> int {
    if upto <= 0 {
        (upto + max) * (upto + 3 * max + 1)
    } else {
        3 * max * max + max + 4 * max * upto + 3 * upto - upto * upto
    }
}

/// A column holds `2 * max + 1 - abs(q)` coordinates; stepping the count
/// past column `k` adds twice that.
pub proof fn lemma_double_count_step(max: int, k: int)
    requires
        0 <= max,
        -max <= k <= max,
    ensures
        double_count(max, k + 1) == double_count(max, k) + 2 * (2 * max + 1 - abs(k)),
{
    if k < 0 {
        assert((k + 1 + max) * (k + 1 + 3 * max + 1) == (k + max) * (k + 3 * max + 1) + 2 * (2
            * max + 1 + k)) by (nonlinear_arith);
    } else {
        if k == 0 {
            assert((0 + max) * (0 + 3 * max + 1) == 3 * max * max + max) by (nonlinear_arith);
        }
        assert(3 * max * max + max + 4 * max * (k + 1) + 3 * (k + 1) - (k + 1) * (k + 1) == 3 * max
            * max + max + 4 * max * k + 3 * k - k * k + 2 * (2 * max + 1 - k)) by (nonlinear_arith);
    }
}

/// Below the first column there is nothing to count.
pub proof fn lemma_double_count_empty(max: int)
    requires
        0 <= max,
    ensures
        double_count(max, -max) == 0,
{
    assert((-max + max) * (-max + 3 * max + 1) == 0) by (nonlinear_arith);
}

/// The whole board of side length `max + 1` has `3*n*n - 3*n + 1`
/// coordinates.
pub proof fn lemma_double_count_total(max: int)
    requires
        0 <= max,
    ensures
        double_count(max, max + 1) == 2 * (3 * (max + 1) * (max + 1) - 3 * (max + 1) + 1),
{
    assert(3 * max * max + max + 4 * max * (max + 1) + 3 * (max + 1) - (max + 1) * (max + 1) == 2
        * (3 * (max + 1) * (max + 1) - 3 * (max + 1) + 1)) by (nonlinear_arith);
}

/// Length and indexing of one column of the enumeration.
pub proof fn lemma_row_seq_props(n: int, q: int, r_end: int)
    requires
        axis_lo(n, q) <= r_end,
    ensures
        row_seq(n, q, r_end).len() == r_end - axis_lo(n, q),
        forall|k: int|
            0 <= k < r_end - axis_lo(n, q) ==> #[trigger] row_seq(n, q, r_end)[k] == (HexCoord {
                q: q as i32,
                r: (axis_lo(n, q) + k) as i32,
            }),
    decreases r_end - axis_lo(n, q),
{
    if axis_lo(n, q) < r_end {
        lemma_row_seq_props(n, q, r_end - 1);
    }
}

/// Every board coordinate stays within the `i32` bounds that the
/// coordinate arithmetic asks of its inputs.
pub proof fn lemma_in_board_bounded(n: int, c: HexCoord)
    requires
        n <= SIDE_LIMIT,
        in_board(n, c),
    ensures
        c.bounded(),
{
}

/// Every element of the partial enumeration lies on the board.
pub proof fn lemma_coords_upto_sound(n: int, q_end: int)
    requires
        1 <= n <= SIDE_LIMIT,
        q_end <= n,
    ensures
        forall|k: int|
            0 <= k < coords_upto(n, q_end).len() ==> in_board(n, #[trigger] coords_upto(n, q_end)[k]),
    decreases q_end + n,
{
    if -(n - 1) < q_end {
        lemma_coords_upto_sound(n, q_end - 1);
        let q = q_end - 1;
        let prefix = coords_upto(n, q);
        let row = row_seq(n, q, axis_hi(n, q) + 1);
        lemma_row_seq_props(n, q, axis_hi(n, q) + 1);
        assert forall|k: int| 0 <= k < coords_upto(n, q_end).len() implies in_board(
            n,
            #[trigger] coords_upto(n, q_end)[k],
        ) by {
            if k < prefix.len() {
                assert(coords_upto(n, q_end)[k] == prefix[k]);
            } else {
                assert(coords_upto(n, q_end)[k] == row[k - prefix.len()]);
                assert(row[k - prefix.len()] == (HexCoord {
                    q: q as i32,
                    r: (axis_lo(n, q) + (k - prefix.len())) as i32,
                }));
            }
        }
    }
}

/// Every board coordinate with column below `q_end` appears in the partial
/// enumeration.
pub proof fn lemma_coords_upto_complete(n: int, q_end: int, c: HexCoord)
    requires
        1 <= n <= SIDE_LIMIT,
        in_board(n, c),
        c.q < q_end,
        q_end <= n,
    ensures
        coords_upto(n, q_end).contains(c),
    decreases q_end + n,
{
    if c.q == q_end - 1 {
        let q = q_end - 1;
        lemma_row_seq_props(n, q, axis_hi(n, q) + 1);
        let k = c.r - axis_lo(n, q);
        assert(row_seq(n, q, axis_hi(n, q) + 1)[k] == c);
        let i = coords_upto(n, q_end - 1).len() + k;
        assert(coords_upto(n, q_end)[i] == c);
    } else {
        lemma_coords_upto_complete(n, q_end - 1, c);
        let i = choose|i: int|
            0 <= i < coords_upto(n, q_end - 1).len() && #[trigger] coords_upto(n, q_end - 1)[i]
                == c;
        assert(coords_upto(n, q_end)[i] == c);
    }
}

/// A coordinate off the board is absent from any enumeration whose elements
/// all lie on the board.
pub proof fn lemma_outside_board_excluded(n: int, coords: Seq<HexCoord>, c: HexCoord)
    requires
        forall|k: int| 0 <= k < coords.len() ==> in_board(n, #[trigger] coords[k]),
        !in_board(n, c),
    ensures
        !coords.contains(c),
{
}

impl HexBoard {
    /// The side length, as a mathematical integer.
    pub closed spec fn side(self) -> int {
        self.side_length as int
    }

    /// A well-formed board has a positive side length small enough for all
    /// the coordinate and layout arithmetic.
    pub open spec fn wf(self) -> bool {
        1 <= self.side() <= SIDE_LIMIT
    }

    pub fn new(side_length: i32) -> (board: HexBoard)
        requires
            1 <= side_length <= SIDE_LIMIT,
        ensures
            board.side() == side_length,
            board.wf(),
    {
        HexBoard { side_length }
    }

    /// The side length of this board.
    pub fn side_length(&self) -> (s: i32)
        ensures
            s as int == self.side(),
    {
        self.side_length
    }

    /// Whether a coordinate lies on this board.
    pub fn is_valid_coord(&self, coord: &HexCoord) -> (b: bool)
        requires
            self.wf(),
            coord.bounded(),
        ensures
            b == in_board(self.side(), *coord),
    {
        coord.is_within_radius(self.side_length - 1)
    }

    /// All valid coordinates of this board, `q` ascending and `r` ascending
    /// within each column: `3*n*n - 3*n + 1` of them for side length `n`.
    pub fn all_coordinates(&self) -> (coords: Vec<HexCoord>)
        requires
            self.wf(),
        ensures
            coords@ == board_seq(self.side()),
            coords@.len() == 3 * self.side() * self.side() - 3 * self.side() + 1,
            forall|k: int| 0 <= k < coords@.len() ==> in_board(self.side(), #[trigger] coords@[k]),
            forall|c: HexCoord| in_board(self.side(), c) ==> coords@.contains(c),
    {
        let ghost n = self.side();
        let max = self.side_length - 1;
        let mut coords: Vec<HexCoord> = Vec::new();
        let mut q: i32 = -max;
        proof {
            lemma_double_count_empty(max as int);
        }
        while q <= max
            invariant
                1 <= n <= SIDE_LIMIT,
                max == n - 1,
                -max <= q <= max + 1,
                coords@ == coords_upto(n, q as int),
                2 * coords@.len() == double_count(max as int, q as int),
            decreases max + 1 - q,
        {
            let r_min = if -max >= -q - max {
                -max
            } else {
                -q - max
            };
            let r_cap = if max <= -q + max {
                max
            } else {
                -q + max
            };
            let mut r: i32 = r_min;
            while r <= r_cap
                invariant
                    1 <= n <= SIDE_LIMIT,
                    max == n - 1,
                    -max <= q <= max,
                    r_min == axis_lo(n, q as int),
                    r_cap == axis_hi(n, q as int),
                    r_min <= r <= r_cap + 1,
                    coords@ == coords_upto(n, q as int) + row_seq(n, q as int, r as int),
                    2 * coords@.len() == double_count(max as int, q as int) + 2 * (r - r_min),
                decreases r_cap + 1 - r,
            {
                coords.push(HexCoord { q, r });
                proof {
                    assert(row_seq(n, q as int, r + 1) == row_seq(n, q as int, r as int).push(
                        HexCoord { q, r },
                    ));
                    assert(coords@ =~= coords_upto(n, q as int) + row_seq(n, q as int, r + 1));
                }
                r = r + 1;
            }
            proof {
                assert(coords_upto(n, q + 1) == coords_upto(n, q as int) + row_seq(
                    n,
                    q as int,
                    axis_hi(n, q as int) + 1,
                ));
                lemma_double_count_step(max as int, q as int);
                assert(r_cap + 1 - r_min == 2 * max + 1 - abs(q as int));
            }
            q = q + 1;
        }
        proof {
            assert(coords@ == board_seq(n));
            lemma_double_count_total(max as int);
            assert(coords@.len() == 3 * n * n - 3 * n + 1);
            lemma_coords_upto_sound(n, n);
            assert forall|c: HexCoord| in_board(n, c) implies coords@.contains(c) by {
                lemma_coords_upto_complete(n, n, c);
            }
        }
        coords
    }

    /// The color of the tile at a coordinate: `None` off the board;
    /// otherwise the forced corner colors or the general three-coloring.
    pub fn tile_color(&self, coord: &HexCoord) -> (color: Option<TileColor>)
        requires
            self.wf(),
            coord.bounded(),
        ensures
            color == spec_tile_color(self.side(), *coord),
            color is None <==> !in_board(self.side(), *coord),
    {
        if !self.is_valid_coord(coord) {
            return None;
        }
        let max = self.side_length - 1;
        let q_abs = if coord.q >= 0 {
            coord.q
        } else {
            -coord.q
        };
        let r_abs = if coord.r >= 0 {
            coord.r
        } else {
            -coord.r
        };
        let s = coord.s();
        let s_abs = if s >= 0 {
            s
        } else {
            -s
        };
        let corner = q_abs == max && r_abs == max && s_abs == max;
        if corner {
            if coord.r == -max {
                return Some(TileColor::Dark);
            }
            if coord.r == max {
                return Some(TileColor::Light);
            }
        }
        let idx = (coord.q + coord.r).checked_rem_euclid(3).unwrap();
        match idx {
            0 => Some(TileColor::Light),
            1 => Some(TileColor::Medium),
            _ => Some(TileColor::Dark),
        }
    }
}

/// The three tile colors.
#[derive(Debug, Clone, Copy, PartialEq, Eq, Structural)]
pub enum TileColor {
    Light,
    Medium,
    Dark,
}

/// The display name of a color.
pub open spec fn color_name(color: TileColor) -> Seq<char> {
    match color {
        TileColor::Light => "Light"@,
        TileColor::Medium => "Medium"@,
        TileColor::Dark => "Dark"@,
    }
}

impl TileColor {
    pub fn as_str(&self) -> (s: &'static str)
        ensures
            s@ == color_name(*self),
    {
        match self {
            TileColor::Light => "Light",
            TileColor::Medium => "Medium",
            TileColor::Dark => "Dark",
        }
    }
}

/// The color index of the general three-coloring rule: the coordinate sum,
/// reduced to `[0, 3)` by the Euclidean remainder.
pub open spec fn color_index(c: HexCoord) -> int {
    (c.q + c.r) % 3
}

/// The color assigned to each index of the general rule.
pub open spec fn index_color(i: int) -> TileColor {
    if i == 0 {
        TileColor::Light
    } else if i == 1 {
        TileColor::Medium
    } else {
        TileColor::Dark
    }
}

/// A corner hex: all three cube coordinates reach the board's maximum
/// extent simultaneously.
pub open spec fn is_corner(n: int, c: HexCoord) -> bool {
    abs(c.q as int) == n - 1 && abs(c.r as int) == n - 1 && abs(c.spec_s()) == n - 1
}

/// The color of a board coordinate: the topmost corner is forced Dark and
/// the bottommost forced Light; everything else follows the general rule.
pub open spec fn board_color(n: int, c: HexCoord) -> TileColor {
    if is_corner(n, c) && c.r == -(n - 1) {
        TileColor::Dark
    } else if is_corner(n, c) && c.r == n - 1 {
        TileColor::Light
    } else {
        index_color(color_index(c))
    }
}

/// The color of any coordinate: `None` off the board, the board color on it.
pub open spec fn spec_tile_color(n: int, c: HexCoord) -> Option<TileColor> {
    if in_board(n, c) {
        Some(board_color(n, c))
    } else {
        None
    }
}

/// On a board of side length at least 2 no coordinate is a corner in the
/// sense of `is_corner`: three cube coordinates of magnitude `n - 1` cannot
/// sum to zero.
pub proof fn lemma_no_corner(n: int, c: HexCoord)
    requires
        2 <= n,
    ensures
        !is_corner(n, c),
{
    assert(c.q + c.r + c.spec_s() == 0);
}

/// Adjacent board coordinates whose coordinate sums differ receive
/// different colors under `board_color`. The two neighbor offsets that
/// preserve the coordinate sum are excluded: along them the general rule
/// repeats a color.
pub proof fn lemma_adjacent_colors_differ(n: int, c: HexCoord, d: HexCoord)
    requires
        1 <= n,
        in_board(n, c),
        in_board(n, d),
        adjacent(c, d),
        c.q + c.r != d.q + d.r,
    ensures
        board_color(n, c) != board_color(n, d),
        spec_tile_color(n, c) != spec_tile_color(n, d),
{
    let i = choose|i: int|
        0 <= i < 6 && d.q == c.q + #[trigger] neighbor_offset(i).0 && d.r == c.r
            + neighbor_offset(i).1;
    if n == 1 {
        assert(abs(c.q as int) <= 0 && abs(c.r as int) <= 0);
        assert(neighbor_offset(i).0 != 0 || neighbor_offset(i).1 != 0);
    } else {
        lemma_no_corner(n, c);
        lemma_no_corner(n, d);
        let u = c.q + c.r;
        let v = d.q + d.r;
        assert(v == u + 1 || v == u - 1);
        assert(u % 3 != v % 3);
        assert(0 <= color_index(c) < 3 && 0 <= color_index(d) < 3);
    }
}

/// Hex distance is symmetric.
pub proof fn lemma_distance_symmetric(a: HexCoord, b: HexCoord)
    ensures
        spec_distance(a, b) == spec_distance(b, a),
{
}

/// The distance from a coordinate to itself is zero.
pub proof fn lemma_distance_self(a: HexCoord)
    ensures
        spec_distance(a, a) == 0,
{
}

/// The numerator of the distance formula is always even, so the halving in
/// `spec_distance` is an exact division, never a rounding.
pub proof fn lemma_distance_numerator_even(a: HexCoord, b: HexCoord)
    ensures
        (abs(a.q - b.q) + abs(a.r - b.r) + abs(a.spec_s() - b.spec_s())) % 2 == 0,
        2 * spec_distance(a, b) == abs(a.q - b.q) + abs(a.r - b.r) + abs(a.spec_s() - b.spec_s()),
{
    let dq = a.q - b.q;
    let dr = a.r - b.r;
    let ds = a.spec_s() - b.spec_s();
    assert(dq + dr + ds == 0);
    assert(abs(dq) + abs(dr) + abs(ds) == 2 * (abs(dq) + abs(dr) + abs(ds)) / 2);
}

} // verus!

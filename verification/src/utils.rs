//! Integer vectors and integer division helpers shared by every module.

use vstd::prelude::*;

verus! {

/// A point or offset on the horizontal integer grid.
#[derive(Clone, Copy, Debug, PartialEq, Eq, Structural)]
pub struct IVec2 {
    pub x: i32,
    pub y: i32,
}

/// A point or offset on the three-dimensional integer grid.
#[derive(Clone, Copy, Debug, PartialEq, Eq, Structural)]
pub struct IVec3 {
    pub x: i32,
    pub y: i32,
    pub z: i32,
}

/// The axis a rotation turns around.
#[derive(Clone, Copy, Debug, PartialEq, Eq, Structural)]
pub enum RotationDirection {
    X,
    Y,
    Z,
}

/// Quotient of `x` by `y` rounded toward zero.
pub open spec fn trunc_div(x: int, y: int) -> int
    recommends
        y != 0,
{
    if y > 0 {
        if x >= 0 {
            x / y
        } else {
            -((-x) / y)
        }
    } else {
        if x >= 0 {
            -(x / (-y))
        } else {
            (-x) / (-y)
        }
    }
}

/// The truncated quotient, lowered by one whenever exactly one operand is negative.
///
/// For a positive divisor and a dividend that is not a negative multiple of it
/// this is the floor of the exact quotient; a negative exact multiple comes out
/// one lower than its floor.
pub open spec fn div_floor_spec(x: int, y: int) -> int
    recommends
        y != 0,
{
    if (x < 0) != (y < 0) {
        trunc_div(x, y) - 1
    } else {
        trunc_div(x, y)
    }
}

/// Divides two machine integers rounding toward zero.
pub fn trunc_div_i32(x: i32, y: i32) -> (q: i32)
    requires
        y != 0,
        !(x == i32::MIN && y == -1),
    ensures
        q == trunc_div(x as int, y as int),
{
    if y > 0 {
        x / y
    } else if y == i32::MIN {
        if x == i32::MIN {
            assert(-(y as int) == 2147483648int);
            assert(2147483648int / 2147483648int == 1);
            1
        } else {
            assert(x >= 0 ==> (x as int) / (-(y as int)) == 0);
            assert(x < 0 ==> (-(x as int)) / (-(y as int)) == 0);
            0
        }
    } else {
        let ny: i32 = -y;
        let t: i32 = x / ny;
        proof {
            if x >= 0 {
                vstd::arithmetic::div_mod::lemma_div_pos_is_pos(x as int, ny as int);
                vstd::arithmetic::div_mod::lemma_div_is_ordered_by_denominator(x as int, 1, ny as int);
            } else {
                vstd::arithmetic::div_mod::lemma_div_pos_is_pos(-(x as int), ny as int);
                vstd::arithmetic::div_mod::lemma_div_is_ordered_by_denominator(-(x as int), 1, ny as int);
                if ny == 1 {
                } else {
                    vstd::arithmetic::div_mod::lemma_div_is_strictly_smaller(-(x as int), ny as int);
                }
            }
        }
        -t
    }
}

/// Divides rounding toward zero, then steps one lower when exactly one operand is negative.
pub fn div_floor(x: i32, y: i32) -> (q: i32)
    requires
        y != 0,
        !(x == i32::MIN && y == -1),
        i32::MIN <= div_floor_spec(x as int, y as int),
    ensures
        q == div_floor_spec(x as int, y as int),
{
    let new: i32 = trunc_div_i32(x, y);
    if (x < 0) != (y < 0) {
        new - 1
    } else {
        new
    }
}

/// Divides by a positive number rounding down.
pub fn floor_div(x: i32, m: i32) -> (q: i32)
    requires
        m > 0,
    ensures
        q == x as int / m as int,
{
    let q: i32 = x / m;
    let r: i32 = x % m;
    proof {
        if x < 0 {
            let n = -(x as int);
            vstd::arithmetic::div_mod::lemma_fundamental_div_mod(n, m as int);
            vstd::arithmetic::div_mod::lemma_mod_bound(n, m as int);
            vstd::arithmetic::div_mod::lemma_div_pos_is_pos(n, m as int);
            let nq = n / (m as int);
            let nr = n % (m as int);
            assert(m * nq == nq * m) by (nonlinear_arith);
            assert(nq <= n) by (nonlinear_arith)
                requires
                    n == m * nq + nr,
                    nr >= 0,
                    nq >= 0,
                    m >= 1,
            ;
            if nr > 0 {
                assert(nq + 1 <= n) by (nonlinear_arith)
                    requires
                        n == m * nq + nr,
                        nr >= 1,
                        nq >= 0,
                        m >= 1,
                ;
            }
            if nr == 0 {
                assert(x as int == (-nq) * m + 0) by (nonlinear_arith)
                    requires
                        n == m * nq,
                        x as int == -n,
                ;
                vstd::arithmetic::div_mod::lemma_fundamental_div_mod_converse(
                    x as int,
                    m as int,
                    -nq,
                    0,
                );
            } else {
                assert(x as int == (-nq - 1) * m + (m - nr)) by (nonlinear_arith)
                    requires
                        n == m * nq + nr,
                        x as int == -n,
                ;
                vstd::arithmetic::div_mod::lemma_fundamental_div_mod_converse(
                    x as int,
                    m as int,
                    -nq - 1,
                    m - nr,
                );
            }
        }
    }
    if r < 0 {
        q - 1
    } else {
        q
    }
}

/// The number that stands for a grid point where a table is keyed by grid points.
#[verifier::opaque]
pub open spec fn key_of(p: IVec2) -> u64 {
    ((p.x + 0x8000_0000) * 0x1_0000_0000 + (p.y + 0x8000_0000)) as u64
}

/// The grid point that such a number stands for.
#[verifier::opaque]
pub open spec fn point_of(key: u64) -> IVec2 {
    IVec2 {
        x: (key as int / 0x1_0000_0000 - 0x8000_0000) as i32,
        y: (key as int % 0x1_0000_0000 - 0x8000_0000) as i32,
    }
}

/// The numbers stand for one grid point each.
pub proof fn lemma_key_round_trip(p: IVec2)
    ensures
        point_of(key_of(p)) == p,
{
    reveal(key_of);
    reveal(point_of);
}

/// Computes the number that stands for a grid point.
pub fn pack(p: IVec2) -> (key: u64)
    ensures
        key == key_of(p),
{
    proof {
        reveal(key_of);
    }
    let x: u64 = (p.x as i64 + 0x8000_0000) as u64;
    let y: u64 = (p.y as i64 + 0x8000_0000) as u64;
    x * 0x1_0000_0000 + y
}

} // verus!

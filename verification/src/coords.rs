//! Coordinate arithmetic for the voxel grid.
//!
//! A block position in world space (`GlobalCoord`) resolves to the chunk that
//! holds it (`ChunkCoord`) and a position inside that chunk (`LocalCoord`)
//! through floored division and floored (always non-negative) modulo by the
//! chunk side length. Negative global coordinates are valid and resolve to
//! negative chunk coordinates with a local coordinate in `[0, chunk_size)`.

use vstd::prelude::*;

verus! {

use vstd::arithmetic::div_mod::{
    lemma_fundamental_div_mod, lemma_fundamental_div_mod_converse, lemma_mod_bound,
    lemma_div_pos_is_pos, lemma_div_nonincreasing,
};

/// A signed block position in world space, one unit per voxel.
#[derive(Clone, Copy, PartialEq, Eq, Structural, Debug)]
pub struct GlobalCoord {
    pub x: i32,
    pub y: i32,
    pub z: i32,
}

/// A signed position of a chunk on the chunk grid.
#[derive(Clone, Copy, PartialEq, Eq, Structural, Debug)]
pub struct ChunkCoord {
    pub x: i32,
    pub y: i32,
    pub z: i32,
}

/// A block position inside one chunk; each axis lies in `[0, chunk_size)`.
#[derive(Clone, Copy, PartialEq, Eq, Structural, Debug)]
pub struct LocalCoord {
    pub x: u32,
    pub y: u32,
    pub z: u32,
}

impl LocalCoord {
    /// Every axis lies inside a chunk of side length `s`.
    pub open spec fn in_chunk(self, s: int) -> bool {
        self.x < s && self.y < s && self.z < s
    }
}

/// Floored quotient and non-negative remainder of a signed axis value by the
/// chunk side length: returns `(a / s, a % s)` in the Euclidean sense, so the
/// remainder always lies in `[0, s)` even when `a` is negative.
pub fn split_axis(a: i32, s: u32) -> (qr: (i32, u32))
    requires
        1 <= s,
    ensures
        qr.0 == a as int / s as int,
        qr.1 == a as int % s as int,
{
    let su: u64 = s as u64;
    if a >= 0 {
        let au: u64 = a as u64;
        let q: u64 = au / su;
        let r: u64 = au % su;
        proof {
            lemma_mod_bound(a as int, s as int);
            lemma_div_pos_is_pos(a as int, s as int);
            lemma_div_nonincreasing(a as int, s as int);
        }
        (q as i32, r as u32)
    } else {
        let ni: i64 = -(a as i64);
        let nu: u64 = ni as u64;
        // Ceiling division of the magnitude gives the floored quotient of the
        // negative value: a / s == -ceil(-a / s).
        let c: u64 = (nu + su - 1) / su;
        proof {
            lemma_fundamental_div_mod(nu as int + su as int - 1, s as int);
            lemma_mod_bound(nu as int + su as int - 1, s as int);
            lemma_div_pos_is_pos(nu as int + su as int - 1, s as int);
            assert(c * s == s * c) by (nonlinear_arith);
            assert((-(c as int)) * (s as int) == -(c * s)) by (nonlinear_arith);
            // From nu + s - 1 == s * c + m with 0 <= m < s:
            assert(nu <= c * s <= nu as int + s - 1);
            assert(1 <= c) by (nonlinear_arith)
                requires
                    1 <= nu,
                    1 <= s,
                    nu <= c * s,
            ;
            assert(c <= nu) by (nonlinear_arith)
                requires
                    1 <= c,
                    1 <= s,
                    c * s <= nu as int + s - 1,
            ;
            lemma_fundamental_div_mod_converse(
                a as int,
                s as int,
                -(c as int),
                a + c * s,
            );
        }
        let prod: u64 = c * su;
        let ru: u64 = prod - nu;
        let qi: i64 = -(c as i64);
        (qi as i32, ru as u32)
    }
}

/// Resolves a global block position to the chunk that holds it and the
/// position inside that chunk, by floored division and modulo on each axis.
pub fn global_to_chunk_local(g: GlobalCoord, chunk_size: u32) -> (res: (ChunkCoord, LocalCoord))
    requires
        1 <= chunk_size,
    ensures
        res.0.x == g.x as int / chunk_size as int,
        res.0.y == g.y as int / chunk_size as int,
        res.0.z == g.z as int / chunk_size as int,
        res.1.x == g.x as int % chunk_size as int,
        res.1.y == g.y as int % chunk_size as int,
        res.1.z == g.z as int % chunk_size as int,
        res.1.in_chunk(chunk_size as int),
{
    let (cx, lx) = split_axis(g.x, chunk_size);
    let (cy, ly) = split_axis(g.y, chunk_size);
    let (cz, lz) = split_axis(g.z, chunk_size);
    proof {
        lemma_mod_bound(g.x as int, chunk_size as int);
        lemma_mod_bound(g.y as int, chunk_size as int);
        lemma_mod_bound(g.z as int, chunk_size as int);
    }
    (ChunkCoord { x: cx, y: cy, z: cz }, LocalCoord { x: lx, y: ly, z: lz })
}

/// Composes a chunk position and an in-chunk position into the global block
/// position `chunk * chunk_size + local`, component-wise.
pub fn chunk_local_to_global(c: ChunkCoord, l: LocalCoord, chunk_size: u32) -> (g: GlobalCoord)
    requires
        1 <= chunk_size,
        l.in_chunk(chunk_size as int),
        i32::MIN <= c.x * chunk_size + l.x <= i32::MAX,
        i32::MIN <= c.y * chunk_size + l.y <= i32::MAX,
        i32::MIN <= c.z * chunk_size + l.z <= i32::MAX,
    ensures
        g.x == c.x * chunk_size + l.x,
        g.y == c.y * chunk_size + l.y,
        g.z == c.z * chunk_size + l.z,
{
    GlobalCoord {
        x: compose_axis(c.x, l.x, chunk_size),
        y: compose_axis(c.y, l.y, chunk_size),
        z: compose_axis(c.z, l.z, chunk_size),
    }
}

/// Composes one axis of a chunk position and a local position into the
/// global axis value `c * s + l`.
pub fn compose_axis(c: i32, l: u32, s: u32) -> (g: i32)
    requires
        1 <= s,
        l < s,
        i32::MIN <= c * s + l <= i32::MAX,
    ensures
        g == c * s + l,
{
    proof {
        assert(i64::MIN <= c * s <= i64::MAX && i64::MIN <= c * s + l <= i64::MAX)
            by (nonlinear_arith)
            requires
                -0x8000_0000 <= c <= 0x7fff_ffff,
                1 <= s <= 0xffff_ffff,
                0 <= l < s,
        ;
    }
    let wide: i64 = (c as i64) * (s as i64) + (l as i64);
    wide as i32
}

/// Splitting a global axis value into chunk and local parts and composing
/// them back yields the original value: `(a / s) * s + a % s == a`.
pub proof fn lemma_split_then_compose(a: int, s: int)
    requires
        1 <= s,
    ensures
        (a / s) * s + a % s == a,
        0 <= a % s < s,
{
    lemma_fundamental_div_mod(a, s);
    lemma_mod_bound(a, s);
    assert((a / s) * s == s * (a / s)) by (nonlinear_arith);
}

/// Composing a chunk axis value with a valid local axis value and splitting
/// the result recovers both parts: the two directions are a two-sided
/// inverse of one another.
pub proof fn lemma_compose_then_split(c: int, l: int, s: int)
    requires
        1 <= s,
        0 <= l < s,
    ensures
        (c * s + l) / s == c,
        (c * s + l) % s == l,
{
    lemma_fundamental_div_mod_converse(c * s + l, s, c, l);
}

/// Law: distinct (chunk, local) pairs compose to distinct global positions:
/// the composition is injective, so every stored block has exactly one
/// global home.
pub proof fn lemma_compose_injective(c1: int, l1: int, c2: int, l2: int, s: int)
    requires
        1 <= s,
        0 <= l1 < s,
        0 <= l2 < s,
        c1 * s + l1 == c2 * s + l2,
    ensures
        c1 == c2,
        l1 == l2,
{
    lemma_compose_then_split(c1, l1, s);
    lemma_compose_then_split(c2, l2, s);
}

} // verus!

use vstd::arithmetic::div_mod::lemma_fundamental_div_mod_converse;
use vstd::prelude::*;

verus! {

/// Flat index of a cell in an `x_length` by `y_length` by any-depth grid, x fastest.
pub open spec fn flat_index(x: int, y: int, z: int, x_length: int, y_length: int) -> int {
    x + y * x_length + z * x_length * y_length
}

/// Cell of flat index `i` in a grid `x_length` wide and `y_length` deep, x fastest.
pub fn xyz_to_idx(i: i32, y_length: i32, x_length: i32) -> (r: (i32, i32, i32))
    requires
        0 <= i,
        0 < x_length,
        0 < y_length,
        x_length * y_length <= i32::MAX,
    ensures
        r.0 as int == (i as int) % (x_length as int),
        r.1 as int == ((i as int) / (x_length as int)) % (y_length as int),
        r.2 as int == (i as int) / (x_length as int * y_length as int),
{
    let x = i % x_length;
    let y = (i / x_length) % y_length;
    proof {
        assert(x_length as int * y_length as int > 0) by (nonlinear_arith)
            requires
                0 < x_length,
                0 < y_length,
        ;
    }
    let z = i / (x_length * y_length);
    (x, y, z)
}

/// Decoding a flat index gives back the cell it was computed from.
pub proof fn lemma_flat_index_inverse(x: int, y: int, z: int, x_length: int, y_length: int)
    requires
        0 <= x < x_length,
        0 <= y < y_length,
        0 <= z,
    ensures
        ({
            let i = flat_index(x, y, z, x_length, y_length);
            &&& i % x_length == x
            &&& (i / x_length) % y_length == y
            &&& i / (x_length * y_length) == z
        }),
{
    let i = flat_index(x, y, z, x_length, y_length);
    let q = y + z * y_length;
    assert(i == q * x_length + x) by (nonlinear_arith)
        requires
            i == x + y * x_length + z * x_length * y_length,
            q == y + z * y_length,
    ;
    lemma_fundamental_div_mod_converse(i, x_length, q, x);
    lemma_fundamental_div_mod_converse(q, y_length, z, y);
    let r = x + y * x_length;
    assert(0 <= r < x_length * y_length) by (nonlinear_arith)
        requires
            0 <= x < x_length,
            0 <= y < y_length,
            r == x + y * x_length,
    ;
    assert(i == z * (x_length * y_length) + r) by (nonlinear_arith)
        requires
            i == x + y * x_length + z * x_length * y_length,
            r == x + y * x_length,
    ;
    lemma_fundamental_div_mod_converse(i, x_length * y_length, z, r);
}

/// A side length `2^s` with `s <= 10`: a power of two that keeps chunk volumes in `i32`.
pub open spec fn is_chunk_side(n: i32) -> bool {
    exists|s: u32| s <= 10 && n == 1i32 << s
}

/// Splitting a coordinate into its high part `a >> s` and its low `s` bits loses nothing.
pub proof fn lemma_split_injective(a: i32, b: i32, s: u32)
    requires
        s <= 10,
        a >> s == b >> s,
        a & (((1i32 << s) - 1) as i32) == b & (((1i32 << s) - 1) as i32),
    ensures
        a == b,
{
    assert(s <= 10 && a >> s == b >> s && a & (((1i32 << s) - 1) as i32) == b & (((1i32 << s) - 1) as i32) ==> a
        == b) by (bit_vector);
}

/// The high part `a >> s` counts whole blocks of `2^s` and the low `s` bits are the
/// position inside the block: `a` is their floor-division split.
pub proof fn lemma_split_floor(a: i32, s: u32)
    requires
        s <= 10,
    ensures
        (a >> s) as int * (1i32 << s) as int + (a & (((1i32 << s) - 1) as i32)) as int == a as int,
        0 <= (a & (((1i32 << s) - 1) as i32)) < (1i32 << s),
{
    assert(s <= 10 ==> 0 <= (a & (((1i32 << s) - 1) as i32)) < (1i32 << s)) by (bit_vector);
    assert(s <= 10 ==> ((a >> s) << s) | (a & (((1i32 << s) - 1) as i32)) == a) by (bit_vector);
    assert(s <= 10 ==> ((a >> s) << s) & (a & (((1i32 << s) - 1) as i32)) == 0) by (bit_vector);
    assert(s <= 10 ==> ((a >> s) << s) == (a >> s) * (1i32 << s)) by (bit_vector);
    assert(s <= 10 ==> ((a >> s) << s) + (a & (((1i32 << s) - 1) as i32)) == a) by (bit_vector);
}

/// The exponent of a chunk side.
pub fn log2_side(n: i32) -> (s: u32)
    requires
        is_chunk_side(n),
    ensures
        s <= 10,
        n == 1i32 << s,
{
    let ghost k = choose|k: u32| k <= 10 && n == 1i32 << k;
    let mut s: u32 = 0;
    let mut p: i32 = 1;
    proof {
        assert(1i32 << 0u32 == 1i32) by (bit_vector);
    }
    while p < n
        invariant
            k <= 10,
            n == 1i32 << k,
            s <= k,
            p == 1i32 << s,
        decreases k - s,
    {
        proof {
            if s >= k {
                assert(s >= k && k <= 10 && s <= 10 ==> (1i32 << s) >= (1i32 << k)) by (bit_vector);
            }
            assert(s < 10 ==> (1i32 << s) * 2 == 1i32 << (s + 1)) by (bit_vector);
            assert(s < 10 ==> (1i32 << s) <= 512i32) by (bit_vector);
        }
        p = p * 2;
        s = s + 1;
    }
    proof {
        if s < k {
            assert(s < k && k <= 10 ==> (1i32 << s) < (1i32 << k)) by (bit_vector);
        }
    }
    s
}

} // verus!

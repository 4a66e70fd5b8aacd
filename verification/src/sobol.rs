//! One-dimensional Sobol generator (Gray-code order) used to place the
//! probe lines of the coarse grid solver.
//!
//! With the direction numbers `1 << (31 - b)` the generator yields the base-2
//! van der Corput sequence in Gray-code order: the raw 32-bit value of index
//! `i` is the bit reversal of the Gray code `i ^ (i >> 1)`.  The solver maps
//! a raw value `v` to the unit interval as `v / 2^32`.
use vstd::prelude::*;
use vstd::arithmetic::div_mod::{lemma_fundamental_div_mod, lemma_mod_multiples_basic};
use vstd::arithmetic::power2::{lemma2_to64, lemma_pow2_adds, lemma_pow2_pos, pow2};
use vstd::relations::injective_on;
use vstd::set_lib::{lemma_int_range, lemma_map_size, lemma_subset_equality, set_int_range};
use vstd::bits::{lemma_u32_pow2_no_overflow, lemma_u32_shl_is_mul, lemma_u32_shr_is_div};

verus! {

/// Direction number `b` of dimension 0.
pub open spec fn direction(b: int) -> u32 {
    (1u32 << ((31 - b) as u32)) as u32
}

/// Gray code of `i`.
pub open spec fn gray(i: u32) -> u32 {
    i ^ (i >> 1u32)
}

/// XOR of the direction numbers `dirs[b]`, `b < k`, whose bit `b` is set in `g`.
pub open spec fn xor_directions(g: u32, dirs: Seq<u32>, k: nat) -> u32
    decreases k,
{
    if k == 0 {
        0
    } else {
        let prev = xor_directions(g, dirs, (k - 1) as nat);
        if (g >> ((k - 1) as u32)) & 1u32 != 0 {
            prev ^ dirs[k - 1]
        } else {
            prev
        }
    }
}

/// Sobol generator state: the next index and the 32 direction numbers.
pub struct Sobol1d {
    pub i: u32,
    pub dirs: [u32; 32],
}

impl Sobol1d {
    /// The generator uses the trivial direction numbers of dimension 0.
    pub open spec fn wf(&self) -> bool {
        forall|b: int| 0 <= b < 32 ==> #[trigger] self.dirs@[b] == direction(b)
    }

    /// Generator positioned at `start_index`.
    pub fn new(start_index: u32) -> (s: Self)
        ensures
            s.i == start_index,
            s.wf(),
    {
        let mut dirs = [0u32; 32];
        let mut b: usize = 0;
        while b < 32
            invariant
                0 <= b <= 32,
                forall|k: int| 0 <= k < b ==> #[trigger] dirs@[k] == direction(k),
            decreases 32 - b,
        {
            let shift: u32 = 31 - b as u32;
            dirs[b] = 1u32 << shift;
            b = b + 1;
        }
        Sobol1d { i: start_index, dirs }
    }

    /// Raw 32-bit value of the current index; advances the index.
    pub fn next_raw(&mut self) -> (val: u32)
        requires
            old(self).i < u32::MAX,
        ensures
            val == xor_directions(gray(old(self).i), old(self).dirs@, 32),
            final(self).i == old(self).i + 1,
            final(self).dirs == old(self).dirs,
    {
        let g = self.i ^ (self.i >> 1);
        let mut val = 0u32;
        let mut bit: u32 = 0;
        while bit < 32
            invariant
                0 <= bit <= 32,
                g == gray(self.i),
                val == xor_directions(g, self.dirs@, bit as nat),
            decreases 32 - bit,
        {
            if (g >> bit) & 1 != 0 {
                val = val ^ self.dirs[bit as usize];
            }
            bit = bit + 1;
        }
        self.i = self.i + 1;
        val
    }
}

proof fn lemma_flip_bit(val: u32, sk: u32, sb: u32)
    by (bit_vector)
    requires
        sk < 32,
        sb < 32,
    ensures
        sb != sk ==> ((val ^ (1u32 << sk)) >> sb) & 1u32 == (val >> sb) & 1u32,
        sb == sk ==> ((val ^ (1u32 << sk)) >> sb) & 1u32 == 1u32 - ((val >> sb) & 1u32),
        ((0u32 >> sb) & 1u32) == 0u32,
        (val >> sb) & 1u32 == 0u32 || (val >> sb) & 1u32 == 1u32,
{
}

/// With the standard direction numbers, bit `31 - b` of the raw value is bit
/// `b` of the Gray code: the raw value is the bit reversal of the Gray code,
/// i.e. the base-2 radical inverse of `gray(i)` scaled by `2^32`.
pub proof fn lemma_raw_is_bit_reversed_gray(g: u32, dirs: Seq<u32>, b: u32)
    requires
        dirs.len() == 32,
        forall|k: int| 0 <= k < 32 ==> #[trigger] dirs[k] == direction(k),
        b < 32,
    ensures
        (xor_directions(g, dirs, 32) >> ((31 - b) as u32)) & 1u32 == (g >> b) & 1u32,
{
    lemma_prefix_bits(g, dirs, 32, b);
}

proof fn lemma_prefix_bits(g: u32, dirs: Seq<u32>, k: nat, b: u32)
    requires
        dirs.len() == 32,
        forall|j: int| 0 <= j < 32 ==> #[trigger] dirs[j] == direction(j),
        k <= 32,
        b < 32,
    ensures
        (b as nat) < k ==> (xor_directions(g, dirs, k) >> ((31 - b) as u32)) & 1u32 == (g >> b)
            & 1u32,
        (b as nat) >= k ==> (xor_directions(g, dirs, k) >> ((31 - b) as u32)) & 1u32 == 0u32,
    decreases k,
{
    let sb = (31 - b) as u32;
    lemma_flip_bit(0u32, 0u32, sb);
    if k > 0 {
        let j = (k - 1) as u32;
        let sj = (31 - j) as u32;
        lemma_prefix_bits(g, dirs, (k - 1) as nat, b);
        let prev = xor_directions(g, dirs, (k - 1) as nat);
        assert(dirs[j as int] == direction(j as int));
        assert(direction(j as int) == 1u32 << sj);
        lemma_flip_bit(prev, sj, sb);
        lemma_flip_bit(g, j, b);
        if (g >> j) & 1u32 != 0 {
            assert(xor_directions(g, dirs, k) == prev ^ (1u32 << sj));
        } else {
            assert(xor_directions(g, dirs, k) == prev);
        }
    }
}

proof fn lemma_gray_below(i: u32, k: u32)
    by (bit_vector)
    requires
        k < 32,
        i < (1u32 << k),
    ensures
        i ^ (i >> 1u32) < (1u32 << k),
{
}

proof fn lemma_gray_injective(i: u32, j: u32)
    by (bit_vector)
    requires
        i ^ (i >> 1u32) == j ^ (j >> 1u32),
    ensures
        i == j,
{
}

proof fn lemma_high_bit_clear(g: u32, k: u32, n: u32)
    by (bit_vector)
    requires
        k < 32,
        g < (1u32 << k),
        k <= n < 32,
    ensures
        (g >> n) & 1u32 == 0u32,
{
}

/// The `m` low bits set.
spec fn low_mask(m: u32) -> u32 {
    ((1u32 << m) - 1u32) as u32
}

proof fn lemma_xor_keeps_low_clear(a: u32, m: u32, s: u32)
    by (bit_vector)
    requires
        1 <= m < 32,
        m <= s < 32,
        a & low_mask(m) == 0u32,
    ensures
        (a ^ (1u32 << s)) & low_mask(m) == 0u32,
{
}

proof fn lemma_low_clear_shift(a: u32, m: u32)
    by (bit_vector)
    requires
        1 <= m < 32,
        a & low_mask(m) == 0u32,
    ensures
        (a >> m) << m == a,
{
}

proof fn lemma_low_clear_is_multiple(a: u32, m: u32)
    requires
        1 <= m < 32,
        a & low_mask(m) == 0u32,
    ensures
        (a as nat) % pow2(m as nat) == 0,
{
    let p = pow2(m as nat);
    let q = a >> m;
    lemma_u32_pow2_no_overflow(m as nat);
    lemma_u32_shr_is_div(a, m);
    assert((a as nat / p) * p <= a) by (nonlinear_arith)
        requires
            p > 0,
    ;
    lemma_u32_shl_is_mul(q, m);
    lemma_low_clear_shift(a, m);
    lemma_mod_multiples_basic(q as int, p as int);
}

proof fn lemma_zero_low_clear(m: u32)
    by (bit_vector)
    requires
        m < 32,
    ensures
        0u32 & low_mask(m) == 0u32,
{
}


/// `x` and `y` agree on each of their 32 bits.
spec fn bits_agree(x: u32, y: u32) -> bool {
    (x >> 0u32) & 1u32 == (y >> 0u32) & 1u32
    && (x >> 1u32) & 1u32 == (y >> 1u32) & 1u32
    && (x >> 2u32) & 1u32 == (y >> 2u32) & 1u32
    && (x >> 3u32) & 1u32 == (y >> 3u32) & 1u32
    && (x >> 4u32) & 1u32 == (y >> 4u32) & 1u32
    && (x >> 5u32) & 1u32 == (y >> 5u32) & 1u32
    && (x >> 6u32) & 1u32 == (y >> 6u32) & 1u32
    && (x >> 7u32) & 1u32 == (y >> 7u32) & 1u32
    && (x >> 8u32) & 1u32 == (y >> 8u32) & 1u32
    && (x >> 9u32) & 1u32 == (y >> 9u32) & 1u32
    && (x >> 10u32) & 1u32 == (y >> 10u32) & 1u32
    && (x >> 11u32) & 1u32 == (y >> 11u32) & 1u32
    && (x >> 12u32) & 1u32 == (y >> 12u32) & 1u32
    && (x >> 13u32) & 1u32 == (y >> 13u32) & 1u32
    && (x >> 14u32) & 1u32 == (y >> 14u32) & 1u32
    && (x >> 15u32) & 1u32 == (y >> 15u32) & 1u32
    && (x >> 16u32) & 1u32 == (y >> 16u32) & 1u32
    && (x >> 17u32) & 1u32 == (y >> 17u32) & 1u32
    && (x >> 18u32) & 1u32 == (y >> 18u32) & 1u32
    && (x >> 19u32) & 1u32 == (y >> 19u32) & 1u32
    && (x >> 20u32) & 1u32 == (y >> 20u32) & 1u32
    && (x >> 21u32) & 1u32 == (y >> 21u32) & 1u32
    && (x >> 22u32) & 1u32 == (y >> 22u32) & 1u32
    && (x >> 23u32) & 1u32 == (y >> 23u32) & 1u32
    && (x >> 24u32) & 1u32 == (y >> 24u32) & 1u32
    && (x >> 25u32) & 1u32 == (y >> 25u32) & 1u32
    && (x >> 26u32) & 1u32 == (y >> 26u32) & 1u32
    && (x >> 27u32) & 1u32 == (y >> 27u32) & 1u32
    && (x >> 28u32) & 1u32 == (y >> 28u32) & 1u32
    && (x >> 29u32) & 1u32 == (y >> 29u32) & 1u32
    && (x >> 30u32) & 1u32 == (y >> 30u32) & 1u32
    && (x >> 31u32) & 1u32 == (y >> 31u32) & 1u32
}

proof fn lemma_bits_agree_equal(x: u32, y: u32)
    by (bit_vector)
    requires
        bits_agree(x, y),
    ensures
        x == y,
{
}

/// Bits `n..` of `g` are clear, so the directions past `n` add nothing.
proof fn lemma_tail_clear(g: u32, dirs: Seq<u32>, k: u32, n: nat)
    requires
        k < 32,
        g < (1u32 << k),
        k <= n <= 32,
    ensures
        xor_directions(g, dirs, n) == xor_directions(g, dirs, k as nat),
    decreases n,
{
    if n > k {
        lemma_tail_clear(g, dirs, k, (n - 1) as nat);
        lemma_high_bit_clear(g, k, (n - 1) as u32);
    }
}

/// The directions of bits below `k` are multiples of `2^(32 - k)`, and so
/// is their XOR.
proof fn lemma_prefix_multiple(g: u32, dirs: Seq<u32>, k: u32, n: nat)
    requires
        dirs.len() == 32,
        forall|b: int| 0 <= b < 32 ==> #[trigger] dirs[b] == direction(b),
        1 <= k < 32,
        n <= k,
    ensures
        xor_directions(g, dirs, n) & low_mask((32 - k) as u32) == 0u32,
    decreases n,
{
    let m = (32 - k) as u32;
    if n == 0 {
        lemma_zero_low_clear(m);
    } else {
        lemma_prefix_multiple(g, dirs, k, (n - 1) as nat);
        let prev = xor_directions(g, dirs, (n - 1) as nat);
        let s = (31 - (n - 1)) as u32;
        assert(dirs[n - 1] == direction(n - 1));
        assert(direction(n - 1) == 1u32 << s);
        if (g >> ((n - 1) as u32)) & 1u32 != 0 {
            lemma_xor_keeps_low_clear(prev, m, s);
        }
    }
}

/// The first `2^k` raw values of the generator (indices `0 .. 2^k`) are
/// distinct multiples of `2^(32 - k)`: scaled to the unit interval, they
/// are the `2^k` points `j / 2^k` in some order.
pub proof fn lemma_first_draws_are_dyadic(dirs: Seq<u32>, k: u32, i: u32, j: u32)
    requires
        dirs.len() == 32,
        forall|b: int| 0 <= b < 32 ==> #[trigger] dirs[b] == direction(b),
        k < 32,
        i < (1u32 << k),
        j < (1u32 << k),
    ensures
        (xor_directions(gray(i), dirs, 32) as nat) % pow2((32 - k) as nat) == 0,
        i != j ==> xor_directions(gray(i), dirs, 32) != xor_directions(gray(j), dirs, 32),
{
    let gi = gray(i);
    let gj = gray(j);
    lemma_gray_below(i, k);
    lemma_gray_below(j, k);
    lemma_tail_clear(gi, dirs, k, 32);
    if k == 0 {
        assert(xor_directions(gi, dirs, 0) == 0);
        lemma_pow2_pos(32);
        assert(0nat % pow2(32) == 0) by (nonlinear_arith)
            requires
                pow2(32) > 0,
        ;
    } else {
        lemma_prefix_multiple(gi, dirs, k, k as nat);
        lemma_low_clear_is_multiple(xor_directions(gi, dirs, 32), (32 - k) as u32);
    }
    if xor_directions(gi, dirs, 32) == xor_directions(gj, dirs, 32) {
        assert forall|b: u32| b < 32 implies #[trigger] ((gi >> b) & 1u32) == (gj >> b) & 1u32 by {
            lemma_raw_is_bit_reversed_gray(gi, dirs, b);
            lemma_raw_is_bit_reversed_gray(gj, dirs, b);
        }
        assert(bits_agree(gi, gj));
        lemma_bits_agree_equal(gi, gj);
        lemma_gray_injective(i, j);
    }
}

/// The first `2^k` raw values reach every multiple of `2^(32 - k)` below
/// `2^32`: together with `lemma_first_draws_are_dyadic`, the first `2^k`
/// draws scaled to the unit interval are a permutation of the points
/// `q / 2^k`, `0 <= q < 2^k`.
pub proof fn lemma_first_draws_cover_dyadic(dirs: Seq<u32>, k: u32, q: int)
    requires
        dirs.len() == 32,
        forall|b: int| 0 <= b < 32 ==> #[trigger] dirs[b] == direction(b),
        k < 32,
        0 <= q < pow2(k as nat),
    ensures
        exists|i: u32|
            i < (1u32 << k) && #[trigger] xor_directions(gray(i), dirs, 32) as nat == q * pow2(
                (32 - k) as nat,
            ),
{
    let n = pow2(k as nat) as int;
    let p = pow2((32 - k) as nat) as int;
    lemma_u32_pow2_no_overflow(k as nat);
    lemma_u32_shl_is_mul(1u32, k);
    assert((1u32 << k) == n);
    lemma_pow2_pos((32 - k) as nat);
    lemma_pow2_adds(k as nat, (32 - k) as nat);
    lemma2_to64();
    assert(n * p == 0x1_0000_0000);
    let f = |i: int| (xor_directions(gray(i as u32), dirs, 32) as int) / p;
    let d = set_int_range(0, n);
    let t = set_int_range(0, n);
    lemma_int_range(0, n);
    assert forall|i: int| 0 <= i < n implies #[trigger] f(i) * p == xor_directions(
        gray(i as u32),
        dirs,
        32,
    ) && 0 <= f(i) < n by {
        let r = xor_directions(gray(i as u32), dirs, 32) as int;
        lemma_first_draws_are_dyadic(dirs, k, i as u32, i as u32);
        lemma_fundamental_div_mod(r, p);
        assert(r == p * (r / p));
        assert(f(i) * p == r) by (nonlinear_arith)
            requires
                r == p * (r / p),
                f(i) == r / p,
        ;
        assert(0 <= f(i) < n) by (nonlinear_arith)
            requires
                f(i) * p == r,
                0 <= r < 0x1_0000_0000,
                n * p == 0x1_0000_0000,
                p > 0,
        ;
    }
    assert(injective_on(f, d)) by {
        assert forall|i1: int, i2: int|
            d.contains(i1) && d.contains(i2) && #[trigger] f(i1) == #[trigger] f(i2) implies i1
            == i2 by {
            assert(f(i1) * p == f(i2) * p);
            lemma_first_draws_are_dyadic(dirs, k, i1 as u32, i2 as u32);
        }
    }
    let img = d.map(f);
    lemma_map_size(d, img, f);
    assert(img.subset_of(t));
    lemma_subset_equality(img, t);
    assert(t.contains(q));
    assert(img.contains(q));
    let i0 = choose|i: int| d.contains(i) && q == f(i);
    assert(xor_directions(gray(i0 as u32), dirs, 32) as nat == q * p);
}

} // verus!

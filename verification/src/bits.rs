//! Bit-level utilities: bit length, leading zeros, power-of-two rounding and
//! population count.

use crate::lanes::{aligned, lane, lane_sum, lemma_aligned_zero, lemma_lane_sum_pairs};
use vstd::arithmetic::div_mod::lemma_div_denominator;
use vstd::arithmetic::power2::{
    lemma2_to64, lemma_pow2_pos, lemma_pow2_strictly_increases, lemma_pow2_unfold, pow2,
};
use vstd::bits::{lemma_u32_pow2_no_overflow, lemma_u32_shl_is_mul};
use vstd::prelude::*;

verus! {

/// The number of binary digits of `n`: 0 for 0, and otherwise one more than the
/// position of the highest one-bit.
pub open spec fn bit_length(n: nat) -> nat
    decreases n,
{
    if n == 0 {
        0
    } else {
        1 + bit_length(n / 2)
    }
}

/// The number of zero bits in front of the highest one-bit of `i`, read as a
/// 32-bit two's-complement value: 32 for zero, 0 for a negative value.
pub open spec fn leading_zeros(i: i32) -> nat {
    if i < 0 {
        0
    } else {
        (32 - bit_length(i as nat)) as nat
    }
}

/// A positive `n` lies between the two powers of two that its bit length names.
pub proof fn lemma_bit_length_bounds(n: nat)
    requires
        n > 0,
    ensures
        bit_length(n) >= 1,
        pow2((bit_length(n) - 1) as nat) <= n < pow2(bit_length(n)),
    decreases n,
{
    lemma2_to64();
    reveal_with_fuel(bit_length, 2);
    if n > 1 {
        lemma_bit_length_bounds(n / 2);
        lemma_pow2_unfold(bit_length(n / 2));
        lemma_pow2_unfold(bit_length(n));
    }
}

/// The bit length of `n` is the only `k + 1` with `2^k <= n < 2^(k+1)`.
pub proof fn lemma_bit_length_unique(n: nat, k: nat)
    requires
        pow2(k) <= n < pow2(k + 1),
    ensures
        bit_length(n) == k + 1,
{
    lemma_pow2_pos(k);
    lemma_bit_length_bounds(n);
    let l = (bit_length(n) - 1) as nat;
    if l < k {
        if l + 1 < k {
            lemma_pow2_strictly_increases(l + 1, k);
        }
    } else if l > k {
        if k + 1 < l {
            lemma_pow2_strictly_increases(k + 1, l);
        }
    }
}

/// Dropping the `k` low digits of a value with more than `k` digits shortens it by `k`.
pub proof fn lemma_bit_length_shift(n: nat, k: nat)
    requires
        n >= pow2(k),
    ensures
        bit_length(n) == bit_length(n / pow2(k)) + k,
    decreases k,
{
    lemma2_to64();
    if k > 0 {
        lemma_pow2_unfold(k);
        let p = pow2((k - 1) as nat);
        lemma_pow2_pos((k - 1) as nat);
        lemma_bit_length_shift(n / 2, (k - 1) as nat);
        lemma_div_denominator(n as int, 2, p as int);
        assert(n / 2 / p == n / pow2(k));
    } else {
        let d = pow2(k);
        assert(n / d == n) by (nonlinear_arith)
            requires
                d == 1,
        ;
    }
}

proof fn lemma_shifts_divide(b: u32)
    by (bit_vector)
    ensures
        b >> 16 == b / 0x1_0000,
        b >> 8 == b / 0x100,
        b >> 4 == b / 0x10,
        b >> 2 == b / 4,
        b >> 1 == b / 2,
        1u32 << 16 == 0x1_0000,
        1u32 << 8 == 0x100,
        1u32 << 4 == 0x10,
        1u32 << 2 == 4,
{
}

/// Returns the number of zero bits preceding the highest-order one-bit in the
/// two's-complement representation of `i`; 32 if `i` is zero.
pub fn number_of_leading_zeros(i: i32) -> (r: u8)
    ensures
        r == leading_zeros(i),
{
    if i == 0 {
        return 32;
    } else if i < 0 {
        return 0;
    }
    let mut n: u8 = 31;
    let mut b: u32 = i as u32;
    proof {
        lemma2_to64();
    }
    if b >= (1 << 16) {
        proof {
            lemma_shifts_divide(b);
            lemma_bit_length_shift(b as nat, 16);
        }
        n -= 16;
        b = b >> 16;
    }
    assert(b < 0x1_0000 && bit_length(i as nat) == bit_length(b as nat) + (31 - n)) by {
        lemma_shifts_divide(b);
    }
    if b >= (1 << 8) {
        proof {
            lemma_shifts_divide(b);
            lemma_bit_length_shift(b as nat, 8);
        }
        n -= 8;
        b >>= 8;
    }
    assert(b < 0x100 && bit_length(i as nat) == bit_length(b as nat) + (31 - n)) by {
        lemma_shifts_divide(b);
    }
    if b >= (1 << 4) {
        proof {
            lemma_shifts_divide(b);
            lemma_bit_length_shift(b as nat, 4);
        }
        n -= 4;
        b >>= 4;
    }
    assert(b < 0x10 && bit_length(i as nat) == bit_length(b as nat) + (31 - n)) by {
        lemma_shifts_divide(b);
    }
    if b >= (1 << 2) {
        proof {
            lemma_shifts_divide(b);
            lemma_bit_length_shift(b as nat, 2);
        }
        n -= 2;
        b >>= 2;
    }
    proof {
        lemma_shifts_divide(b);
        assert(0 < b < 4 && bit_length(i as nat) == bit_length(b as nat) + (31 - n));
        reveal_with_fuel(bit_length, 3);
    }
    n - ((b >> 1) as u8)
}

/// The largest value that `ceiling_power_of_two` returns: two to the power of 30.
pub const MAX_POWER_OF_TWO: u32 = 0x4000_0000;

/// Whether `n` is two to the power of some natural number.
pub open spec fn is_power_of_two(n: int) -> bool {
    exists|k: nat| n == #[trigger] pow2(k)
}

/// The smallest power of two that is at least `num`, capped at `MAX_POWER_OF_TWO`;
/// 1 where `num` is at most 1.
pub open spec fn ceiling_power_of_two_spec(num: i32) -> nat {
    if num <= 1 {
        1
    } else if num > MAX_POWER_OF_TWO {
        MAX_POWER_OF_TWO as nat
    } else {
        pow2(bit_length((num - 1) as nat))
    }
}

/// Below the cap, `ceiling_power_of_two_spec(num)` is a power of two, is at least
/// `num`, and no smaller power of two is at least `num`.
pub proof fn lemma_ceiling_power_of_two_is_least(num: i32)
    requires
        num <= MAX_POWER_OF_TWO,
    ensures
        is_power_of_two(ceiling_power_of_two_spec(num) as int),
        ceiling_power_of_two_spec(num) >= num,
        forall|p: int| is_power_of_two(p) && p >= num ==> ceiling_power_of_two_spec(num) <= p,
{
    lemma2_to64();
    let r = ceiling_power_of_two_spec(num);
    if num <= 1 {
        assert(r == pow2(0));
        assert forall|p: int| is_power_of_two(p) implies r <= p by {
            let k = choose|k: nat| p == #[trigger] pow2(k);
            lemma_pow2_pos(k);
        }
    } else {
        let m = (num - 1) as nat;
        let l = bit_length(m);
        lemma_bit_length_bounds(m);
        assert(r == pow2(l));
        assert forall|p: int| is_power_of_two(p) && p >= num implies r <= p by {
            let k = choose|k: nat| p == #[trigger] pow2(k);
            if k < l {
                if k + 1 < l {
                    lemma_pow2_strictly_increases(k, (l - 1) as nat);
                }
                assert(false);
            } else if k > l {
                lemma_pow2_strictly_increases(l, k);
            }
        }
    }
}

/// `ceiling_power_of_two_spec` keeps a power of two as it is, and maps any other
/// value up to the cap to the next power of two above it; it is 1 up to 1.
pub proof fn lemma_ceiling_power_of_two_rounds_up(num: i32)
    requires
        num <= MAX_POWER_OF_TWO,
    ensures
        num <= 1 ==> ceiling_power_of_two_spec(num) == 1,
        is_power_of_two(num as int) ==> ceiling_power_of_two_spec(num) == num,
        num > 1 && !is_power_of_two(num as int) ==> {
            &&& is_power_of_two(ceiling_power_of_two_spec(num) as int)
            &&& ceiling_power_of_two_spec(num) > num
            &&& forall|p: int| is_power_of_two(p) && p > num ==> ceiling_power_of_two_spec(num) <= p
        },
{
    lemma_ceiling_power_of_two_is_least(num);
    if is_power_of_two(num as int) && num <= 1 {
        let k = choose|k: nat| num as int == #[trigger] pow2(k);
        lemma_pow2_pos(k);
    }
}

/// Returns the smallest power of two greater than or equal to `num`, at most
/// `MAX_POWER_OF_TWO`, and 1 for any `num` up to 1.
pub fn ceiling_power_of_two(num: i32) -> (r: u32)
    ensures
        r == ceiling_power_of_two_spec(num),
{
    if num <= 1 {
        return 1;
    }
    let a = number_of_leading_zeros(num - 1);
    proof {
        let m = (num - 1) as nat;
        lemma2_to64();
        lemma_bit_length_bounds(m);
        if num > MAX_POWER_OF_TWO {
            lemma_bit_length_unique(m, 30);
        } else if bit_length(m) > 30 {
            if bit_length(m) > 31 {
                lemma_pow2_strictly_increases(30, (bit_length(m) - 1) as nat);
            }
            assert(false);
        }
        assert(1 <= a <= 31);
        let s = (32 - a) as u32;
        assert(u32::MAX >> a == (1u32 << s) - 1) by (bit_vector)
            requires
                1 <= a <= 31,
                s == 32 - a,
        ;
        lemma_u32_pow2_no_overflow(s as nat);
        lemma_u32_shl_is_mul(1, s);
        if s < 30 {
            lemma_pow2_strictly_increases(s as nat, 30);
        }
    }
    let n = u32::MAX >> a;
    if n >= MAX_POWER_OF_TWO {
        MAX_POWER_OF_TWO
    } else {
        n + 1
    }
}

/// The number of one-bits in the binary representation of `n`.
pub open spec fn count_ones(n: nat) -> nat
    decreases n,
{
    if n == 0 {
        0
    } else {
        n % 2 + count_ones(n / 2)
    }
}

/// What `bit_count` returns: the population count, of which only the low three
/// bits are kept.
pub open spec fn bit_count_spec(i: u64) -> nat {
    count_ones(i as nat) % 8
}

proof fn lemma_shift_step(x: u64, k: u64)
    by (bit_vector)
    requires
        k < 64,
    ensures
        lane(x, 1, k) == (x >> k) % 2,
        k < 63 ==> (x >> k) / 2 == x >> ((k + 1) as u64),
        k == 63 ==> (x >> k) / 2 == 0,
        x >> 0 == x,
{
}

proof fn lemma_count_ones_from(x: u64, k: u64)
    requires
        k <= 64,
    ensures
        lane_sum(x, 1, k) == if k < 64 {
            count_ones((x >> k) as nat)
        } else {
            0
        },
    decreases 64 - k,
{
    if k < 64 {
        reveal_with_fuel(count_ones, 2);
        lemma_shift_step(x, k);
        lemma_count_ones_from(x, (k + 1) as u64);
        let n = (x >> k) as nat;
        assert(count_ones(n) == n % 2 + count_ones(n / 2));
        assert(lane_sum(x, 1, k) == lane(x, 1, k) as nat + lane_sum(x, 1, (k + 1) as u64));
    }
}

/// The population count of `x` is the sum of its single bits.
pub proof fn lemma_count_ones_is_bit_sum(x: u64)
    ensures
        count_ones(x as nat) == lane_sum(x, 1, 0),
{
    lemma_shift_step(x, 0);
    lemma_count_ones_from(x, 0);
}

// The four steps of the parallel count: each 2-bit lane gets the count of its
// two bits, each 4-bit lane the sum of its two 2-bit lanes, each byte the sum
// of its two 4-bit lanes, and the low byte the sum of the eight bytes.
spec fn pair_counts(i: u64) -> u64 {
    (i - ((i >> 1) & 0x5555555555555555)) as u64
}

spec fn nibble_counts(i: u64) -> u64 {
    ((i & 0x3333333333333333) + ((i >> 2) & 0x3333333333333333)) as u64
}

spec fn byte_counts(i: u64) -> u64 {
    ((i + (i >> 4)) as u64) & 0x0f0f0f0f0f0f0f0f
}

spec fn byte_total(i: u64) -> u64 {
    let a = (i + (i >> 8)) as u64;
    let b = (a + (a >> 16)) as u64;
    (b + (b >> 32)) as u64
}

proof fn lemma_pair_counts(x: u64, o: u64)
    by (bit_vector)
    requires
        o < 64,
        aligned(o, 2),
    ensures
        lane(pair_counts(x), 2, o) == lane(x, 1, o) + lane(x, 1, (o + 1) as u64),
        (x >> 1) & 0x5555555555555555 <= x,
{
}

proof fn lemma_nibble_counts(x: u64, o: u64)
    by (bit_vector)
    requires
        o < 64,
        aligned(o, 4),
    ensures
        lane(nibble_counts(x), 4, o) == lane(x, 2, o) + lane(x, 2, (o + 2) as u64),
        nibble_counts(x) & 0x8888888888888888 == 0,
        (x & 0x3333333333333333) + ((x >> 2) & 0x3333333333333333) <= 0x6666666666666666,
{
}

proof fn lemma_byte_counts(x: u64, o: u64)
    by (bit_vector)
    requires
        o < 64,
        aligned(o, 8),
        x & 0x8888888888888888 == 0,
    ensures
        lane(byte_counts(x), 8, o) == lane(x, 4, o) + lane(x, 4, (o + 4) as u64),
        byte_counts(x) & 0xf0f0f0f0f0f0f0f0 == 0,
        x + (x >> 4) <= 0xffff_ffff_ffff_ffff,
{
}

proof fn lemma_byte_total(x: u64)
    by (bit_vector)
    requires
        x & 0xf0f0f0f0f0f0f0f0 == 0,
    ensures
        byte_total(x) & 0x7f == lane(x, 8, 0) + lane(x, 8, 8) + lane(x, 8, 16) + lane(x, 8, 24)
            + lane(x, 8, 32) + lane(x, 8, 40) + lane(x, 8, 48) + lane(x, 8, 56),
        byte_total(x) & 7 == (byte_total(x) & 0x7f) % 8,
        x + (x >> 8) <= 0x1e1e_1e1e_1e1e_1e1e,
        ({
            let a = (x + (x >> 8)) as u64;
            let b = (a + (a >> 16)) as u64;
            a + (a >> 16) <= 0x3c3c_3c3c_3c3c_3c3c && b + (b >> 32) <= 0x7878_7878_7878_7878
        }),
{
}

proof fn lemma_parallel_count(x: u64)
    ensures
        byte_total(byte_counts(nibble_counts(pair_counts(x)))) & 7 == bit_count_spec(x),
{
    let a = pair_counts(x);
    let b = nibble_counts(a);
    let c = byte_counts(b);
    lemma_count_ones_is_bit_sum(x);
    assert forall|o: u64| o < 64 && aligned(o, 2) implies #[trigger] lane(a, 2, o) == lane(x, 1, o)
        + lane(x, 1, (o + 1) as u64) by {
        lemma_pair_counts(x, o);
    }
    lemma_aligned_zero(2);
    lemma_lane_sum_pairs(x, a, 1, 0);
    assert forall|o: u64| o < 64 && aligned(o, 4) implies #[trigger] lane(b, 4, o) == lane(a, 2, o)
        + lane(a, 2, (o + 2) as u64) by {
        lemma_nibble_counts(a, o);
    }
    lemma_aligned_zero(4);
    lemma_lane_sum_pairs(a, b, 2, 0);
    lemma_nibble_counts(a, 0);
    assert forall|o: u64| o < 64 && aligned(o, 8) implies #[trigger] lane(c, 8, o) == lane(b, 4, o)
        + lane(b, 4, (o + 4) as u64) by {
        lemma_byte_counts(b, o);
    }
    lemma_aligned_zero(8);
    lemma_lane_sum_pairs(b, c, 4, 0);
    lemma_byte_counts(b, 0);
    lemma_byte_total(c);
    reveal_with_fuel(lane_sum, 9);
}

/// Returns the number of one-bits of `i`, reduced to its low three bits.
pub fn bit_count(i: u64) -> (r: u8)
    ensures
        r == bit_count_spec(i),
{
    proof {
        lemma_parallel_count(i);
        lemma_aligned_zero(2);
        lemma_aligned_zero(4);
        lemma_aligned_zero(8);
        lemma_pair_counts(i, 0);
        lemma_nibble_counts(pair_counts(i), 0);
        lemma_byte_counts(nibble_counts(pair_counts(i)), 0);
        lemma_byte_total(byte_counts(nibble_counts(pair_counts(i))));
    }
    let mut i = i;
    i = i - ((i >> 1) & 0x5555555555555555);
    i = (i & 0x3333333333333333) + ((i >> 2) & 0x3333333333333333);
    i = (i + (i >> 4)) & 0x0f0f0f0f0f0f0f0f;
    i = i + (i >> 8);
    i = i + (i >> 16);
    i = i + (i >> 32);
    (i & 0x7) as u8
}

} // verus!

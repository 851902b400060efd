//! A PCG-style pseudo-random number generator with range sampling,
//! Fisher-Yates shuffling and random choice from vectors.

use vstd::prelude::*;
use crate::vec_ext::{swapped, vec_swap, lemma_swapped_multiset};
use vstd::arithmetic::div_mod::{lemma_div_is_ordered, lemma_div_by_multiple, lemma_fundamental_div_mod};

verus! {

/// Increment of the underlying linear congruential step.
pub const DEFAULT_INC: u64 = 1442695040888963407;

/// Multiplier of the underlying linear congruential step.
pub const MULTIPLIER: u64 = 6364136223846793005;

/// The state of the pseudo-random number generator.
pub struct Rng {
    pub state: u64,
}

/// One step of the linear congruential state update.
#[verifier::opaque]
pub open spec fn pcg_step(s: u64) -> u64 {
    s.wrapping_mul(MULTIPLIER).wrapping_add(DEFAULT_INC)
}

/// Rotation of a 32-bit word to the right by `r` bits (`r < 32`).
pub open spec fn rotr32(x: u32, r: u32) -> u32 {
    if r == 0 {
        x
    } else {
        (x >> r) | (x << ((32 - r) as u32))
    }
}

/// The 32-bit output produced from a state.
#[verifier::opaque]
pub open spec fn pcg_output(s: u64) -> u32 {
    rotr32((((s >> 18u64) ^ s) >> 27u64) as u32, (s >> 59u64) as u32)
}

fn rotate_right_u32(x: u32, r: u32) -> (res: u32)
    requires
        r < 32,
    ensures
        res == rotr32(x, r),
{
    if r == 0 {
        x
    } else {
        (x >> r) | (x << (32 - r))
    }
}

impl Rng {
    /// A generator in the state the engine starts with.
    pub fn new() -> (rng: Rng)
        ensures
            rng.state == 0,
    {
        Rng { state: 0 }
    }
}

/// Returns a pseudo-random number in the range of 0 to `u32::MAX`, and advances the state.
pub fn rand(rng: &mut Rng) -> (r: u32)
    ensures
        r == pcg_output(old(rng).state),
        final(rng).state == pcg_step(old(rng).state),
{
    let oldstate: u64 = rng.state;
    rng.state = oldstate.wrapping_mul(MULTIPLIER).wrapping_add(DEFAULT_INC);
    let xorshifted: u32 = (((oldstate >> 18) ^ oldstate) >> 27) as u32;
    let rot: u32 = (oldstate >> 59) as u32;
    assert(rot < 32) by (bit_vector)
        requires rot == (oldstate >> 59u64) as u32;
    reveal(pcg_step);
    reveal(pcg_output);
    rotate_right_u32(xorshifted, rot)
}


/// The state `srand(seed)` leaves behind.
pub open spec fn seeded_state(seed: u64) -> u64 {
    pcg_step(pcg_step(0).wrapping_add(seed))
}

/// Seeds the pseudo-random number generator used by `rand` with the value `seed`.
pub fn srand(rng: &mut Rng, seed: u64)
    ensures
        final(rng).state == seeded_state(seed),
{
    rng.state = 0;
    rand(rng);
    let oldstate = rng.state;
    rng.state = oldstate.wrapping_add(seed);
    rand(rng);
}

/// The span of `rand`'s outputs: a draw `r` stands for the fraction `r / RAND_SPAN`.
pub open spec fn rand_span() -> int {
    0x1_0000_0000
}

/// Division that truncates toward zero, as a cast to an integer type does.
pub open spec fn trunc_div(a: int, d: int) -> int {
    if a >= 0 {
        a / d
    } else {
        -((-a) / d)
    }
}

/// The value that the draw `r` selects between `low` and `high`:
/// `low + (high - low) * r / 2^32`, truncated toward zero.
pub open spec fn scaled(low: int, high: int, r: int) -> int {
    trunc_div(low * rand_span() + (high - low) * r, rand_span())
}

pub open spec fn min_int(a: int, b: int) -> int {
    if a <= b { a } else { b }
}

pub open spec fn max_int(a: int, b: int) -> int {
    if a <= b { b } else { a }
}

proof fn lemma_trunc_div_between(num: int, lo: int, hi: int)
    requires
        lo <= hi,
        lo * rand_span() <= num <= hi * rand_span(),
    ensures
        lo <= trunc_div(num, rand_span()) <= hi,
        num < hi * rand_span() && hi > 0 ==> trunc_div(num, rand_span()) < hi,
{
    let k = rand_span();
    if num >= 0 {
        if lo >= 0 {
            lemma_div_is_ordered(lo * k, num, k);
            lemma_div_by_multiple(lo, k);
        }
        lemma_div_is_ordered(num, hi * k, k);
        lemma_div_by_multiple(hi, k);
        if num < hi * k {
            lemma_div_is_ordered(num, hi * k - 1, k);
            lemma_fundamental_div_mod(hi * k - 1, k);
            assert((hi * k - 1) / k < hi) by (nonlinear_arith)
                requires
                    k > 0,
                    hi * k - 1 == k * ((hi * k - 1) / k) + (hi * k - 1) % k,
                    0 <= (hi * k - 1) % k;
        }
    } else {
        let m = -num;
        assert(m <= -lo * k) by (nonlinear_arith)
            requires m == -num, lo * k <= num;
        lemma_div_is_ordered(m, -lo * k, k);
        lemma_div_by_multiple(-lo, k);
        assert((-lo * k) / k == -lo) by (nonlinear_arith)
            requires (-lo) * k / k == -lo;
        if hi <= 0 {
            assert(-hi * k <= m) by (nonlinear_arith)
                requires m == -num, num <= hi * k;
            lemma_div_is_ordered(-hi * k, m, k);
            lemma_div_by_multiple(-hi, k);
            assert((-hi * k) / k == -hi) by (nonlinear_arith)
                requires (-hi) * k / k == -hi;
        }
    }
}

proof fn lemma_scaled_bounds(low: int, high: int, r: int)
    requires
        0 <= r < rand_span(),
    ensures
        min_int(low, high) <= scaled(low, high, r) <= max_int(low, high),
        0 < high && low < high ==> scaled(low, high, r) < high,
{
    let k = rand_span();
    let num = low * k + (high - low) * r;
    if low <= high {
        assert(low * k <= num <= high * k) by (nonlinear_arith)
            requires num == low * k + (high - low) * r, low <= high, 0 <= r < k;
        assert(low < high ==> num < high * k) by (nonlinear_arith)
            requires num == low * k + (high - low) * r, 0 <= r < k;
        lemma_trunc_div_between(num, low, high);
    } else {
        assert(high * k <= num <= low * k) by (nonlinear_arith)
            requires num == low * k + (high - low) * r, high < low, 0 <= r < k;
        lemma_trunc_div_between(num, high, low);
    }
}

/// Maps a draw onto the range between `low` and `high`.
fn scale_to_range(low: i128, high: i128, r: u32) -> (res: i128)
    requires
        -0x1_0000_0000_0000_0000 <= low <= 0x1_0000_0000_0000_0000,
        -0x1_0000_0000_0000_0000 <= high <= 0x1_0000_0000_0000_0000,
    ensures
        res == scaled(low as int, high as int, r as int),
        min_int(low as int, high as int) <= res <= max_int(low as int, high as int),
        0 < high && low < high ==> res < high,
{
    proof {
        lemma_scaled_bounds(low as int, high as int, r as int);
    }
    assert(-0x1_0000_0000_0000_0000_0000_0000 <= low * 0x1_0000_0000 <= 0x1_0000_0000_0000_0000_0000_0000) by (nonlinear_arith)
        requires -0x1_0000_0000_0000_0000 <= low <= 0x1_0000_0000_0000_0000;
    let d: i128 = high - low;
    assert(-0x2_0000_0000_0000_0000_0000_0000 <= d * (r as i128) <= 0x2_0000_0000_0000_0000_0000_0000) by (nonlinear_arith)
        requires -0x2_0000_0000_0000_0000 <= d <= 0x2_0000_0000_0000_0000, 0 <= r < 0x1_0000_0000;
    let num: i128 = low * 0x1_0000_0000 + d * (r as i128);
    if num >= 0 {
        num / 0x1_0000_0000
    } else {
        let m: i128 = -num;
        -(m / 0x1_0000_0000)
    }
}


/// Types whose values can be drawn uniformly between two bounds.
pub trait RandomRange: Sized {
    /// The integer a value stands for.
    spec fn range_value(self) -> int;

    /// Draws a value between `low` and `high`: `low + (high - low) * r / 2^32`
    /// for the next draw `r` of `rand`, truncated toward zero. When `low <= high`
    /// the result lies in `[low, high]`, and in `[low, high)` when also `high > 0`.
    fn gen_range(rng: &mut Rng, low: Self, high: Self) -> (r: Self)
        ensures
            r.range_value() == scaled(
                low.range_value(),
                high.range_value(),
                pcg_output(old(rng).state) as int,
            ),
            final(rng).state == pcg_step(old(rng).state),
            min_int(low.range_value(), high.range_value()) <= r.range_value() <= max_int(
                low.range_value(),
                high.range_value(),
            ),
            0 < high.range_value() && low.range_value() < high.range_value() ==> r.range_value()
                < high.range_value(),
    ;
}

impl RandomRange for u8 {
    open spec fn range_value(self) -> int {
        self as int
    }

    fn gen_range(rng: &mut Rng, low: u8, high: u8) -> (r: u8) {
        let x = rand(rng);
        let v = scale_to_range(low as i128, high as i128, x);
        v as u8
    }
}

impl RandomRange for u16 {
    open spec fn range_value(self) -> int {
        self as int
    }

    fn gen_range(rng: &mut Rng, low: u16, high: u16) -> (r: u16) {
        let x = rand(rng);
        let v = scale_to_range(low as i128, high as i128, x);
        v as u16
    }
}

impl RandomRange for u32 {
    open spec fn range_value(self) -> int {
        self as int
    }

    fn gen_range(rng: &mut Rng, low: u32, high: u32) -> (r: u32) {
        let x = rand(rng);
        let v = scale_to_range(low as i128, high as i128, x);
        v as u32
    }
}

impl RandomRange for u64 {
    open spec fn range_value(self) -> int {
        self as int
    }

    fn gen_range(rng: &mut Rng, low: u64, high: u64) -> (r: u64) {
        let x = rand(rng);
        let v = scale_to_range(low as i128, high as i128, x);
        v as u64
    }
}

impl RandomRange for usize {
    open spec fn range_value(self) -> int {
        self as int
    }

    fn gen_range(rng: &mut Rng, low: usize, high: usize) -> (r: usize) {
        let x = rand(rng);
        let v = scale_to_range(low as i128, high as i128, x);
        v as usize
    }
}

impl RandomRange for i8 {
    open spec fn range_value(self) -> int {
        self as int
    }

    fn gen_range(rng: &mut Rng, low: i8, high: i8) -> (r: i8) {
        let x = rand(rng);
        let v = scale_to_range(low as i128, high as i128, x);
        v as i8
    }
}

impl RandomRange for i16 {
    open spec fn range_value(self) -> int {
        self as int
    }

    fn gen_range(rng: &mut Rng, low: i16, high: i16) -> (r: i16) {
        let x = rand(rng);
        let v = scale_to_range(low as i128, high as i128, x);
        v as i16
    }
}

impl RandomRange for i32 {
    open spec fn range_value(self) -> int {
        self as int
    }

    fn gen_range(rng: &mut Rng, low: i32, high: i32) -> (r: i32) {
        let x = rand(rng);
        let v = scale_to_range(low as i128, high as i128, x);
        v as i32
    }
}

impl RandomRange for i64 {
    open spec fn range_value(self) -> int {
        self as int
    }

    fn gen_range(rng: &mut Rng, low: i64, high: i64) -> (r: i64) {
        let x = rand(rng);
        let v = scale_to_range(low as i128, high as i128, x);
        v as i64
    }
}

impl RandomRange for isize {
    open spec fn range_value(self) -> int {
        self as int
    }

    fn gen_range(rng: &mut Rng, low: isize, high: isize) -> (r: isize) {
        let x = rand(rng);
        let v = scale_to_range(low as i128, high as i128, x);
        v as isize
    }
}

/// Draws a value between `low` and `high` (see `RandomRange::gen_range`).
pub fn gen_range<T: RandomRange>(rng: &mut Rng, low: T, high: T) -> (r: T)
    ensures
        r.range_value() == scaled(low.range_value(), high.range_value(), pcg_output(old(rng).state) as int),
        final(rng).state == pcg_step(old(rng).state),
        min_int(low.range_value(), high.range_value()) <= r.range_value() <= max_int(low.range_value(), high.range_value()),
        0 < high.range_value() && low.range_value() < high.range_value() ==> r.range_value() < high.range_value(),
{
    T::gen_range(rng, low, high)
}

/// The value that the draw `r` selects in the half-open range from `low` to
/// `high`: `low + (high - low) * r / 2^32`, rounded down.
pub open spec fn floored(low: int, high: int, r: int) -> int {
    (low * 4294967296 + (high - low) * r) / 4294967296
}

proof fn lemma_floored_bounds(low: int, high: int, r: int)
    requires
        0 <= r < 4294967296,
    ensures
        low < high ==> low <= floored(low, high, r) < high,
        high <= low ==> high <= floored(low, high, r) <= low,
{
    let num = low * 4294967296 + (high - low) * r;
    let f = floored(low, high, r);
    lemma_fundamental_div_mod(num, 4294967296);
    assert(f * 4294967296 <= num < f * 4294967296 + 4294967296);
    if low < high {
        assert(low * 4294967296 <= num < high * 4294967296) by (nonlinear_arith)
            requires
                num == low * 4294967296 + (high - low) * r,
                low < high,
                0 <= r < 4294967296,
        ;
    } else {
        assert(high * 4294967296 <= num <= low * 4294967296) by (nonlinear_arith)
            requires
                num == low * 4294967296 + (high - low) * r,
                high <= low,
                0 <= r < 4294967296,
        ;
    }
}

/// Draws an `i32` in the half-open range from `min` to `max`: at least `min`
/// and below `max` when `min < max` (the range `min..max`).
pub fn random_i32(rng: &mut Rng, min: i32, max: i32) -> (r: i32)
    ensures
        r == floored(min as int, max as int, pcg_output(old(rng).state) as int),
        final(rng).state == pcg_step(old(rng).state),
        min < max ==> min <= r < max,
        max <= min ==> max <= r <= min,
{
    let x = rand(rng);
    proof {
        lemma_floored_bounds(min as int, max as int, x as int);
    }
    let d: i128 = (max as i128) - (min as i128);
    assert(-0x1_0000_0000_0000_0000 <= d * (x as i128) <= 0x1_0000_0000_0000_0000) by (nonlinear_arith)
        requires
            -0x1_0000_0000 <= d <= 0x1_0000_0000,
            0 <= x < 0x1_0000_0000,
    ;
    let num: i128 = (min as i128) * 4294967296 + d * (x as i128);
    let q: i128 = if num >= 0 {
        num / 4294967296
    } else {
        -((-num + 4294967295) / 4294967296)
    };
    proof {
        let n = num as int;
        if n >= 0 {
            lemma_fundamental_div_mod(n, 4294967296);
        } else {
            let m = -n + 4294967295;
            lemma_fundamental_div_mod(m, 4294967296);
            assert(q * 4294967296 <= n < q * 4294967296 + 4294967296);
            vstd::arithmetic::div_mod::lemma_fundamental_div_mod_converse(n, 4294967296, q as int, n - q * 4294967296);
        }
    }
    q as i32
}

/// Draws a `usize` between `min` and `max`.
pub fn random_usize(rng: &mut Rng, min: usize, max: usize) -> (r: usize)
    ensures
        r == scaled(min as int, max as int, pcg_output(old(rng).state) as int),
        final(rng).state == pcg_step(old(rng).state),
        min_int(min as int, max as int) <= r <= max_int(min as int, max as int),
        min < max ==> r < max,
{
    gen_range(rng, min, max)
}


/// The state after `n` further draws.
pub open spec fn state_after(s: u64, n: nat) -> u64
    decreases n,
{
    if n == 0 {
        s
    } else {
        pcg_step(state_after(s, (n - 1) as nat))
    }
}

/// The byte drawn as `gen_range(0u8, 255u8)` from state `s`.
pub open spec fn byte_draw(s: u64) -> int {
    scaled(0, 255, pcg_output(s) as int)
}

/// The `n` bytes drawn one after the other from state `s`.
pub open spec fn byte_draws(s: u64, n: nat) -> Seq<int>
    decreases n,
{
    if n == 0 {
        Seq::empty()
    } else {
        byte_draws(s, (n - 1) as nat).push(byte_draw(state_after(s, (n - 1) as nat)))
    }
}

/// `256^n`.
pub open spec fn pow256(n: nat) -> nat
    decreases n,
{
    if n == 0 {
        1
    } else {
        256 * pow256((n - 1) as nat)
    }
}

/// `2^n`.
pub open spec fn pow2n(n: nat) -> nat
    decreases n,
{
    if n == 0 {
        1
    } else {
        2 * pow2n((n - 1) as nat)
    }
}

/// The little-endian number that a sequence of bytes spells.
pub open spec fn le_value(bytes: Seq<int>) -> int
    decreases bytes.len(),
{
    if bytes.len() == 0 {
        0
    } else {
        le_value(bytes.drop_last()) + bytes.last() * pow256((bytes.len() - 1) as nat)
    }
}

/// The number of significant bits of `x`.
pub open spec fn bit_len(x: nat) -> nat
    decreases x,
{
    if x == 0 {
        0
    } else {
        1 + bit_len(x / 2)
    }
}

/// The number of random bytes one sampling attempt below `top` uses.
pub open spec fn fy_byte_count(top: nat) -> nat {
    ((bit_len(top) - 1) / 8 + 1) as nat
}

/// The candidate of one sampling attempt from state `s`: random little-endian bytes
/// masked to the bit width of `top`.
pub open spec fn fy_candidate(s: u64, top: nat) -> int {
    le_value(byte_draws(s, fy_byte_count(top))) % (pow2n(bit_len(top)) as int)
}

/// The number of sampling attempts after which the search gives up.
pub open spec fn fy_max_attempts() -> nat {
    0xffff_ffff_ffff_ffff
}

/// Rejection sampling below `top`: the first candidate below `top`, within `fuel`
/// attempts, with the state after it; `0` if every attempt is rejected.
pub open spec fn fy_pick_from(s: u64, top: nat, fuel: nat) -> (int, u64)
    decreases fuel,
{
    if fuel == 0 {
        (0, s)
    } else {
        let next = state_after(s, fy_byte_count(top));
        if fy_candidate(s, top) < top {
            (fy_candidate(s, top), next)
        } else {
            fy_pick_from(next, top, (fuel - 1) as nat)
        }
    }
}

/// The index that `FisherYates::gen_range(top)` draws from state `s`, with the state after it.
pub open spec fn fy_pick(s: u64, top: nat) -> (int, u64) {
    fy_pick_from(s, top, fy_max_attempts())
}

proof fn lemma_fy_pick_from_below(s: u64, top: nat, fuel: nat)
    requires
        top > 0,
    ensures
        0 <= fy_pick_from(s, top, fuel).0 < top,
    decreases fuel,
{
    if fuel > 0 {
        let next = state_after(s, fy_byte_count(top));
        if !(fy_candidate(s, top) < top) {
            lemma_fy_pick_from_below(next, top, (fuel - 1) as nat);
        } else {
            assert(pow2n(bit_len(top)) > 0) by {
                lemma_pow2n_pos(bit_len(top));
            }
        }
    }
}

proof fn lemma_pow2n_pos(n: nat)
    ensures
        pow2n(n) > 0,
    decreases n,
{
    if n > 0 {
        lemma_pow2n_pos((n - 1) as nat);
    }
}

proof fn lemma_bit_len_bound(x: nat, n: nat)
    requires
        x < pow2n(n),
    ensures
        bit_len(x) <= n,
    decreases n,
{
    if x > 0 {
        if n == 0 {
        } else {
            lemma_bit_len_bound(x / 2, (n - 1) as nat);
        }
    }
}

#[verifier::spinoff_prover]
#[verifier::rlimit(40)]
proof fn lemma_pow2n_63()
    ensures
        pow2n(63) == 0x8000_0000_0000_0000,
{
    reveal_with_fuel(pow2n, 64);
}

proof fn lemma_pow256_8()
    ensures
        pow256(7) == 0x100_0000_0000_0000,
        pow256(8) == 0x1_0000_0000_0000_0000,
{
    reveal_with_fuel(pow256, 9);
}

#[verifier::spinoff_prover]
#[verifier::rlimit(40)]
proof fn lemma_pow2n_64()
    ensures
        pow2n(64) == 0x1_0000_0000_0000_0000,
{
    reveal_with_fuel(pow2n, 65);
}

proof fn lemma_pow256_mono(i: nat, j: nat)
    requires
        i <= j,
    ensures
        pow256(i) <= pow256(j),
    decreases j,
{
    if i < j {
        lemma_pow256_mono(i, (j - 1) as nat);
    }
}

/// The number of significant bits of `x`, computed by halving.
fn bit_length(x: u64) -> (w: u64)
    ensures
        w == bit_len(x as nat),
        w <= 64,
{
    let mut y: u64 = x;
    let mut w: u64 = 0;
    proof {
        lemma_pow2n_64();
        lemma_bit_len_bound(x as nat, 64);
    }
    while y > 0
        invariant
            w + bit_len(y as nat) == bit_len(x as nat),
            w <= 64 - bit_len(y as nat),
        decreases y,
    {
        y = y / 2;
        w = w + 1;
    }
    w
}

/// `2^n` for `n < 64`.
fn pow2_u64(n: u64) -> (p: u64)
    requires
        n < 64,
    ensures
        p == pow2n(n as nat),
{
    let mut p: u64 = 1;
    let mut i: u64 = 0;
    while i < n
        invariant
            i <= n < 64,
            p == pow2n(i as nat),
        decreases n - i,
    {
        proof {
            lemma_pow2n_mono(i as nat + 1, 63);
            lemma_pow2n_63();
        }
        p = p * 2;
        i = i + 1;
    }
    p
}

proof fn lemma_pow2n_mono(i: nat, j: nat)
    requires
        i <= j,
    ensures
        pow2n(i) <= pow2n(j),
    decreases j,
{
    if i < j {
        lemma_pow2n_mono(i, (j - 1) as nat);
    }
}

proof fn lemma_draw_step(s0: u64, i: nat, b: int)
    requires
        b == byte_draw(state_after(s0, i)),
    ensures
        byte_draws(s0, i + 1) == byte_draws(s0, i).push(b),
        le_value(byte_draws(s0, i + 1)) == le_value(byte_draws(s0, i)) + b * pow256(i),
        state_after(s0, i + 1) == pcg_step(state_after(s0, i)),
{
    let bs = byte_draws(s0, i + 1);
    lemma_byte_draws_len(s0, i);
    assert(bs.drop_last() == byte_draws(s0, i));
    assert(bs.last() == b);
}

proof fn lemma_byte_draws_len(s: u64, n: nat)
    ensures
        byte_draws(s, n).len() == n,
    decreases n,
{
    if n > 0 {
        lemma_byte_draws_len(s, (n - 1) as nat);
    }
}

/// Implementation of the Fisher-Yates shuffle over the engine's generator.
pub struct FisherYates {}

impl Default for FisherYates {
    fn default() -> (fy: FisherYates)
        ensures
            fy == (FisherYates {}),
    {
        FisherYates {}
    }
}

impl FisherYates {
    /// Draws `byte_count` random bytes and returns the little-endian number they
    /// spell, reduced modulo `p`.
    fn draw_candidate(rng: &mut Rng, byte_count: u64, p: u64) -> (c: u64)
        requires
            1 <= byte_count <= 8,
            p > 0,
        ensures
            c == le_value(byte_draws(old(rng).state, byte_count as nat)) % (p as int),
            final(rng).state == state_after(old(rng).state, byte_count as nat),
    {
        let ghost s0 = rng.state;
        let mut acc: u64 = 0;
        let mut pow: u64 = 1;
        let mut i: u64 = 0;
        while i < byte_count
            invariant
                i <= byte_count <= 8,
                acc == le_value(byte_draws(s0, i as nat)),
                acc < pow256(i as nat),
                i < byte_count ==> pow == pow256(i as nat),
                rng.state == state_after(s0, i as nat),
            decreases byte_count - i,
        {
            let b: u8 = <u8 as RandomRange>::gen_range(rng, 0, 255);
            proof {
                lemma_draw_step(s0, i as nat, b as int);
                lemma_pow256_mono(i as nat + 1, 8);
                lemma_pow256_8();
                assert(acc + b * pow < pow256(i as nat + 1)) by (nonlinear_arith)
                    requires
                        acc < pow,
                        b <= 255,
                        pow256(i as nat + 1) == 256 * pow,
                ;
            }
            acc = acc + (b as u64) * pow;
            if i + 1 < byte_count {
                proof {
                    lemma_pow256_mono(i as nat + 1, 7);
                }
                pow = pow * 256;
            }
            i = i + 1;
        }
        acc % p
    }

    /// Draws an index below `top` by rejection sampling.
    fn gen_range(&mut self, rng: &mut Rng, top: usize) -> (r: usize)
        requires
            1 <= top <= isize::MAX,
        ensures
            (r as int, final(rng).state) == fy_pick(old(rng).state, top as nat),
            r < top,
    {
        proof {
            lemma_fy_pick_from_below(old(rng).state, top as nat, fy_max_attempts());
            lemma_pow2n_63();
            assert(top < pow2n(63));
            lemma_bit_len_bound(top as nat, 63);
        }
        let top64: u64 = top as u64;
        let bit_width: u64 = bit_length(top64);
        let byte_count: u64 = (bit_width - 1) / 8 + 1;
        let p: u64 = pow2_u64(bit_width);
        proof {
            lemma_pow2n_pos(bit_width as nat);
        }
        let ghost target = fy_pick(old(rng).state, top as nat);
        let mut fuel: u64 = 0xffff_ffff_ffff_ffff;
        loop
            invariant
                1 <= top <= isize::MAX,
                top64 == top,
                1 <= bit_width <= 63,
                bit_width == bit_len(top as nat),
                byte_count == fy_byte_count(top as nat),
                1 <= byte_count <= 8,
                p == pow2n(bit_width as nat),
                p > 0,
                target == fy_pick(old(rng).state, top as nat),
                fy_pick_from(rng.state, top as nat, fuel as nat) == target,
            decreases fuel,
        {
            if fuel == 0 {
                return 0;
            }
            let ghost before = rng.state;
            let c = Self::draw_candidate(rng, byte_count, p);
            proof {
                assert(c == fy_candidate(before, top as nat));
                assert(fy_pick_from(before, top as nat, fuel as nat) == (if c < top {
                    (c as int, rng.state)
                } else {
                    fy_pick_from(rng.state, top as nat, (fuel - 1) as nat)
                }));
            }
            if c < top64 {
                return c as usize;
            }
            fuel = fuel - 1;
        }
    }

    /// Shuffles `data` in place (Fisher-Yates): for each index `i` from 1 up,
    /// exchanges the element at `i` with the one at an index drawn from
    /// `0..=i`, so that every order of the elements can come out.
    pub fn shuffle<T>(&mut self, rng: &mut Rng, data: &mut Vec<T>)
        requires
            old(data).len() <= isize::MAX,
        ensures
            (final(data)@, final(rng).state) == shuffled(old(data)@, old(rng).state),
            final(data)@.to_multiset() == old(data)@.to_multiset(),
            final(data)@.len() == old(data)@.len(),
    {
        let ghost s0 = data@;
        let ghost st0 = rng.state;
        let n = data.len();
        let mut i: usize = 1;
        while i < n
            invariant
                1 <= i,
                i <= n || i == 1,
                n == data.len(),
                n == s0.len(),
                n <= isize::MAX,
                (data@, rng.state) == shuffle_upto(s0, st0, i as nat),
                data@.to_multiset() == s0.to_multiset(),
            decreases n - i,
        {
            let j = self.gen_range(rng, i + 1);
            proof {
                lemma_swapped_multiset(data@, i as int, j as int);
            }
            vec_swap(data, i, j);
            i = i + 1;
        }
        proof {
            if n == 0 {
                assert(shuffle_upto(s0, st0, 1) == shuffle_upto(s0, st0, 0));
            } else {
                assert(i == n);
            }
        }
    }
}

/// The sequence and the state after the shuffle steps for indices `1..n`:
/// the step for index `k` exchanges it with an index drawn from `0..=k`.
pub open spec fn shuffle_upto<T>(s: Seq<T>, st: u64, n: nat) -> (Seq<T>, u64)
    decreases n,
{
    if n <= 1 {
        (s, st)
    } else {
        let prev = shuffle_upto(s, st, (n - 1) as nat);
        let pick = fy_pick(prev.1, n);
        (swapped(prev.0, n - 1, pick.0), pick.1)
    }
}

proof fn lemma_shuffle_upto_permutes<T>(s: Seq<T>, st: u64, n: nat)
    requires
        n <= s.len(),
    ensures
        shuffle_upto(s, st, n).0.to_multiset() == s.to_multiset(),
        shuffle_upto(s, st, n).0.len() == s.len(),
    decreases n,
{
    if n > 1 {
        lemma_shuffle_upto_permutes(s, st, (n - 1) as nat);
        let prev = shuffle_upto(s, st, (n - 1) as nat);
        let pick = fy_pick(prev.1, n);
        lemma_fy_pick_from_below(prev.1, n, fy_max_attempts());
        lemma_swapped_multiset(prev.0, n - 1, pick.0);
    }
}

/// Shuffling only rearranges: the shuffled sequence has the same elements,
/// each as often, as the sequence it started from.
pub proof fn law_shuffle_is_permutation<T>(s: Seq<T>, st: u64)
    ensures
        shuffled(s, st).0.to_multiset() == s.to_multiset(),
        shuffled(s, st).0.len() == s.len(),
{
    lemma_shuffle_upto_permutes(s, st, s.len());
}

/// The result of shuffling all of `s` from state `st`.
pub open spec fn shuffled<T>(s: Seq<T>, st: u64) -> (Seq<T>, u64) {
    shuffle_upto(s, st, s.len())
}


/// The index `choose` draws from a vector of length `len` with the draw `r`.
pub open spec fn choice_index(len: nat, r: u32) -> int {
    scaled(0, len as int, r as int)
}

/// The indices `0, 1, ..., n - 1`.
pub open spec fn index_range(n: nat) -> Seq<usize> {
    Seq::new(n, |i: int| i as usize)
}

/// `s` cut or padded with zeros to length `n`.
pub open spec fn resized(s: Seq<usize>, n: nat) -> Seq<usize> {
    if n <= s.len() {
        s.take(n as int)
    } else {
        s + Seq::new((n - s.len()) as nat, |i: int| 0usize)
    }
}

/// The indices `choose_multiple` visits, with the state after drawing them.
pub open spec fn chosen_indices(len: nat, amount: nat, st: u64) -> (Seq<usize>, u64) {
    let sh = shuffled(index_range(len), st);
    (resized(sh.0, amount), sh.1)
}

/// `choose_multiple` visits exactly `amount` indices, each a valid index of
/// a non-empty vector; when `amount` is at most the length, no index is
/// visited twice.
pub proof fn law_chosen_indices_valid(len: nat, amount: nat, st: u64)
    requires
        0 < len <= usize::MAX,
    ensures
        chosen_indices(len, amount, st).0.len() == amount,
        forall|k: int| 0 <= k < amount ==> #[trigger] chosen_indices(len, amount, st).0[k] < len,
        amount <= len ==> chosen_indices(len, amount, st).0.no_duplicates(),
{
    broadcast use vstd::seq_lib::to_multiset_contains;
    let r = index_range(len);
    let sh = shuffled(r, st).0;
    law_shuffle_is_permutation(r, st);
    assert forall|k: int| 0 <= k < sh.len() implies #[trigger] sh[k] < len by {
        assert(sh.contains(sh[k]));
        assert(sh.to_multiset().count(sh[k]) > 0);
        assert(r.contains(sh[k]));
    }
    let c = chosen_indices(len, amount, st).0;
    assert forall|k: int| 0 <= k < amount implies #[trigger] c[k] < len by {
        if k < sh.len() {
            assert(c[k] == sh[k]);
        }
    }
    if amount <= len {
        assert forall|i: int, j: int| 0 <= i < c.len() && 0 <= j < c.len() && i != j implies c[i] != c[j] by {
            if c[i] == c[j] {
                lemma_distinct_count(len, c[i]);
                lemma_count_two(sh, i, j);
            }
        }
    }
}

/// A value occurs at most once in `0, 1, ..., n - 1`.
proof fn lemma_distinct_count(n: nat, x: usize)
    requires
        n <= usize::MAX,
    ensures
        index_range(n).to_multiset().count(x) <= 1,
    decreases n,
{
    broadcast use {vstd::seq_lib::to_multiset_contains, vstd::multiset::group_multiset_axioms};
    if n == 0 {
        assert(index_range(n) =~= Seq::<usize>::empty());
        Seq::<usize>::empty().to_multiset_ensures();
    } else {
        let p = index_range((n - 1) as nat);
        assert(index_range(n) =~= p.push((n - 1) as usize));
        p.to_multiset_ensures();
        lemma_distinct_count((n - 1) as nat, x);
        if x == n - 1 {
            assert(!p.contains(x)) by {
                if p.contains(x) {
                    let k = choose|k: int| 0 <= k < p.len() && p[k] == x;
                    assert(p[k] == k as usize);
                }
            }
        }
    }
}

/// A value at two positions of a sequence occurs at least twice in it.
proof fn lemma_count_two<A>(s: Seq<A>, i: int, j: int)
    requires
        0 <= i < s.len(),
        0 <= j < s.len(),
        i != j,
        s[i] == s[j],
    ensures
        s.to_multiset().count(s[i]) >= 2,
    decreases s.len(),
{
    broadcast use vstd::seq_lib::group_to_multiset_ensures;
    let last = s.len() - 1;
    let p = s.drop_last();
    assert(s =~= p.push(s.last()));
    if i != last && j != last {
        lemma_count_two(p, i, j);
    } else {
        let k = if i == last { j } else { i };
        assert(p[k] == s[i]);
        assert(p.contains(s[i]));
        vstd::seq_lib::to_multiset_contains(p, s[i]);
    }
}

/// Iterates over the elements of a vector at a drawn list of indices.
pub struct VecChooseIter<'a, T> {
    source: &'a Vec<T>,
    indices: Vec<usize>,
    pos: usize,
}

impl<'a, T> VecChooseIter<'a, T> {
    /// The vector the iterator reads.
    pub closed spec fn source(&self) -> Seq<T> {
        self.source@
    }

    /// The indices still to visit, in order.
    pub closed spec fn remaining(&self) -> Seq<usize> {
        self.indices@.skip(self.pos as int)
    }

    pub closed spec fn well_formed(&self) -> bool {
        self.pos <= self.indices@.len()
    }

    /// Returns the element at the next index, or `None` when every index was visited.
    pub fn next(&mut self) -> (r: Option<&'a T>)
        requires
            old(self).well_formed(),
            old(self).remaining().len() > 0 ==> old(self).remaining()[0] < old(self).source().len(),
        ensures
            final(self).well_formed(),
            final(self).source() == old(self).source(),
            old(self).remaining().len() == 0 ==> r is None && final(self).remaining() == old(self).remaining(),
            old(self).remaining().len() > 0 ==> r == Some(&old(self).source()[old(self).remaining()[0] as int])
                && final(self).remaining() == old(self).remaining().drop_first(),
    {
        if self.pos < self.indices.len() {
            let ix = self.indices[self.pos];
            self.pos = self.pos + 1;
            proof {
                assert(self.indices@.skip(self.pos as int) =~= old(self).indices@.skip(old(self).pos as int).drop_first());
            }
            Some(&self.source[ix])
        } else {
            None
        }
    }
}

/// Random operations on vectors.
pub trait ChooseRandom<T>: Sized {
    /// The elements the operations see.
    spec fn elements(&self) -> Seq<T>;

    /// Shuffles the elements in place (see `FisherYates::shuffle`).
    fn shuffle(&mut self, rng: &mut Rng)
        requires
            old(self).elements().len() <= isize::MAX,
        ensures
            (final(self).elements(), final(rng).state) == shuffled(old(self).elements(), old(rng).state),
    ;

    /// Returns a random element, or `None` when there is none.
    fn choose_one(&self, rng: &mut Rng) -> (r: Option<&T>)
        ensures
            final(rng).state == pcg_step(old(rng).state),
            self.elements().len() == 0 ==> r is None,
            self.elements().len() > 0 ==> r == Some(
                &self.elements()[choice_index(self.elements().len(), pcg_output(old(rng).state))],
            ),
    ;

    /// Returns a random element for changing in place, or `None` when there
    /// is none; the element changes in the vector.
    fn choose_mut(&mut self, rng: &mut Rng) -> (r: Option<&mut T>)
        ensures
            final(rng).state == pcg_step(old(rng).state),
            old(self).elements().len() == 0 ==> r is None && final(self).elements() == old(self).elements(),
            old(self).elements().len() > 0 ==> {
                let i = choice_index(old(self).elements().len(), pcg_output(old(rng).state));
                &&& r is Some
                &&& *r.unwrap() == old(self).elements()[i]
                &&& final(self).elements() == old(self).elements().update(i, *final(r.unwrap()))
            },
    ;

    /// Returns an iterator over `amount` elements at shuffled indices; when
    /// `amount` exceeds the length, the extra indices are `0`.
    fn choose_multiple(&self, rng: &mut Rng, amount: usize) -> (it: VecChooseIter<'_, T>)
        requires
            self.elements().len() <= isize::MAX,
        ensures
            it.well_formed(),
            it.source() == self.elements(),
            (it.remaining(), final(rng).state) == chosen_indices(self.elements().len(), amount as nat, old(rng).state),
    ;
}

impl<T> ChooseRandom<T> for Vec<T> {
    open spec fn elements(&self) -> Seq<T> {
        self@
    }

    fn shuffle(&mut self, rng: &mut Rng) {
        let mut fy = FisherYates::default();
        fy.shuffle(rng, self);
    }

    fn choose_one(&self, rng: &mut Rng) -> (r: Option<&T>) {
        let ix = gen_range(rng, 0usize, self.len());
        if ix < self.len() {
            Some(&self[ix])
        } else {
            None
        }
    }

    fn choose_mut(&mut self, rng: &mut Rng) -> (r: Option<&mut T>) {
        let ix = gen_range(rng, 0usize, self.len());
        if ix < self.len() {
            Some(&mut self[ix])
        } else {
            None
        }
    }

    fn choose_multiple(&self, rng: &mut Rng, amount: usize) -> (it: VecChooseIter<'_, T>) {
        let n = self.len();
        let mut indices: Vec<usize> = Vec::new();
        let mut i: usize = 0;
        while i < n
            invariant
                i <= n,
                n == self@.len(),
                indices@ == index_range(i as nat),
            decreases n - i,
        {
            indices.push(i);
            i = i + 1;
            proof {
                assert(indices@ =~= index_range(i as nat));
            }
        }
        indices.shuffle(rng);
        indices.resize(amount, 0);
        proof {
            assert(indices@ =~= resized(shuffled(index_range(n as nat), old(rng).state).0, amount as nat));
        }
        let it = VecChooseIter { source: self, indices, pos: 0 };
        proof {
            assert(it.indices@.skip(0) =~= it.indices@);
        }
        it
    }
}

} // verus!

//! Fast 16-bit pseudo random number generator.
//!
//! A linear congruential generator. The state is owned by the caller, so two
//! renders that each keep their own state can never disturb each other, and a
//! render that reseeds at a known boundary is a pure function of that seed.

use vstd::prelude::*;

verus! {

/// Initial state of the generator.
pub const DEFAULT_SEED: u32 = 0x21;

/// Multiplier of the generator.
pub const MULTIPLIER: u32 = 1664525;

/// Increment of the generator.
pub const INCREMENT: u32 = 1013904223;

/// The state that follows `state`: `state * 1664525 + 1013904223` modulo `2^32`.
pub open spec fn next_state(state: u32) -> u32 {
    ((state as int * MULTIPLIER as int + INCREMENT as int) % 0x1_0000_0000) as u32
}

/// The state after `n` draws starting from `state`.
pub open spec fn state_after(state: u32, n: nat) -> u32
    decreases n,
{
    if n == 0 {
        state
    } else {
        next_state(state_after(state, (n - 1) as nat))
    }
}

/// The signed 16-bit sample made of the upper half of a word.
pub open spec fn sample_of(word: u32) -> i16 {
    (word >> 16u32) as i16
}

/// Returns the current state of the generator.
pub fn state(rng: &u32) -> (r: u32)
    ensures
        r == *rng,
{
    *rng
}

/// Restarts the generator from `seed`.
pub fn seed(rng: &mut u32, seed: u32)
    ensures
        *final(rng) == seed,
{
    *rng = seed;
}

/// Advances the generator and returns the new state.
pub fn get_word(rng: &mut u32) -> (r: u32)
    ensures
        r == next_state(*old(rng)),
        *final(rng) == r,
{
    let current: u32 = *rng;
    let product: u32 = current.wrapping_mul(MULTIPLIER);
    let next: u32 = product.wrapping_add(INCREMENT);
    assert(next == next_state(current)) by {
        vstd::arithmetic::div_mod::lemma_add_mod_noop(
            current as int * MULTIPLIER as int,
            INCREMENT as int,
            0x1_0000_0000,
        );
    }
    *rng = next;
    next
}

/// Advances the generator and returns the upper half of the new state as a
/// signed 16-bit sample.
pub fn get_sample(rng: &mut u32) -> (r: i16)
    ensures
        *final(rng) == next_state(*old(rng)),
        r == sample_of(*final(rng)),
{
    let word = get_word(rng);
    (word >> 16u32) as i16
}

/// True when the state is per thread. The state is always a value that the
/// caller owns, so no other thread can reach it.
pub fn is_thread_local() -> (r: bool)
    ensures
        r,
{
    true
}

/// The step of the generator is the affine map `x -> 1664525 x + 1013904223`
/// modulo `2^32`: from `0` it goes to `1013904223`, and two states that differ
/// by `d` step to states that differ by `1664525 d`, modulo `2^32`.
pub proof fn lemma_generator_is_affine(a: u32, b: u32)
    ensures
        next_state(0) == 1013904223,
        (next_state(a) - next_state(b)) % 0x1_0000_0000 == (1664525 * (a - b)) % 0x1_0000_0000,
{
    let m = 0x1_0000_0000int;
    let x = a as int * 1664525 + 1013904223;
    let y = b as int * 1664525 + 1013904223;
    vstd::arithmetic::div_mod::lemma_sub_mod_noop(x, y, m);
    vstd::arithmetic::div_mod::lemma_mod_twice(x, m);
    vstd::arithmetic::div_mod::lemma_mod_twice(y, m);
    vstd::arithmetic::div_mod::lemma_sub_mod_noop(x % m, y % m, m);
    assert(x - y == 1664525 * (a - b)) by (nonlinear_arith)
        requires
            x == a as int * 1664525 + 1013904223,
            y == b as int * 1664525 + 1013904223,
    ;
    vstd::arithmetic::div_mod::lemma_mod_pos_bound(x, m);
    vstd::arithmetic::div_mod::lemma_mod_pos_bound(y, m);
}

/// A sample is the upper half of the word read as a signed 16-bit number:
/// words below `2^31` give `word / 65536`, the others that minus `65536`.
pub proof fn lemma_sample_is_upper_half(word: u32)
    ensures
        sample_of(word) as int == if word < 0x8000_0000 {
            word as int / 65536
        } else {
            word as int / 65536 - 65536
        },
{
    let s = sample_of(word);
    assert(word < 0x8000_0000 ==> s as int == word / 65536) by (bit_vector)
        requires
            s == (word >> 16u32) as i16,
    ;
    assert(word >= 0x8000_0000 ==> s as int == word / 65536 - 65536) by (bit_vector)
        requires
            s == (word >> 16u32) as i16,
    ;
}

/// Drawing `m` words and then `n` more leaves the generator where drawing
/// `m + n` words does: the stream continues without a seam, so a render that
/// reseeds at a known boundary depends on nothing but the seed and the number of
/// draws since.
pub proof fn lemma_stream_composes(state: u32, m: nat, n: nat)
    ensures
        state_after(state_after(state, m), n) == state_after(state, m + n),
    decreases n,
{
    if n > 0 {
        lemma_stream_composes(state, m, (n - 1) as nat);
        assert((m + n - 1) as nat == m + (n - 1) as nat);
    }
}

} // verus!

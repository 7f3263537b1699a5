//! Position on the musical time grid shared by all effects of a chain.

use vstd::prelude::*;

verus! {

/// The position `position + num_samples`, wrapping around at `2^64`.
pub open spec fn advanced(position: u64, num_samples: nat) -> u64 {
    ((position as nat + num_samples) % 0x1_0000_0000_0000_0000) as u64
}

/// Free running sample counter of a transport.
///
/// It does not need to be locked to an external clock, but `reset` or
/// `set_position` can be used to align it with one. The view is the number of
/// samples since the beginning of a bar.
#[derive(Debug, Clone, Copy)]
pub struct Playhead {
    position: u64,
}

impl View for Playhead {
    type V = u64;

    closed spec fn view(&self) -> u64 {
        self.position
    }
}

impl Playhead {
    /// Creates a playhead at the beginning of a bar.
    pub fn new() -> (r: Self)
        ensures
            r@ == 0,
    {
        Playhead { position: 0 }
    }

    /// Restarts the playhead at the beginning of a bar.
    pub fn reset(&mut self)
        ensures
            final(self)@ == 0,
    {
        self.position = 0;
    }

    /// Sets the position as a number of samples since the beginning of a bar.
    pub fn set_position(&mut self, position: u64)
        ensures
            final(self)@ == position,
    {
        self.position = position;
    }

    /// Returns the position as a number of samples since the beginning of a bar.
    pub fn position(&self) -> (r: u64)
        ensures
            r == self@,
    {
        self.position
    }

    /// Moves the playhead forward, wrapping around at `2^64`.
    pub fn advance(&mut self, num_samples: usize)
        ensures
            final(self)@ == advanced(old(self)@, num_samples as nat),
    {
        self.position = self.position.wrapping_add(num_samples as u64);
    }

    /// Returns the number of samples elapsed since the last grid line of a
    /// division that is `length` samples long.
    pub fn samples_since_grid(&self, length: usize) -> (r: usize)
        requires
            length >= 1,
        ensures
            r == self@ % (length as u64),
            r < length,
    {
        let length: u64 = length as u64;
        let since: u64 = self.position % length;
        since as usize
    }
}

/// Advancing adds the number of samples to the position, and wraps around by
/// subtracting `2^64` once the sum does not fit in 64 bits.
pub proof fn lemma_advance_adds(position: u64, num_samples: nat)
    requires
        num_samples <= u64::MAX,
    ensures
        position + num_samples <= u64::MAX ==> advanced(position, num_samples) == position
            + num_samples,
        position + num_samples > u64::MAX ==> advanced(position, num_samples) == position
            + num_samples - 0x1_0000_0000_0000_0000,
{
    let m = 0x1_0000_0000_0000_0000int;
    let x = position as int + num_samples as int;
    if x < m {
        vstd::arithmetic::div_mod::lemma_small_mod(x as nat, m as nat);
    } else {
        vstd::arithmetic::div_mod::lemma_fundamental_div_mod_converse(x, m, 1, x - m);
    }
}

/// Advancing by `a` samples and then by `b` samples lands where advancing by
/// `a + b` samples does, wrapping included.
pub proof fn lemma_advance_composes(position: u64, a: nat, b: nat)
    ensures
        advanced(advanced(position, a), b) == advanced(position, a + b),
{
    let m = 0x1_0000_0000_0000_0000int;
    vstd::arithmetic::div_mod::lemma_add_mod_noop(position as int + a, b as int, m);
    vstd::arithmetic::div_mod::lemma_mod_twice(position as int + a, m);
    vstd::arithmetic::div_mod::lemma_add_mod_noop((position as int + a) % m, b as int, m);
    vstd::arithmetic::div_mod::lemma_mod_pos_bound(position as int + a, m);
}

/// Moving forward by whole divisions keeps the position within the division:
/// advancing by `n` samples moves the grid phase by `n`, modulo the length of
/// the division, as long as the counter does not wrap.
pub proof fn lemma_grid_phase_advances(position: u64, num_samples: nat, length: nat)
    requires
        length >= 1,
        position + num_samples <= u64::MAX,
    ensures
        advanced(position, num_samples) as int % length as int == ((position as int % length as int)
            + num_samples as int) % length as int,
{
    let p = position as int;
    let n = num_samples as int;
    let l = length as int;
    vstd::arithmetic::div_mod::lemma_small_mod(
        (position as nat + num_samples) as nat,
        0x1_0000_0000_0000_0000,
    );
    vstd::arithmetic::div_mod::lemma_add_mod_noop(p, n, l);
    vstd::arithmetic::div_mod::lemma_add_mod_noop(p % l, n, l);
    vstd::arithmetic::div_mod::lemma_mod_twice(p, l);
}

/// Counting one step further moves a position modulo `m` one step on, or back
/// to `0` at the end of the range.
pub proof fn lemma_mod_successor(x: int, m: int)
    requires
        x >= 0,
        m > 0,
    ensures
        x % m + 1 < m ==> (x + 1) % m == x % m + 1,
        x % m + 1 >= m ==> (x + 1) % m == 0,
{
    vstd::arithmetic::div_mod::lemma_fundamental_div_mod(x, m);
    vstd::arithmetic::div_mod::lemma_mod_pos_bound(x, m);
    let q = x / m;
    let r = x % m;
    assert(x == q * m + r) by (nonlinear_arith)
        requires
            x == m * q + r,
    ;
    if r + 1 < m {
        vstd::arithmetic::div_mod::lemma_fundamental_div_mod_converse(x + 1, m, q, r + 1);
    } else {
        assert(x + 1 == (q + 1) * m + 0) by (nonlinear_arith)
            requires
                x == q * m + r,
                r + 1 == m,
        ;
        vstd::arithmetic::div_mod::lemma_fundamental_div_mod_converse(x + 1, m, q + 1, 0);
    }
}

} // verus!

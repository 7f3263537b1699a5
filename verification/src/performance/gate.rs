//! Tempo synced gate pattern, the timing of a trance gate or chopper.
//!
//! A chopper opens on every grid line of a division and stays open for the
//! first `open_samples` samples of it.

use vstd::prelude::*;

use super::playhead::lemma_mod_successor;

verus! {

/// Whether a chopper is open `position` samples after a grid line of a
/// division that is `length` samples long.
pub open spec fn gate_open(position: int, open_samples: int, length: int) -> bool {
    position % length < open_samples
}

/// Returns, for `count` consecutive samples starting `position` samples after a
/// grid line of a division that is `length` samples long, whether a chopper is
/// open: it is open for the first `open_samples` samples of every division.
pub fn gate_pattern(position: usize, open_samples: usize, length: usize, count: usize) -> (r: Vec<
    bool,
>)
    requires
        1 <= length,
        position < length,
    ensures
        r@.len() == count,
        forall|i: int|
            0 <= i < count ==> #[trigger] r@[i] == gate_open(
                position + i,
                open_samples as int,
                length as int,
            ),
{
    let mut pattern: Vec<bool> = Vec::new();
    let mut current = position;
    let mut n: usize = 0;
    proof {
        vstd::arithmetic::div_mod::lemma_small_mod(position as nat, length as nat);
    }
    while n < count
        invariant
            n <= count,
            1 <= length,
            current < length,
            current == (position + n) % (length as int),
            pattern@.len() == n,
            forall|i: int|
                0 <= i < n ==> #[trigger] pattern@[i] == gate_open(
                    position + i,
                    open_samples as int,
                    length as int,
                ),
        decreases count - n,
    {
        pattern.push(current < open_samples);
        proof {
            lemma_mod_successor(position + n, length as int);
        }
        current = current + 1;
        if current >= length {
            current = 0;
        }
        n = n + 1;
    }
    pattern
}

/// The pattern repeats with the division: it is open at a position exactly when
/// it is open one division later.
pub proof fn lemma_gate_repeats(position: int, open_samples: int, length: int)
    requires
        1 <= length,
        0 <= position,
    ensures
        gate_open(position + length, open_samples, length) == gate_open(
            position,
            open_samples,
            length,
        ),
{
    vstd::arithmetic::div_mod::lemma_mod_add_multiples_vanish(position, length);
}

/// Within every division, the chopper is open for exactly the first
/// `open_samples` samples: `k` samples after the `m`-th grid line it is open
/// if and only if `k < open_samples`.
pub proof fn lemma_gate_open_within_division(
    multiple: int,
    offset: int,
    open_samples: int,
    length: int,
)
    requires
        1 <= length,
        0 <= multiple,
        0 <= offset < length,
    ensures
        gate_open(multiple * length + offset, open_samples, length) == (offset < open_samples),
{
    vstd::arithmetic::div_mod::lemma_fundamental_div_mod_converse(
        multiple * length + offset,
        length,
        multiple,
        offset,
    );
}

/// A chopper opens on every grid line as soon as it is open at all.
pub proof fn lemma_gate_opens_on_grid(multiple: int, open_samples: int, length: int)
    requires
        1 <= length,
        0 <= multiple,
        open_samples >= 1,
    ensures
        gate_open(multiple * length, open_samples, length),
{
    vstd::arithmetic::div_mod::lemma_mod_multiples_basic(multiple, length);
}

} // verus!

//! Capture and looping of slices of recorded audio, the core of the beat repeat
//! and reverse effects.
//!
//! While the pad is up, the incoming audio is only recorded. Engaging the pad
//! captures the last complete slice of audio that ends on the previous grid line
//! and then loops it, forwards for a beat repeat and backwards for a reverse,
//! in sync with the transport.

use vstd::prelude::*;

use super::buffer::{copy_vec, history_at, lemma_history_keeps_latest, lemma_push_all_len, push_all, push_history, RecordBuffer};
use super::playhead::lemma_mod_successor;
use super::Division;

verus! {

/// Abstract state of a looper.
pub struct LooperState<T> {
    /// The recorded history, oldest sample first.
    pub history: Seq<T>,
    /// The slice storage; only its first `loop_length` samples are played.
    pub slice: Seq<T>,
    /// Whether a slice is being looped.
    pub active: bool,
    /// The division the current slice was captured for.
    pub division: Division,
    /// Length of the looped slice in samples.
    pub loop_length: nat,
    /// Position of the next sample to play within the loop.
    pub loop_phase: nat,
}

/// A slice length limited to the `1` to `max` range.
pub open spec fn clamp_length(samples: nat, max: nat) -> nat {
    if samples < 1 {
        1
    } else if samples > max {
        max
    } else {
        samples
    }
}

/// `slice` with its first `loop_length` samples replaced by the `loop_length`
/// samples of `history` that end `offset` samples ago.
pub open spec fn captured<T>(history: Seq<T>, slice: Seq<T>, loop_length: nat, offset: nat) -> Seq<T> {
    Seq::new(
        slice.len(),
        |n: int|
            if n < loop_length {
                history[history.len() - offset - loop_length + n]
            } else {
                slice[n]
            },
    )
}

/// The state after the pad was pressed: the slice of the division's length,
/// limited by the slice storage, that ends on the previous grid line is
/// captured, and playback starts at the current position within it.
pub open spec fn engaged<T>(
    s: LooperState<T>,
    division: Division,
    division_samples: nat,
    samples_since_grid: nat,
) -> LooperState<T> {
    let loop_length = clamp_length(division_samples, s.slice.len());
    let offset = samples_since_grid % loop_length;
    LooperState {
        history: s.history,
        slice: captured(s.history, s.slice, loop_length, offset),
        active: true,
        division,
        loop_length,
        loop_phase: offset,
    }
}

/// One sample of forward playback: `input` is recorded, the sample at the loop
/// position is played and the position moves on. At the end of the loop, a
/// fresh slice of live audio is captured when the division has changed.
/// Returns the new state, the output and whether the loop wrapped.
pub open spec fn forward_step<T>(
    s: LooperState<T>,
    input: T,
    division: Division,
    division_samples: nat,
) -> (LooperState<T>, T, bool) {
    let history = push_history(s.history, input);
    let out = s.slice[s.loop_phase as int];
    let phase = s.loop_phase + 1;
    if phase < s.loop_length {
        (
            LooperState {
                history,
                slice: s.slice,
                active: s.active,
                division: s.division,
                loop_length: s.loop_length,
                loop_phase: phase,
            },
            out,
            false,
        )
    } else if division == s.division {
        (
            LooperState {
                history,
                slice: s.slice,
                active: s.active,
                division: s.division,
                loop_length: s.loop_length,
                loop_phase: 0,
            },
            out,
            true,
        )
    } else {
        let loop_length = clamp_length(division_samples, s.slice.len());
        (
            LooperState {
                history,
                slice: captured(history, s.slice, loop_length, 0),
                active: s.active,
                division,
                loop_length,
                loop_phase: 0,
            },
            out,
            true,
        )
    }
}

/// One sample of backward playback: `input` is recorded and the slice is read
/// from its end. At the end of the loop, unless `hold` is set, the slice that
/// just finished recording is captured to be played backwards next. Returns
/// the new state, the output, the distance of the played sample from the
/// nearer end of the slice, and whether the loop wrapped.
pub open spec fn reverse_step<T>(
    s: LooperState<T>,
    input: T,
    hold: bool,
    division: Division,
    division_samples: nat,
) -> (LooperState<T>, T, nat, bool) {
    let history = push_history(s.history, input);
    let position = (s.loop_length - 1 - s.loop_phase) as nat;
    let out = s.slice[position as int];
    let distance = if s.loop_phase < position {
        s.loop_phase
    } else {
        position
    };
    let phase = s.loop_phase + 1;
    if phase < s.loop_length {
        (
            LooperState {
                history,
                slice: s.slice,
                active: s.active,
                division: s.division,
                loop_length: s.loop_length,
                loop_phase: phase,
            },
            out,
            distance,
            false,
        )
    } else if hold {
        (
            LooperState {
                history,
                slice: s.slice,
                active: s.active,
                division: s.division,
                loop_length: s.loop_length,
                loop_phase: 0,
            },
            out,
            distance,
            true,
        )
    } else {
        let loop_length = clamp_length(division_samples, s.slice.len());
        (
            LooperState {
                history,
                slice: captured(history, s.slice, loop_length, 0),
                active: s.active,
                division,
                loop_length,
                loop_phase: 0,
            },
            out,
            distance,
            true,
        )
    }
}

/// Forward playback of a block of inputs, one `forward_step` per sample, with
/// the same `division` throughout. Returns the final state and the outputs.
pub open spec fn forward_run<T>(
    s: LooperState<T>,
    inputs: Seq<T>,
    division: Division,
    division_samples: nat,
) -> (LooperState<T>, Seq<T>)
    decreases inputs.len(),
{
    if inputs.len() == 0 {
        (s, Seq::empty())
    } else {
        let (before, outputs) = forward_run(s, inputs.drop_last(), division, division_samples);
        let (after, out, wrapped) = forward_step(before, inputs.last(), division, division_samples);
        (after, outputs.push(out))
    }
}

/// Backward playback of a block of inputs, one `reverse_step` per sample.
/// Returns the final state and the outputs.
pub open spec fn reverse_run<T>(
    s: LooperState<T>,
    inputs: Seq<T>,
    hold: bool,
    division: Division,
    division_samples: nat,
) -> (LooperState<T>, Seq<T>)
    decreases inputs.len(),
{
    if inputs.len() == 0 {
        (s, Seq::empty())
    } else {
        let (before, outputs) = reverse_run(s, inputs.drop_last(), hold, division, division_samples);
        let (after, out, distance, wrapped) = reverse_step(
            before,
            inputs.last(),
            hold,
            division,
            division_samples,
        );
        (after, outputs.push(out))
    }
}

/// While the pad is held and the division does not change, forward playback
/// loops the captured slice unchanged: the `k`-th output is the sample of the
/// slice `k` places after the starting position, modulo the loop length, and
/// the slice, its length and its division stay as they were.
pub proof fn lemma_forward_loops_slice<T>(
    s: LooperState<T>,
    inputs: Seq<T>,
    division: Division,
    division_samples: nat,
)
    requires
        looper_wf(s),
        s.active,
        s.division == division,
    ensures
        ({
            let (after, outputs) = forward_run(s, inputs, division, division_samples);
            &&& outputs.len() == inputs.len()
            &&& after.slice == s.slice
            &&& after.loop_length == s.loop_length
            &&& after.division == s.division
            &&& after.active
            &&& after.loop_phase == (s.loop_phase + inputs.len()) % s.loop_length
            &&& forall|k: int|
                0 <= k < inputs.len() ==> #[trigger] outputs[k] == s.slice[(s.loop_phase + k)
                    % s.loop_length as int]
        }),
    decreases inputs.len(),
{
    vstd::arithmetic::div_mod::lemma_small_mod(s.loop_phase, s.loop_length);
    if inputs.len() > 0 {
        let rest = inputs.drop_last();
        lemma_forward_loops_slice(s, rest, division, division_samples);
        let (before, outputs) = forward_run(s, rest, division, division_samples);
        lemma_mod_successor((s.loop_phase + rest.len()) as int, s.loop_length as int);
        let (after, all) = forward_run(s, inputs, division, division_samples);
        assert forall|k: int| 0 <= k < inputs.len() implies #[trigger] all[k] == s.slice[(
        s.loop_phase + k) % s.loop_length as int] by {
            if k < rest.len() {
                assert(all[k] == outputs[k]);
            }
        }
    }
}

/// Beat repeat replays the recorded audio: when the pad is pressed on a grid
/// line and held with the division unchanged, the `k`-th output is the sample
/// recorded `L - (k mod L)` samples before the press, `L` being the slice
/// length, so the last complete slice comes back unchanged, again and again.
pub proof fn lemma_repeat_replays_last_slice<T>(
    s: LooperState<T>,
    division: Division,
    division_samples: nat,
    samples_since_grid: nat,
    inputs: Seq<T>,
)
    requires
        looper_wf(s),
        s.slice.len() >= 1,
        samples_since_grid % clamp_length(division_samples, s.slice.len()) == 0,
    ensures
        ({
            let loop_length = clamp_length(division_samples, s.slice.len());
            let (after, outputs) = forward_run(
                engaged(s, division, division_samples, samples_since_grid),
                inputs,
                division,
                division_samples,
            );
            forall|k: int|
                0 <= k < inputs.len() ==> #[trigger] outputs[k] == history_at(
                    s.history,
                    loop_length - k % (loop_length as int),
                )
        }),
{
    let e = engaged(s, division, division_samples, samples_since_grid);
    let loop_length = clamp_length(division_samples, s.slice.len());
    lemma_forward_loops_slice(e, inputs, division, division_samples);
    let (after, outputs) = forward_run(e, inputs, division, division_samples);
    assert forall|k: int| 0 <= k < inputs.len() implies #[trigger] outputs[k] == history_at(
        s.history,
        loop_length - k % (loop_length as int),
    ) by {
        let j = k % (loop_length as int);
        assert(0 <= j < loop_length);
        assert(outputs[k] == e.slice[j]);
    }
}

/// With `hold` set, backward playback loops the captured slice unchanged,
/// back to front: the `k`-th output is the sample of the slice `k` places
/// after the starting position, counted from the end of the slice.
pub proof fn lemma_reverse_hold_loops_slice<T>(
    s: LooperState<T>,
    inputs: Seq<T>,
    division: Division,
    division_samples: nat,
)
    requires
        looper_wf(s),
        s.active,
    ensures
        ({
            let (after, outputs) = reverse_run(s, inputs, true, division, division_samples);
            &&& outputs.len() == inputs.len()
            &&& after.slice == s.slice
            &&& after.loop_length == s.loop_length
            &&& after.division == s.division
            &&& after.loop_phase == (s.loop_phase + inputs.len()) % s.loop_length
            &&& forall|k: int|
                0 <= k < inputs.len() ==> #[trigger] outputs[k] == s.slice[s.loop_length - 1 - (
                s.loop_phase + k) % s.loop_length as int]
        }),
    decreases inputs.len(),
{
    vstd::arithmetic::div_mod::lemma_small_mod(s.loop_phase, s.loop_length);
    if inputs.len() > 0 {
        let rest = inputs.drop_last();
        lemma_reverse_hold_loops_slice(s, rest, division, division_samples);
        let (before, outputs) = reverse_run(s, rest, true, division, division_samples);
        lemma_mod_successor((s.loop_phase + rest.len()) as int, s.loop_length as int);
        let (after, all) = reverse_run(s, inputs, true, division, division_samples);
        assert forall|k: int| 0 <= k < inputs.len() implies #[trigger] all[k] == s.slice[
        s.loop_length - 1 - (s.loop_phase + k) % s.loop_length as int] by {
            if k < rest.len() {
                assert(all[k] == outputs[k]);
            }
        }
    }
}

/// Without `hold`, the slice that just finished recording is played backwards
/// next: at the end of the loop, the first `L` samples of the slice become the
/// last `L` samples recorded, the newest last, `L` being the length of the
/// division limited by the slice storage.
pub proof fn lemma_reverse_recaptures_latest<T>(
    s: LooperState<T>,
    input: T,
    division: Division,
    division_samples: nat,
)
    requires
        looper_wf(s),
        s.active,
        s.loop_phase + 1 == s.loop_length,
    ensures
        ({
            let (after, out, distance, wrapped) = reverse_step(s, input, false, division, division_samples);
            let loop_length = clamp_length(division_samples, s.slice.len());
            &&& wrapped
            &&& after.loop_length == loop_length
            &&& after.loop_phase == 0
            &&& after.division == division
            &&& forall|n: int|
                0 <= n < loop_length ==> #[trigger] after.slice[n] == history_at(
                    after.history,
                    loop_length - n,
                )
        }),
{
}

/// Pressing the pad captures the slice that ends on the previous grid line:
/// with `L` the slice length (the division's length in samples, at least `1`
/// and at most the slice storage) and `o = samples_since_grid % L` the
/// position within the division, the first `L` samples of the slice are the
/// `L` samples recorded up to `o` samples before the press, oldest first, and
/// playback starts at position `o`. The history and the rest of the slice
/// storage are left as they were.
pub proof fn lemma_engage_captures_grid_slice<T>(
    s: LooperState<T>,
    division: Division,
    division_samples: nat,
    samples_since_grid: nat,
)
    requires
        looper_wf(s),
        s.slice.len() >= 1,
    ensures
        ({
            let e = engaged(s, division, division_samples, samples_since_grid);
            let l: nat = if division_samples == 0 {
                1
            } else if division_samples > s.slice.len() {
                s.slice.len()
            } else {
                division_samples
            };
            let o = samples_since_grid % l;
            &&& 1 <= l <= s.slice.len()
            &&& o < l
            &&& e.active
            &&& e.division == division
            &&& e.loop_length == l
            &&& e.loop_phase == o
            &&& e.history == s.history
            &&& e.slice.len() == s.slice.len()
            &&& forall|n: int|
                0 <= n < l ==> #[trigger] e.slice[n] == s.history[s.history.len() - o - l + n]
            &&& forall|n: int| l <= n < s.slice.len() ==> #[trigger] e.slice[n] == s.slice[n]
            &&& looper_wf(e)
        }),
{
    let l = clamp_length(division_samples, s.slice.len());
    vstd::arithmetic::div_mod::lemma_mod_pos_bound(samples_since_grid as int, l as int);
}

/// One sample of forward playback, whatever the division: the input is
/// recorded as the newest sample of the history, the sample of the slice at
/// the current position is played, and the position moves one step on,
/// wrapping to `0` at the end of the loop. When the loop wraps with the
/// division unchanged, or does not wrap, the slice stays as it was; when it
/// wraps with another division, the first `L` samples of the slice become the
/// last `L` samples recorded, the input included, `L` being the new division's
/// length limited to the slice storage.
pub proof fn lemma_forward_step_records_and_plays<T>(
    s: LooperState<T>,
    input: T,
    division: Division,
    division_samples: nat,
)
    requires
        looper_wf(s),
        s.active,
    ensures
        ({
            let (after, out, wrapped) = forward_step(s, input, division, division_samples);
            &&& after.history.len() == s.history.len()
            &&& s.history.len() > 0 ==> after.history == s.history.drop_first().push(input)
            &&& out == s.slice[s.loop_phase as int]
            &&& wrapped == (s.loop_phase + 1 == s.loop_length)
            &&& after.loop_phase == (s.loop_phase + 1) % s.loop_length
            &&& after.active
            &&& after.slice.len() == s.slice.len()
            &&& (!wrapped || division == s.division) ==> {
                &&& after.slice == s.slice
                &&& after.loop_length == s.loop_length
                &&& after.division == s.division
            }
            &&& (wrapped && division != s.division) ==> {
                let l: nat = if division_samples == 0 {
                    1
                } else if division_samples > s.slice.len() {
                    s.slice.len()
                } else {
                    division_samples
                };
                &&& after.division == division
                &&& after.loop_length == l
                &&& forall|n: int|
                    0 <= n < l ==> #[trigger] after.slice[n] == after.history[after.history.len()
                        - l + n]
            }
            &&& looper_wf(after)
        }),
{
    if s.loop_phase + 1 < s.loop_length {
        vstd::arithmetic::div_mod::lemma_small_mod((s.loop_phase + 1) as nat, s.loop_length);
    } else {
        vstd::arithmetic::div_mod::lemma_mod_self_0(s.loop_length as int);
    }
}

/// One sample of backward playback, with or without `hold`: the input is
/// recorded as the newest sample of the history, the slice is played from its
/// end (the sample at `L - 1 - p` for position `p` in a loop of length `L`),
/// the distance returned is that of the played sample from the nearer end of
/// the slice, `min(p, L - 1 - p)`, and the position moves one step on,
/// wrapping to `0` at the end of the loop. With `hold`, or before the end of
/// the loop, the slice stays as it was.
pub proof fn lemma_reverse_step_records_and_plays<T>(
    s: LooperState<T>,
    input: T,
    hold: bool,
    division: Division,
    division_samples: nat,
)
    requires
        looper_wf(s),
        s.active,
    ensures
        ({
            let (after, out, distance, wrapped) = reverse_step(
                s,
                input,
                hold,
                division,
                division_samples,
            );
            let p = s.loop_phase as int;
            let l = s.loop_length as int;
            &&& after.history.len() == s.history.len()
            &&& s.history.len() > 0 ==> after.history == s.history.drop_first().push(input)
            &&& out == s.slice[l - 1 - p]
            &&& distance <= p
            &&& distance <= l - 1 - p
            &&& (distance == p || distance == l - 1 - p)
            &&& wrapped == (p + 1 == l)
            &&& after.loop_phase == (p + 1) % l
            &&& after.active
            &&& after.slice.len() == s.slice.len()
            &&& (!wrapped || hold) ==> {
                &&& after.slice == s.slice
                &&& after.loop_length == s.loop_length
                &&& after.division == s.division
            }
            &&& looper_wf(after)
        }),
{
    if s.loop_phase + 1 < s.loop_length {
        vstd::arithmetic::div_mod::lemma_small_mod((s.loop_phase + 1) as nat, s.loop_length);
    } else {
        vstd::arithmetic::div_mod::lemma_mod_self_0(s.loop_length as int);
    }
}

/// Forward playback keeps recording: after a block of inputs, whatever the
/// divisions, the history is the old one with every input written in order,
/// and the slice storage keeps its length.
pub proof fn lemma_forward_run_records<T>(
    s: LooperState<T>,
    inputs: Seq<T>,
    division: Division,
    division_samples: nat,
)
    requires
        looper_wf(s),
        s.active,
    ensures
        forward_run(s, inputs, division, division_samples).0.history == push_all(
            s.history,
            inputs,
        ),
        forward_run(s, inputs, division, division_samples).0.slice.len() == s.slice.len(),
        forward_run(s, inputs, division, division_samples).1.len() == inputs.len(),
        looper_wf(forward_run(s, inputs, division, division_samples).0),
        forward_run(s, inputs, division, division_samples).0.active,
    decreases inputs.len(),
{
    if inputs.len() > 0 {
        let rest = inputs.drop_last();
        lemma_forward_run_records(s, rest, division, division_samples);
        let before = forward_run(s, rest, division, division_samples).0;
        lemma_forward_step_records_and_plays(before, inputs.last(), division, division_samples);
    }
}

/// Backward playback keeps recording, with or without `hold`: after a block
/// of inputs the history is the old one with every input written in order,
/// and the slice storage keeps its length.
pub proof fn lemma_reverse_run_records<T>(
    s: LooperState<T>,
    inputs: Seq<T>,
    hold: bool,
    division: Division,
    division_samples: nat,
)
    requires
        looper_wf(s),
        s.active,
    ensures
        reverse_run(s, inputs, hold, division, division_samples).0.history == push_all(
            s.history,
            inputs,
        ),
        reverse_run(s, inputs, hold, division, division_samples).0.slice.len() == s.slice.len(),
        reverse_run(s, inputs, hold, division, division_samples).1.len() == inputs.len(),
        looper_wf(reverse_run(s, inputs, hold, division, division_samples).0),
        reverse_run(s, inputs, hold, division, division_samples).0.active,
    decreases inputs.len(),
{
    if inputs.len() > 0 {
        let rest = inputs.drop_last();
        lemma_reverse_run_records(s, rest, hold, division, division_samples);
        let before = reverse_run(s, rest, hold, division, division_samples).0;
        lemma_reverse_step_records_and_plays(
            before,
            inputs.last(),
            hold,
            division,
            division_samples,
        );
    }
}

proof fn lemma_latest_inputs<T>(history: Seq<T>, inputs: Seq<T>, l: nat)
    requires
        history.len() > 0,
        l <= inputs.len(),
        l <= history.len(),
    ensures
        forall|n: int|
            0 <= n < l ==> #[trigger] push_all(history, inputs)[history.len() - l + n]
                == inputs[inputs.len() - l + n],
{
    lemma_history_keeps_latest(history, inputs);
    lemma_push_all_len(history, inputs);
}

/// The audio fed while a beat repeat plays is recorded: after playing a block
/// of at least `L` inputs, pressing the pad again on a grid line captures the
/// last `L` inputs of that block, `L` being the new slice length.
pub proof fn lemma_repeat_records_while_playing<T>(
    s: LooperState<T>,
    inputs: Seq<T>,
    division: Division,
    division_samples: nat,
    next_division: Division,
    next_division_samples: nat,
    samples_since_grid: nat,
)
    requires
        looper_wf(s),
        s.active,
        samples_since_grid % clamp_length(next_division_samples, s.slice.len()) == 0,
        clamp_length(next_division_samples, s.slice.len()) <= inputs.len(),
    ensures
        ({
            let played = forward_run(s, inputs, division, division_samples).0;
            let l = clamp_length(next_division_samples, s.slice.len());
            let e = engaged(
                LooperState { active: false, ..played },
                next_division,
                next_division_samples,
                samples_since_grid,
            );
            forall|n: int| 0 <= n < l ==> #[trigger] e.slice[n] == inputs[inputs.len() - l + n]
        }),
{
    lemma_forward_run_records(s, inputs, division, division_samples);
    let played = forward_run(s, inputs, division, division_samples).0;
    let l = clamp_length(next_division_samples, s.slice.len());
    lemma_engage_captures_grid_slice(
        LooperState { active: false, ..played },
        next_division,
        next_division_samples,
        samples_since_grid,
    );
    lemma_latest_inputs(s.history, inputs, l);
    lemma_push_all_len(s.history, inputs);
    let e = engaged(
        LooperState { active: false, ..played },
        next_division,
        next_division_samples,
        samples_since_grid,
    );
    assert forall|n: int| 0 <= n < l implies #[trigger] e.slice[n] == inputs[inputs.len() - l
        + n] by {
        assert(e.slice[n] == played.history[played.history.len() - 0 - l + n]);
        assert(push_all(s.history, inputs)[s.history.len() - l + n] == inputs[inputs.len() - l
            + n]);
    }
}

/// The audio fed while a reverse plays is recorded, with or without `hold`:
/// after playing a block of at least `L` inputs, pressing the pad again on a
/// grid line captures the last `L` inputs of that block.
pub proof fn lemma_reverse_records_while_playing<T>(
    s: LooperState<T>,
    inputs: Seq<T>,
    hold: bool,
    division: Division,
    division_samples: nat,
    next_division: Division,
    next_division_samples: nat,
    samples_since_grid: nat,
)
    requires
        looper_wf(s),
        s.active,
        samples_since_grid % clamp_length(next_division_samples, s.slice.len()) == 0,
        clamp_length(next_division_samples, s.slice.len()) <= inputs.len(),
    ensures
        ({
            let played = reverse_run(s, inputs, hold, division, division_samples).0;
            let l = clamp_length(next_division_samples, s.slice.len());
            let e = engaged(
                LooperState { active: false, ..played },
                next_division,
                next_division_samples,
                samples_since_grid,
            );
            forall|n: int| 0 <= n < l ==> #[trigger] e.slice[n] == inputs[inputs.len() - l + n]
        }),
{
    lemma_reverse_run_records(s, inputs, hold, division, division_samples);
    let played = reverse_run(s, inputs, hold, division, division_samples).0;
    let l = clamp_length(next_division_samples, s.slice.len());
    lemma_engage_captures_grid_slice(
        LooperState { active: false, ..played },
        next_division,
        next_division_samples,
        samples_since_grid,
    );
    lemma_latest_inputs(s.history, inputs, l);
    lemma_push_all_len(s.history, inputs);
    let e = engaged(
        LooperState { active: false, ..played },
        next_division,
        next_division_samples,
        samples_since_grid,
    );
    assert forall|n: int| 0 <= n < l implies #[trigger] e.slice[n] == inputs[inputs.len() - l
        + n] by {
        assert(e.slice[n] == played.history[played.history.len() - 0 - l + n]);
        assert(push_all(s.history, inputs)[s.history.len() - l + n] == inputs[inputs.len() - l
            + n]);
    }
}

/// Records audio and loops captured slices of it.
///
/// The slice storage is half as long as the recorded history, which bounds the
/// longest slice that can be captured.
#[derive(Debug)]
pub struct SliceLooper<T> {
    buffer: RecordBuffer<T>,
    slice: Vec<T>,
    silence: T,
    active: bool,
    division: Division,
    loop_length: usize,
    loop_phase: usize,
}

impl<T> View for SliceLooper<T> {
    type V = LooperState<T>;

    closed spec fn view(&self) -> LooperState<T> {
        LooperState {
            history: self.buffer@,
            slice: self.slice@,
            active: self.active,
            division: self.division,
            loop_length: self.loop_length as nat,
            loop_phase: self.loop_phase as nat,
        }
    }
}

/// The invariant a looper keeps: the slice storage is half as long as the
/// history, the loop fits in the storage, the position lies within the loop,
/// and a looping looper has a loop of at least one sample.
pub open spec fn looper_wf<T>(s: LooperState<T>) -> bool {
    &&& s.slice.len() == s.history.len() / 2
    &&& s.loop_length <= s.slice.len()
    &&& (s.loop_phase < s.loop_length || (s.loop_length == 0 && s.loop_phase == 0))
    &&& (s.active ==> s.loop_length >= 1)
}

impl<T> SliceLooper<T> {
    /// The looper keeps its invariant, and records silence as it captures it.
    pub closed spec fn wf(&self) -> bool {
        &&& looper_wf(self@)
        &&& self.buffer.silence() == self.silence
    }

    /// The value recorded and captured where there is no audio yet.
    pub closed spec fn silence(&self) -> T {
        self.silence
    }
}

impl<T: Copy> Clone for SliceLooper<T> {
    /// A copy of the looper, in the same state.
    fn clone(&self) -> (r: Self)
        ensures
            r@ == self@,
            r.silence() == self.silence(),
            self.wf() ==> r.wf(),
    {
        SliceLooper {
            buffer: self.buffer.clone(),
            slice: copy_vec(&self.slice),
            silence: self.silence,
            active: self.active,
            division: self.division,
            loop_length: self.loop_length,
            loop_phase: self.loop_phase,
        }
    }
}

impl<T: Copy> SliceLooper<T> {
    /// Creates a looper without any storage, recording `silence` where there is
    /// no audio yet.
    pub fn new(silence: T) -> (r: Self)
        ensures
            r@.history == Seq::<T>::empty(),
            r@.slice == Seq::<T>::empty(),
            !r@.active,
            r@.division == Division::Eighth,
            r@.loop_length == 0,
            r@.loop_phase == 0,
            r.silence() == silence,
            r.wf(),
    {
        SliceLooper {
            buffer: RecordBuffer::new(silence),
            slice: Vec::new(),
            silence,
            active: false,
            division: Division::Eighth,
            loop_length: 0,
            loop_phase: 0,
        }
    }

    /// Allocates a history of `length` samples, at least `8`, and a slice
    /// storage of half that length, all silent, and stops looping.
    pub fn init(&mut self, length: usize)
        ensures
            final(self)@.history == Seq::new(
                if length < 8 { 8 } else { length as nat },
                |k: int| old(self).silence(),
            ),
            final(self)@.slice == Seq::new(
                (if length < 8 { 8 } else { length as nat }) / 2,
                |k: int| old(self).silence(),
            ),
            !final(self)@.active,
            final(self)@.division == old(self)@.division,
            final(self)@.loop_length == 0,
            final(self)@.loop_phase == 0,
            final(self).silence() == old(self).silence(),
            final(self).wf(),
    {
        let size: usize = if length < 8 { 8 } else { length };
        let silence = self.silence;
        let mut buffer = RecordBuffer::new(silence);
        buffer.init(size);
        let half = buffer.len() / 2;
        let mut slice: Vec<T> = Vec::new();
        let mut n: usize = 0;
        while n < half
            invariant
                n <= half,
                slice@.len() == n,
                forall|k: int| 0 <= k < n ==> slice@[k] == silence,
            decreases half - n,
        {
            slice.push(silence);
            n = n + 1;
        }
        let division = self.division;
        *self = SliceLooper {
            buffer,
            slice,
            silence,
            active: false,
            division,
            loop_length: 0,
            loop_phase: 0,
        };
        assert(self@.slice =~= Seq::new(size as nat / 2, |k: int| silence));
    }

    /// Clears the history and the slice to silence and stops looping.
    pub fn reset(&mut self)
        requires
            old(self).wf(),
        ensures
            final(self)@.history == Seq::new(old(self)@.history.len(), |k: int| old(self).silence()),
            final(self)@.slice == Seq::new(old(self)@.slice.len(), |k: int| old(self).silence()),
            !final(self)@.active,
            final(self)@.division == old(self)@.division,
            final(self)@.loop_length == 0,
            final(self)@.loop_phase == 0,
            final(self).silence() == old(self).silence(),
            final(self).wf(),
    {
        self.active = false;
        self.loop_phase = 0;
        self.loop_length = 0;
        self.buffer.reset();
        let silence = self.silence;
        let len = self.slice.len();
        let mut n: usize = 0;
        while n < len
            invariant
                n <= len,
                self.slice@.len() == len,
                len == old(self)@.slice.len(),
                self.silence == silence,
                self.buffer.silence() == silence,
                silence == old(self).silence(),
                self.buffer@ == Seq::new(old(self)@.history.len(), |k: int| silence),
                !self.active,
                self.division == old(self)@.division,
                self.loop_length == 0,
                self.loop_phase == 0,
                forall|k: int| 0 <= k < n ==> self.slice@[k] == silence,
            decreases len - n,
        {
            self.slice[n] = silence;
            n = n + 1;
        }
        assert(self@.slice =~= Seq::new(old(self)@.slice.len(), |k: int| silence));
    }

    /// Returns `true` while a slice is being looped.
    pub fn is_active(&self) -> (r: bool)
        ensures
            r == self@.active,
    {
        self.active
    }

    /// Returns the length of the captured slice in samples.
    pub fn slice_samples(&self) -> (r: usize)
        ensures
            r == self@.loop_length,
    {
        self.loop_length
    }

    /// Returns the position of the next sample to play within the loop.
    pub fn loop_phase(&self) -> (r: usize)
        ensures
            r == self@.loop_phase,
    {
        self.loop_phase
    }

    /// Returns the length of the history in samples.
    pub fn history_len(&self) -> (r: usize)
        ensures
            r == self@.history.len(),
    {
        self.buffer.len()
    }

    /// Returns the slice length for a division that is `division_samples` long,
    /// limited by the slice storage.
    pub fn slice_length(&self, division_samples: usize) -> (r: usize)
        requires
            self@.slice.len() >= 1,
        ensures
            r == clamp_length(division_samples as nat, self@.slice.len()),
    {
        let max = self.slice.len();
        if division_samples < 1 {
            1
        } else if division_samples > max {
            max
        } else {
            division_samples
        }
    }

    /// Captures the slice of `loop_length` samples, limited by the slice
    /// storage, that ends `offset` samples ago.
    fn capture(&mut self, loop_length: usize, offset: usize)
        requires
            old(self).wf(),
            old(self)@.slice.len() >= 1,
            old(self)@.loop_phase == 0,
            offset < clamp_length(loop_length as nat, old(self)@.slice.len()),
        ensures
            final(self)@ == (LooperState {
                slice: captured(
                    old(self)@.history,
                    old(self)@.slice,
                    clamp_length(loop_length as nat, old(self)@.slice.len()),
                    offset as nat,
                ),
                loop_length: clamp_length(loop_length as nat, old(self)@.slice.len()),
                ..old(self)@
            }),
            final(self).silence() == old(self).silence(),
            final(self).wf(),
    {
        let length = self.slice_length(loop_length);
        let ghost history = self.buffer@;
        let len = self.buffer.len();
        let mut n: usize = 0;
        while n < length
            invariant
                n <= length,
                length <= self.slice@.len(),
                self.slice@.len() == old(self)@.slice.len(),
                self.slice@.len() == history.len() / 2,
                offset < length,
                self.buffer@ == history,
                history == old(self)@.history,
                len == history.len(),
                self.silence == old(self).silence(),
                self.buffer.silence() == self.silence,
                self.active == old(self)@.active,
                self.division == old(self)@.division,
                self.loop_length == old(self)@.loop_length,
                self.loop_phase == 0,
                forall|k: int|
                    0 <= k < self.slice@.len() ==> #[trigger] self.slice@[k] == if k < n {
                        history[len - offset - length + k]
                    } else {
                        old(self)@.slice[k]
                    },
            decreases length - n,
        {
            let sample = self.buffer.read(offset + length - n);
            self.slice[n] = sample;
            n = n + 1;
        }
        self.loop_length = length;
        assert(self@.slice =~= captured(history, old(self)@.slice, length as nat, offset as nat));
    }

    /// Presses the pad: captures the slice of the division, `division_samples`
    /// long and limited by the slice storage, that ends on the previous grid
    /// line, `samples_since_grid` samples ago, and starts looping it from the
    /// current position. Returns `false`, changing nothing, while there is no
    /// slice storage.
    pub fn engage(
        &mut self,
        division: Division,
        division_samples: usize,
        samples_since_grid: usize,
    ) -> (r: bool)
        requires
            old(self).wf(),
        ensures
            r == (old(self)@.slice.len() > 0),
            r ==> final(self)@ == engaged(
                old(self)@,
                division,
                division_samples as nat,
                samples_since_grid as nat,
            ),
            !r ==> final(self)@ == old(self)@,
            final(self).silence() == old(self).silence(),
            final(self).wf(),
    {
        if self.slice.len() == 0 {
            return false;
        }
        self.division = division;
        let length = self.slice_length(division_samples);
        let phase = samples_since_grid % length;
        self.loop_phase = 0;
        self.capture(length, phase);
        self.loop_phase = phase;
        self.active = true;
        true
    }

    /// Releases the pad: the looper goes back to only recording.
    pub fn release(&mut self)
        requires
            old(self).wf(),
        ensures
            final(self)@ == (LooperState { active: false, ..old(self)@ }),
            final(self).silence() == old(self).silence(),
            final(self).wf(),
    {
        self.active = false;
    }

    /// Records a block of audio without playing anything.
    pub fn record(&mut self, input: &[T])
        requires
            old(self).wf(),
        ensures
            final(self)@ == (LooperState { history: push_all(old(self)@.history, input@), ..old(self)@ }),
            final(self).silence() == old(self).silence(),
            final(self).wf(),
    {
        let size = input.len();
        let mut n: usize = 0;
        while n < size
            invariant
                n <= size,
                size == input@.len(),
                self@ == (LooperState {
                    history: push_all(old(self)@.history, input@.subrange(0, n as int)),
                    ..old(self)@
                }),
                self.silence == old(self).silence(),
                self.buffer.silence() == self.silence,
            decreases size - n,
        {
            self.buffer.write(input[n]);
            proof {
                assert(input@.subrange(0, n + 1).drop_last() =~= input@.subrange(0, n as int));
            }
            n = n + 1;
        }
        assert(input@.subrange(0, size as int) =~= input@);
        proof {
            lemma_push_all_len(old(self)@.history, input@);
        }
    }

    /// Records `input` and plays the next sample of the loop forwards. At the
    /// end of the loop, a fresh slice of live audio is captured when `division`
    /// differs from the one of the current slice. Returns the played sample
    /// and whether the loop wrapped.
    pub fn step_forward(&mut self, input: T, division: Division, division_samples: usize) -> (r: (
        T,
        bool,
    ))
        requires
            old(self).wf(),
            old(self)@.active,
        ensures
            (final(self)@, r.0, r.1) == forward_step(
                old(self)@,
                input,
                division,
                division_samples as nat,
            ),
            final(self).silence() == old(self).silence(),
            final(self).wf(),
    {
        self.buffer.write(input);
        let out = self.slice[self.loop_phase];
        let next = self.loop_phase + 1;
        if next < self.loop_length {
            self.loop_phase = next;
            (out, false)
        } else {
            self.loop_phase = 0;
            if division != self.division {
                self.division = division;
                let length = self.slice_length(division_samples);
                self.capture(length, 0);
            }
            (out, true)
        }
    }

    /// Records `input` and plays the next sample of the loop backwards. At the
    /// end of the loop, unless `hold` is set, the slice that just finished
    /// recording, of the length of `division`, is captured to be played next.
    /// Returns the played sample, its distance from the nearer end of the
    /// slice, and whether the loop wrapped.
    pub fn step_reverse(
        &mut self,
        input: T,
        hold: bool,
        division: Division,
        division_samples: usize,
    ) -> (r: (T, usize, bool))
        requires
            old(self).wf(),
            old(self)@.active,
        ensures
            (final(self)@, r.0, r.1 as nat, r.2) == reverse_step(
                old(self)@,
                input,
                hold,
                division,
                division_samples as nat,
            ),
            final(self).silence() == old(self).silence(),
            final(self).wf(),
    {
        self.buffer.write(input);
        let position = self.loop_length - 1 - self.loop_phase;
        let out = self.slice[position];
        let distance = if self.loop_phase < position {
            self.loop_phase
        } else {
            position
        };
        let next = self.loop_phase + 1;
        if next < self.loop_length {
            self.loop_phase = next;
            (out, distance, false)
        } else {
            self.loop_phase = 0;
            if !hold {
                self.division = division;
                let length = self.slice_length(division_samples);
                self.capture(length, 0);
            }
            (out, distance, true)
        }
    }
}

} // verus!

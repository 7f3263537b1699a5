# mi-plaits-dsp

Tempo synced live performance effects (beat repeat, reverse, tape stop, gate,
filter sweep, bit crusher, delay) arranged in a chain of slots that are engaged
while a pad is held down, and the 16-bit pseudo random generator they share.

## Layout

- `src/` is the verified library (Verus):
  - `performance/mod.rs`: divisions (lengths in ticks, names, list order) and
    effect kinds.
  - `performance/buffer.rs`: the ring buffer of recorded audio, generic over
    the sample type, with the laws that a read gives back what was written.
  - `performance/looper.rs`: capture of the slice that ends on the previous
    grid line and its forward or backward looping, for beat repeat and reverse.
  - `performance/playhead.rs`: the sample counter of the transport and the
    position within a division.
  - `performance/gate.rs`: the open/closed pattern of the tempo synced gate.
  - `performance/pads.rs`: the pad states of the chain and which presses and
    releases reach the effects.
  - `utils/random.rs`: the linear congruential generator.
- `app/` renders the audio in floating point on top of the library: the
  transport's tempo arithmetic, the effect trait and its implementations, the
  crossfading chain, and a per thread generator state.
- `tests/` exercises the library on concrete values.

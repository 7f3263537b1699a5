//! Circular audio history buffer shared by the buffer based performance effects.

use vstd::prelude::*;

verus! {

/// Position in the ring of the `k`-th oldest sample, when the next write goes to
/// `write_pos`.
pub open spec fn ring_index(write_pos: int, k: int, len: int) -> int {
    if write_pos + k < len {
        write_pos + k
    } else {
        write_pos + k - len
    }
}

/// The history after `sample` was written: the oldest sample drops out and
/// `sample` becomes the newest. An empty history stays empty.
pub open spec fn push_history<T>(history: Seq<T>, sample: T) -> Seq<T> {
    if history.len() == 0 {
        history
    } else {
        history.drop_first().push(sample)
    }
}

/// The history after every sample of `samples` was written, in order.
pub open spec fn push_all<T>(history: Seq<T>, samples: Seq<T>) -> Seq<T>
    decreases samples.len(),
{
    if samples.len() == 0 {
        history
    } else {
        push_history(push_all(history, samples.drop_last()), samples.last())
    }
}

/// A delay limited to the `1` to `len` range.
pub open spec fn clamp_delay(delay: int, len: int) -> int {
    if delay < 1 {
        1
    } else if delay > len {
        len
    } else {
        delay
    }
}

/// The sample written `delay` samples ago in a non-empty history, `delay`
/// taken into the `1` to `len` range: a delay of `1` is the newest sample.
pub open spec fn history_at<T>(history: Seq<T>, delay: int) -> T {
    history[history.len() - clamp_delay(delay, history.len() as int)]
}

/// The delay that `copy_out` reads for the `n`-th sample of its destination.
pub open spec fn copy_delay(delay: int, n: int) -> int {
    if delay > n {
        delay - n
    } else {
        1
    }
}

/// Writing never changes the length of the history.
pub proof fn lemma_push_all_len<T>(history: Seq<T>, samples: Seq<T>)
    ensures
        push_all(history, samples).len() == history.len(),
    decreases samples.len(),
{
    if samples.len() > 0 {
        lemma_push_all_len(history, samples.drop_last());
    }
}

/// Whatever was written, a non-empty history holds the `len` most recent samples
/// of the old history followed by everything written since, oldest first.
pub proof fn lemma_history_keeps_latest<T>(history: Seq<T>, samples: Seq<T>)
    requires
        history.len() > 0,
    ensures
        push_all(history, samples) == (history + samples).subrange(
            samples.len() as int,
            (history.len() + samples.len()) as int,
        ),
    decreases samples.len(),
{
    if samples.len() > 0 {
        let rest = samples.drop_last();
        lemma_history_keeps_latest(history, rest);
        assert(push_all(history, samples) =~= (history + samples).subrange(
            samples.len() as int,
            (history.len() + samples.len()) as int,
        )) by {
            assert((history + rest) =~= (history + samples).drop_last());
        }
    }
}

/// A read gives back what was written: after writing `samples` into a history
/// of at least that length, the read with delay `d` returns the sample written
/// `d` samples ago.
pub proof fn lemma_read_returns_written<T>(history: Seq<T>, samples: Seq<T>, delay: int)
    requires
        1 <= delay <= samples.len(),
        samples.len() <= history.len(),
    ensures
        history_at(push_all(history, samples), delay) == samples[samples.len() - delay],
{
    lemma_history_keeps_latest(history, samples);
}

/// Ring buffer keeping the most recently written samples.
///
/// Delays are expressed in samples counted backwards from the write position, a
/// delay of `1` being the sample that was written last. The view is the history
/// held, oldest sample first.
#[derive(Debug)]
pub struct RecordBuffer<T> {
    line: Vec<T>,
    write_pos: usize,
    silence: T,
}

impl<T> View for RecordBuffer<T> {
    type V = Seq<T>;

    closed spec fn view(&self) -> Seq<T> {
        Seq::new(
            self.line@.len(),
            |k: int| self.line@[ring_index(self.write_pos as int, k, self.line@.len() as int)],
        )
    }
}

impl<T> RecordBuffer<T> {
    #[verifier::type_invariant]
    closed spec fn well_formed(self) -> bool {
        if self.line@.len() == 0 {
            self.write_pos == 0
        } else {
            self.write_pos < self.line@.len()
        }
    }

    /// The value the buffer is filled with when it is cleared, and that a read
    /// of an empty buffer returns.
    pub closed spec fn silence(&self) -> T {
        self.silence
    }
}

/// A copy of `v`, sample for sample.
pub(crate) fn copy_vec<T: Copy>(v: &Vec<T>) -> (r: Vec<T>)
    ensures
        r@ == v@,
{
    let mut r: Vec<T> = Vec::new();
    let mut n: usize = 0;
    while n < v.len()
        invariant
            n <= v@.len(),
            r@ == v@.subrange(0, n as int),
        decreases v@.len() - n,
    {
        r.push(v[n]);
        n = n + 1;
    }
    assert(r@ =~= v@);
    r
}

impl<T: Copy> Clone for RecordBuffer<T> {
    /// A copy of the buffer, holding the same history.
    fn clone(&self) -> (r: Self)
        ensures
            r@ == self@,
            r.silence() == self.silence(),
    {
        proof {
            use_type_invariant(self);
        }
        RecordBuffer { line: copy_vec(&self.line), write_pos: self.write_pos, silence: self.silence }
    }
}

impl<T: Copy> RecordBuffer<T> {
    /// Creates an empty buffer that is cleared to `silence`.
    pub fn new(silence: T) -> (r: Self)
        ensures
            r@ == Seq::<T>::empty(),
            r.silence() == silence,
    {
        RecordBuffer { line: Vec::new(), write_pos: 0, silence }
    }

    /// Allocates the buffer with the given length in samples, at least `4`, and
    /// clears it.
    pub fn init(&mut self, length: usize)
        ensures
            final(self)@ == Seq::new(
                if length < 4 { 4 } else { length as nat },
                |k: int| old(self).silence(),
            ),
            final(self).silence() == old(self).silence(),
    {
        let size: usize = if length < 4 { 4 } else { length };
        let silence = self.silence;
        let mut line: Vec<T> = Vec::new();
        let mut n: usize = 0;
        while n < size
            invariant
                n <= size,
                line@.len() == n,
                forall|k: int| 0 <= k < n ==> line@[k] == silence,
            decreases size - n,
        {
            line.push(silence);
            n = n + 1;
        }
        *self = RecordBuffer { line, write_pos: 0, silence };
        assert(self@ =~= Seq::new(size as nat, |k: int| silence));
    }

    /// Clears the held history to silence, keeping the length.
    pub fn reset(&mut self)
        ensures
            final(self)@ == Seq::new(old(self)@.len(), |k: int| old(self).silence()),
            final(self).silence() == old(self).silence(),
    {
        proof {
            use_type_invariant(&*self);
        }
        let silence = self.silence;
        let len = self.line.len();
        let mut n: usize = 0;
        while n < len
            invariant
                n <= len,
                self.line@.len() == len,
                len == old(self)@.len(),
                self.silence == silence,
                silence == old(self).silence(),
                forall|k: int| 0 <= k < n ==> self.line@[k] == silence,
            decreases len - n,
        {
            proof {
                use_type_invariant(&*self);
            }
            self.line[n] = silence;
            n = n + 1;
        }
        self.write_pos = 0;
        assert(self@ =~= Seq::new(old(self)@.len(), |k: int| silence));
    }

    /// Returns the length of the buffer in samples.
    pub fn len(&self) -> (r: usize)
        ensures
            r == self@.len(),
    {
        self.line.len()
    }

    /// Returns `true` while the buffer holds no sample.
    pub fn is_empty(&self) -> (r: bool)
        ensures
            r == (self@.len() == 0),
    {
        self.line.len() == 0
    }

    /// Writes `sample` as the newest sample, dropping the oldest one. Nothing is
    /// written to an empty buffer.
    pub fn write(&mut self, sample: T)
        ensures
            final(self)@ == push_history(old(self)@, sample),
            final(self).silence() == old(self).silence(),
    {
        proof {
            use_type_invariant(&*self);
        }
        let len = self.line.len();
        if len == 0 {
            return;
        }
        let pos = self.write_pos;
        let next: usize = if pos + 1 >= len { 0 } else { pos + 1 };
        let ghost old_line = self.line@;
        self.line[pos] = sample;
        self.write_pos = next;
        assert(self@ =~= old(self)@.drop_first().push(sample)) by {
            assert forall|k: int| 0 <= k < len implies #[trigger] self@[k]
                == old(self)@.drop_first().push(sample)[k] by {
                if k < len - 1 {
                    assert(ring_index(next as int, k, len as int) == ring_index(
                        pos as int,
                        k + 1,
                        len as int,
                    ));
                }
            }
        }
    }

    /// Returns the sample written `delay` samples ago, the delay taken into the
    /// `1` to `len` range. An empty buffer reads as silence.
    pub fn read(&self, delay: usize) -> (r: T)
        ensures
            self@.len() == 0 ==> r == self.silence(),
            self@.len() > 0 ==> r == history_at(self@, delay as int),
    {
        proof {
            use_type_invariant(self);
        }
        let len = self.line.len();
        if len == 0 {
            return self.silence;
        }
        let delay: usize = if delay < 1 {
            1
        } else if delay > len {
            len
        } else {
            delay
        };
        let pos = self.write_pos;
        let index: usize = if pos >= delay { pos - delay } else { pos + (len - delay) };
        assert(index == ring_index(pos as int, len - delay, len as int));
        self.line[index]
    }

    /// Copies `dest.len()` consecutive samples into `dest`, `dest[0]` being the
    /// sample written `delay` samples ago.
    pub fn copy_out(&self, delay: usize, dest: &mut [T])
        ensures
            final(dest)@.len() == old(dest)@.len(),
            forall|n: int|
                0 <= n < old(dest)@.len() ==> #[trigger] final(dest)@[n] == if self@.len() == 0 {
                    self.silence()
                } else {
                    history_at(self@, copy_delay(delay as int, n))
                },
    {
        let size = dest.len();
        let mut n: usize = 0;
        while n < size
            invariant
                n <= size,
                dest@.len() == size,
                size == old(dest)@.len(),
                forall|k: int|
                    0 <= k < n ==> #[trigger] dest@[k] == if self@.len() == 0 {
                        self.silence()
                    } else {
                        history_at(self@, copy_delay(delay as int, k))
                    },
            decreases size - n,
        {
            let d: usize = if delay > n { delay - n } else { 1 };
            dest[n] = self.read(d);
            n = n + 1;
        }
    }
}

} // verus!

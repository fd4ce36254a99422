//! The ring buffer that carries interleaved stereo samples from a plugin
//! filter's capture stream to its playback stream.

use vstd::prelude::*;

verus! {

/// Interleaved stereo: two samples per frame.
pub const NUM_CHANNELS: usize = 2;

/// The position after `p`, wrapping to 0 after `usize::MAX`.
pub open spec fn next_position(p: usize) -> usize {
    if p == usize::MAX { 0 } else { (p + 1) as usize }
}

/// The position `k` frames after `p`, wrapping like `usize::wrapping_add`.
pub open spec fn position_after(p: usize, k: nat) -> usize
    decreases k,
{
    if k == 0 { p } else { next_position(position_after(p, (k - 1) as nat)) }
}

/// The frames written and not yet read (`write_pos.wrapping_sub(read_pos)`).
pub open spec fn available_frames(write_pos: usize, read_pos: usize) -> nat {
    if write_pos >= read_pos {
        (write_pos - read_pos) as nat
    } else {
        (write_pos - read_pos + usize::MAX + 1) as nat
    }
}

/// Index in the buffer of the left sample of the frame at position `p`.
pub open spec fn slot_index(p: usize, capacity: usize) -> int {
    (p % capacity) as int * 2
}

/// The buffer after the first `k` frames of `samples` were written from
/// position `w` on, each frame to the slot of its position.
pub open spec fn written<T>(buf: Seq<T>, w: usize, capacity: usize, samples: Seq<T>, k: nat) -> Seq<T>
    decreases k,
{
    if k == 0 {
        buf
    } else {
        let before = written(buf, w, capacity, samples, (k - 1) as nat);
        let idx = slot_index(position_after(w, (k - 1) as nat), capacity);
        before.update(idx, samples[2 * (k - 1)]).update(idx + 1, samples[2 * (k - 1) + 1])
    }
}

proof fn lemma_frame_index(p: usize, capacity: usize, i: usize, len: usize)
    requires
        capacity > 0,
        i < len / 2,
    ensures
        p % capacity < capacity,
        (p % capacity) * 2 + 1 < 2 * capacity,
        2 * i + 1 < len,
{
    vstd::arithmetic::div_mod::lemma_mod_bound(p as int, capacity as int);
    vstd::arithmetic::div_mod::lemma_fundamental_div_mod(len as int, 2);
}

proof fn lemma_position_without_wrap(p: usize, k: nat)
    requires
        p + k <= usize::MAX,
    ensures
        position_after(p, k) == p + k,
    decreases k,
{
    if k > 0 {
        lemma_position_without_wrap(p, (k - 1) as nat);
    }
}

proof fn lemma_distinct_slots(w: usize, i: int, j: int, capacity: usize)
    requires
        capacity > 0,
        0 <= i < j,
        j - i < capacity,
        w + j <= usize::MAX,
    ensures
        (w + i) as usize % capacity != (w + j) as usize % capacity,
        (w + i) as usize % capacity < capacity,
{
    let a = (w + i) as int;
    let b = (w + j) as int;
    let c = capacity as int;
    vstd::arithmetic::div_mod::lemma_fundamental_div_mod(a, c);
    vstd::arithmetic::div_mod::lemma_fundamental_div_mod(b, c);
    vstd::arithmetic::div_mod::lemma_mod_bound(a, c);
    vstd::arithmetic::div_mod::lemma_mod_bound(b, c);
    if a % c == b % c {
        assert(b - a == c * (b / c) - c * (a / c));
        assert(c * (b / c) - c * (a / c) == c * (b / c - a / c)) by (nonlinear_arith);
        if b / c - a / c >= 1 {
            assert(c * (b / c - a / c) >= c) by (nonlinear_arith)
                requires
                    b / c - a / c >= 1,
                    c > 0;
        } else {
            assert(c * (b / c - a / c) <= 0) by (nonlinear_arith)
                requires
                    b / c - a / c <= 0,
                    c > 0;
        }
    }
}

/// Frames written to an empty buffer come back in the order they were
/// written, as long as no more frames are written than there are slots
/// (and the positions do not wrap around `usize::MAX`): right after the
/// write exactly those frames are available, and the slot of the `i`-th
/// position holds the `i`-th frame.
pub proof fn law_written_frames_read_back_in_order<T>(buf: Seq<T>, w: usize, capacity: usize, samples: Seq<T>, k: nat)
    requires
        capacity > 0,
        buf.len() == 2 * capacity,
        k <= capacity,
        2 * k <= samples.len(),
        w + k <= usize::MAX,
    ensures
        available_frames(position_after(w, k), w) == k,
        written(buf, w, capacity, samples, k).len() == buf.len(),
        forall|i: int| 0 <= i < k ==> {
            let idx = slot_index(#[trigger] position_after(w, i as nat), capacity);
            &&& written(buf, w, capacity, samples, k)[idx] == samples[2 * i]
            &&& written(buf, w, capacity, samples, k)[idx + 1] == samples[2 * i + 1]
        },
    decreases k,
{
    lemma_position_without_wrap(w, k);
    if k > 0 {
        let k1 = (k - 1) as nat;
        law_written_frames_read_back_in_order(buf, w, capacity, samples, k1);
        let before = written(buf, w, capacity, samples, k1);
        let last = slot_index(position_after(w, k1), capacity);
        lemma_position_without_wrap(w, k1);
        vstd::arithmetic::div_mod::lemma_mod_bound((w + k1) as int, capacity as int);
        assert forall|i: int| 0 <= i < k implies {
            let idx = slot_index(#[trigger] position_after(w, i as nat), capacity);
            &&& written(buf, w, capacity, samples, k)[idx] == samples[2 * i]
            &&& written(buf, w, capacity, samples, k)[idx + 1] == samples[2 * i + 1]
        } by {
            lemma_position_without_wrap(w, i as nat);
            if i < k1 {
                lemma_distinct_slots(w, i, k1 as int, capacity);
                assert(before[slot_index(position_after(w, i as nat), capacity)] == samples[2 * i]);
            }
        }
    }
}

/// A fixed-size buffer of interleaved stereo frames: writes go to the slot
/// of the write position and reads come from the slot of the read
/// position; a reader that finds too little data gets silence.
#[derive(Debug)]
pub struct AudioRingBuffer<T> {
    buffer: Vec<T>,
    write_pos: usize,
    read_pos: usize,
    capacity_frames: usize,
    silence: T,
}

impl<T: Copy> AudioRingBuffer<T> {
    /// The samples held, two per frame slot.
    pub closed spec fn slots(&self) -> Seq<T> {
        self.buffer@
    }

    /// The position of the next frame to write.
    pub closed spec fn write_position(&self) -> usize {
        self.write_pos
    }

    /// The position of the next frame to read.
    pub closed spec fn read_position(&self) -> usize {
        self.read_pos
    }

    /// The number of frame slots.
    pub closed spec fn capacity(&self) -> usize {
        self.capacity_frames
    }

    /// The value that fills missing frames.
    pub closed spec fn silence_value(&self) -> T {
        self.silence
    }

    /// The buffer holds two samples per slot, and nothing was ever written
    /// to a buffer without slots.
    pub closed spec fn wf(&self) -> bool {
        &&& self.buffer@.len() == 2 * self.capacity_frames
        &&& 2 * self.capacity_frames <= usize::MAX
        &&& (self.capacity_frames == 0 ==> self.write_pos == self.read_pos)
    }

    /// A buffer of `capacity_frames` frame slots, all silent.
    pub fn new(capacity_frames: usize, silence: T) -> (r: Self)
        requires
            2 * capacity_frames <= usize::MAX,
        ensures
            r.wf(),
            r.capacity() == capacity_frames,
            r.slots() == Seq::new((2 * capacity_frames) as nat, |_i: int| silence),
            r.write_position() == 0,
            r.read_position() == 0,
            r.silence_value() == silence,
    {
        let mut buffer: Vec<T> = Vec::new();
        let n = capacity_frames * 2;
        let mut i: usize = 0;
        while i < n
            invariant
                i <= n,
                n == 2 * capacity_frames,
                buffer@ == Seq::new(i as nat, |_j: int| silence),
            decreases n - i,
        {
            buffer.push(silence);
            proof {
                assert(buffer@ =~= Seq::new((i + 1) as nat, |_j: int| silence));
            }
            i += 1;
        }
        AudioRingBuffer { buffer, write_pos: 0, read_pos: 0, capacity_frames, silence }
    }

    /// Writes the whole frames of `samples` (a trailing odd sample is
    /// ignored), overwriting the oldest slots when the buffer is full.
    pub fn write(&mut self, samples: &[T])
        requires
            old(self).wf(),
            old(self).capacity() > 0 || samples@.len() < 2,
        ensures
            final(self).wf(),
            final(self).slots() == written(old(self).slots(), old(self).write_position(), old(self).capacity(),
                samples@, samples@.len() / 2),
            final(self).write_position() == position_after(old(self).write_position(), samples@.len() / 2),
            final(self).read_position() == old(self).read_position(),
            final(self).capacity() == old(self).capacity(),
            final(self).silence_value() == old(self).silence_value(),
    {
        let frames = samples.len() / 2;
        let ghost buf0 = self.buffer@;
        let ghost w0 = self.write_pos;
        let mut i: usize = 0;
        while i < frames
            invariant
                i <= frames,
                frames == samples@.len() / 2,
                frames > 0 ==> self.capacity_frames > 0,
                self.buffer@.len() == 2 * self.capacity_frames,
                2 * self.capacity_frames <= usize::MAX,
                self.buffer@ == written(buf0, w0, self.capacity_frames, samples@, i as nat),
                self.write_pos == position_after(w0, i as nat),
                self.capacity_frames == old(self).capacity_frames,
                self.read_pos == old(self).read_pos,
                self.silence == old(self).silence,
            decreases frames - i,
        {
            proof {
                lemma_frame_index(self.write_pos, self.capacity_frames, i, samples.len());
            }
            let idx = (self.write_pos % self.capacity_frames) * 2;
            self.buffer.set(idx, samples[i * 2]);
            self.buffer.set(idx + 1, samples[i * 2 + 1]);
            self.write_pos = self.write_pos.wrapping_add(1);
            i += 1;
        }
    }

    /// Reads up to `samples.len() / 2` frames into `samples`, filling the
    /// frames that were not available with silence; returns the number of
    /// frames read.
    pub fn read(&mut self, samples: &mut [T]) -> (n: usize)
        requires
            old(self).wf(),
        ensures
            final(self).wf(),
            n == (if old(samples)@.len() / 2 <= available_frames(old(self).write_position(), old(self).read_position()) {
                old(samples)@.len() / 2
            } else {
                available_frames(old(self).write_position(), old(self).read_position())
            }),
            final(self).read_position() == position_after(old(self).read_position(), n as nat),
            final(self).write_position() == old(self).write_position(),
            final(self).slots() == old(self).slots(),
            final(self).capacity() == old(self).capacity(),
            final(self).silence_value() == old(self).silence_value(),
            final(samples)@.len() == old(samples)@.len(),
            forall|i: int| 0 <= i < n ==> {
                let idx = slot_index(position_after(old(self).read_position(), i as nat), old(self).capacity());
                &&& #[trigger] final(samples)@[2 * i] == old(self).slots()[idx]
                &&& final(samples)@[2 * i + 1] == old(self).slots()[idx + 1]
            },
            forall|i: int| n <= i < old(samples)@.len() / 2 ==> {
                &&& #[trigger] final(samples)@[2 * i] == old(self).silence_value()
                &&& final(samples)@[2 * i + 1] == old(self).silence_value()
            },
            forall|j: int| 2 * (old(samples)@.len() / 2) <= j < old(samples)@.len() ==> #[trigger] final(samples)@[j]
                == old(samples)@[j],
    {
        let requested_frames = samples.len() / 2;
        let available = self.write_pos.wrapping_sub(self.read_pos);
        let frames_to_read = if requested_frames < available { requested_frames } else { available };
        let ghost r0 = self.read_pos;
        let ghost s0 = samples@;
        proof {
            if self.capacity_frames == 0 {
                assert(available == 0);
            }
        }
        let mut i: usize = 0;
        while i < frames_to_read
            invariant
                i <= frames_to_read,
                frames_to_read <= requested_frames,
                requested_frames == s0.len() / 2,
                frames_to_read > 0 ==> self.capacity_frames > 0,
                self.buffer@.len() == 2 * self.capacity_frames,
                2 * self.capacity_frames <= usize::MAX,
                self.buffer == old(self).buffer,
                self.capacity_frames == old(self).capacity_frames,
                self.write_pos == old(self).write_pos,
                self.silence == old(self).silence,
                self.read_pos == position_after(r0, i as nat),
                samples@.len() == s0.len(),
                forall|k: int| 0 <= k < i ==> {
                    let idx = slot_index(position_after(r0, k as nat), self.capacity_frames);
                    &&& #[trigger] samples@[2 * k] == self.buffer@[idx]
                    &&& samples@[2 * k + 1] == self.buffer@[idx + 1]
                },
                forall|j: int| 2 * i <= j < s0.len() ==> #[trigger] samples@[j] == s0[j],
            decreases frames_to_read - i,
        {
            proof {
                lemma_frame_index(self.read_pos, self.capacity_frames, i, samples.len());
            }
            let idx = (self.read_pos % self.capacity_frames) * 2;
            let ghost prev = samples@;
            samples[i * 2] = self.buffer[idx];
            samples[i * 2 + 1] = self.buffer[idx + 1];
            proof {
                assert(samples@ == prev.update(2 * i, self.buffer@[idx as int]).update(2 * i + 1, self.buffer@[idx + 1]));
                assert(idx == slot_index(position_after(r0, i as nat), self.capacity_frames));
            }
            self.read_pos = self.read_pos.wrapping_add(1);
            i += 1;
            proof {
                assert forall|k: int| 0 <= k < i implies {
                    let kidx = slot_index(position_after(r0, k as nat), self.capacity_frames);
                    &&& #[trigger] samples@[2 * k] == self.buffer@[kidx]
                    &&& samples@[2 * k + 1] == self.buffer@[kidx + 1]
                } by {
                    if k < i - 1 {
                        assert(samples@[2 * k] == prev[2 * k]);
                        assert(samples@[2 * k + 1] == prev[2 * k + 1]);
                    }
                }
            }
        }
        let mut j = frames_to_read;
        while j < requested_frames
            invariant
                frames_to_read <= j <= requested_frames,
                requested_frames == s0.len() / 2,
                samples@.len() == s0.len(),
                self.buffer == old(self).buffer,
                self.silence == old(self).silence,
                self.capacity_frames == old(self).capacity_frames,
                self.buffer@.len() == 2 * self.capacity_frames,
                frames_to_read > 0 ==> self.capacity_frames > 0,
                forall|k: int| 0 <= k < frames_to_read ==> {
                    let idx = slot_index(position_after(r0, k as nat), self.capacity_frames);
                    &&& #[trigger] samples@[2 * k] == self.buffer@[idx]
                    &&& samples@[2 * k + 1] == self.buffer@[idx + 1]
                },
                forall|k: int| frames_to_read <= k < j ==> {
                    &&& #[trigger] samples@[2 * k] == self.silence
                    &&& samples@[2 * k + 1] == self.silence
                },
                forall|m: int| 2 * j <= m < s0.len() ==> #[trigger] samples@[m] == s0[m],
            decreases requested_frames - j,
        {
            proof {
                lemma_frame_index(0, 1, j, samples.len());
            }
            let ghost prev = samples@;
            samples[j * 2] = self.silence;
            samples[j * 2 + 1] = self.silence;
            proof {
                assert(samples@ == prev.update(2 * j, self.silence).update(2 * j + 1, self.silence));
                assert forall|k: int| 0 <= k < frames_to_read implies {
                    let kidx = slot_index(position_after(r0, k as nat), self.capacity_frames);
                    &&& #[trigger] samples@[2 * k] == self.buffer@[kidx]
                    &&& samples@[2 * k + 1] == self.buffer@[kidx + 1]
                } by {
                    assert(samples@[2 * k] == prev[2 * k]);
                    assert(samples@[2 * k + 1] == prev[2 * k + 1]);
                }
                assert forall|k: int| frames_to_read <= k < j + 1 implies {
                    &&& #[trigger] samples@[2 * k] == self.silence
                    &&& samples@[2 * k + 1] == self.silence
                } by {
                    if k < j {
                        assert(samples@[2 * k] == prev[2 * k]);
                        assert(samples@[2 * k + 1] == prev[2 * k + 1]);
                    }
                }
            }
            j += 1;
        }
        frames_to_read
    }

    /// The frames written and not yet read.
    pub fn available(&self) -> (r: usize)
        ensures
            r == available_frames(self.write_position(), self.read_position()),
    {
        self.write_pos.wrapping_sub(self.read_pos)
    }
}

} // verus!

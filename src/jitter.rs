//! The playback queue between the network receiver and the audio output.

use vstd::prelude::*;
use crate::mixer::{mono_taken, upmix, upmixed};

verus! {

/// Above this many queued samples an append trims the queue.
pub const HIGH_WATERMARK: usize = 8192;

/// How many of the newest samples a trim keeps.
pub const LOW_WATERMARK: usize = 4096;

/// What the queue holds after `incoming` is appended to `queued`: everything,
/// unless that is more than the high watermark, in which case only the newest
/// low-watermark samples.
pub open spec fn after_append(queued: Seq<i16>, incoming: Seq<i16>) -> Seq<i16> {
    let all = queued + incoming;
    if all.len() > HIGH_WATERMARK {
        all.subrange(all.len() - LOW_WATERMARK, all.len() as int)
    } else {
        all
    }
}

/// A mono sample queue that absorbs the timing variance between packet
/// arrival and playback.
pub struct JitterBuffer {
    samples: Vec<i16>,
}

impl View for JitterBuffer {
    type V = Seq<i16>;

    closed spec fn view(&self) -> Seq<i16> {
        self.samples@
    }
}

/// Appends `src[from..to]` to `out`.
fn push_range(out: &mut Vec<i16>, src: &[i16], from: usize, to: usize)
    requires
        from <= to <= src@.len(),
    ensures
        final(out)@ == old(out)@ + src@.subrange(from as int, to as int),
{
    let mut j: usize = from;
    while j < to
        invariant
            from <= j <= to <= src@.len(),
            out@ == old(out)@ + src@.subrange(from as int, j as int),
        decreases to - j,
    {
        out.push(src[j]);
        j = j + 1;
        assert(out@ =~= old(out)@ + src@.subrange(from as int, j as int));
    }
}

impl JitterBuffer {
    #[verifier::type_invariant]
    spec fn bounded(&self) -> bool {
        self.samples@.len() <= HIGH_WATERMARK
    }

    /// An empty queue.
    pub fn new() -> (r: JitterBuffer)
        ensures
            r@ == Seq::<i16>::empty(),
    {
        JitterBuffer { samples: Vec::new() }
    }

    /// Number of queued samples; never more than the high watermark.
    pub fn len(&self) -> (r: usize)
        ensures
            r == self@.len(),
            r <= HIGH_WATERMARK,
    {
        proof {
            use_type_invariant(self);
        }
        self.samples.len()
    }

    /// The queued samples, oldest first.
    pub fn samples(&self) -> (r: &[i16])
        ensures
            r@ == self@,
    {
        self.samples.as_slice()
    }

    /// Appends received samples at the tail, then trims from the head down to
    /// the low watermark if the queue has grown past the high watermark.
    pub fn append(&mut self, incoming: &[i16])
        ensures
            final(self)@ == after_append(old(self)@, incoming@),
            final(self)@.len() <= HIGH_WATERMARK,
    {
        proof {
            use_type_invariant(&*self);
        }
        let queued = self.samples.len();
        let n = incoming.len();
        let ghost all = self@ + incoming@;
        let mut next: Vec<i16> = Vec::new();
        if n > HIGH_WATERMARK - queued {
            if n >= LOW_WATERMARK {
                push_range(&mut next, incoming, n - LOW_WATERMARK, n);
                assert(next@ =~= all.subrange(all.len() - LOW_WATERMARK, all.len() as int));
            } else {
                let keep = LOW_WATERMARK - n;
                push_range(&mut next, self.samples.as_slice(), queued - keep, queued);
                push_range(&mut next, incoming, 0, n);
                assert(next@ =~= all.subrange(all.len() - LOW_WATERMARK, all.len() as int));
            }
        } else {
            push_range(&mut next, self.samples.as_slice(), 0, queued);
            push_range(&mut next, incoming, 0, n);
            assert(next@ =~= all);
        }
        *self = JitterBuffer { samples: next };
    }

    /// Takes the next output frame of `frame_len` samples over `channels`
    /// channels: the oldest queued samples, each repeated across its channels,
    /// leave the queue, and whatever they do not cover is silence.
    pub fn drain_frame(&mut self, frame_len: usize, channels: usize) -> (r: Vec<i16>)
        requires
            channels >= 1,
        ensures
            r@ == upmixed(old(self)@, frame_len as nat, channels as nat),
            final(self)@ == old(self)@.subrange(
                mono_taken(old(self)@.len(), frame_len as nat, channels as nat) as int,
                old(self)@.len() as int,
            ),
    {
        proof {
            use_type_invariant(&*self);
        }
        let out = upmix(self.samples.as_slice(), frame_len, channels);
        let per_channel = frame_len / channels;
        let total = self.samples.len();
        let taken = if total < per_channel {
            total
        } else {
            per_channel
        };
        let mut rest: Vec<i16> = Vec::new();
        push_range(&mut rest, self.samples.as_slice(), taken, total);
        assert(rest@ =~= old(self)@.subrange(taken as int, total as int));
        *self = JitterBuffer { samples: rest };
        out
    }
}

/// An append that takes the queue past the high watermark leaves exactly the
/// low watermark of samples, the newest ones, in arrival order.
pub proof fn lemma_trim_keeps_newest(queued: Seq<i16>, incoming: Seq<i16>)
    requires
        queued.len() + incoming.len() > HIGH_WATERMARK,
    ensures
        after_append(queued, incoming).len() == LOW_WATERMARK,
        after_append(queued, incoming) == (queued + incoming).subrange(
            (queued.len() + incoming.len()) - LOW_WATERMARK,
            (queued.len() + incoming.len()) as int,
        ),
{
}

/// Draining a frame from an empty queue yields silence of the requested length.
pub proof fn lemma_drain_empty_is_silence(frame_len: nat, ch: nat)
    requires
        ch >= 1,
    ensures
        upmixed(Seq::<i16>::empty(), frame_len, ch) == Seq::new(frame_len, |i: int| 0i16),
{
    assert(upmixed(Seq::<i16>::empty(), frame_len, ch) =~= Seq::new(frame_len, |i: int| 0i16));
}

} // verus!

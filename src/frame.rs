use vstd::prelude::*;

verus! {

/// The line terminator; two in a row end a frame.
pub const NEWLINE: u8 = 10;

/// Splits a byte stream into frames, read left to right. The result is the
/// frames completed so far and the bytes of the frame still being assembled.
/// A frame ends at the first blank line (two newlines in a row); neither
/// newline of the terminator is part of the frame.
pub open spec fn scan(s: Seq<u8>) -> (Seq<Seq<u8>>, Seq<u8>)
    decreases s.len(),
{
    if s.len() == 0 {
        (seq![], seq![])
    } else {
        let (frames, pending) = scan(s.drop_last());
        let b = s.last();
        if b == NEWLINE && pending.len() > 0 && pending.last() == NEWLINE {
            (frames.push(pending.drop_last()), seq![])
        } else {
            (frames, pending.push(b))
        }
    }
}

/// The frames that the whole stream `s` holds.
pub open spec fn frames_of(s: Seq<u8>) -> Seq<Seq<u8>> {
    scan(s).0
}

/// The unterminated tail of the stream `s`.
pub open spec fn tail_of(s: Seq<u8>) -> Seq<u8> {
    scan(s).1
}

/// The stream `s` can be read with an accumulator of `max` bytes: each byte,
/// the newlines that end a frame included, is taken in while the
/// accumulator holds fewer than `max` bytes.
pub open spec fn fits(s: Seq<u8>, max: nat) -> bool
    decreases s.len(),
{
    s.len() == 0 || (fits(s.drop_last(), max) && tail_of(s.drop_last()).len() < max)
}

pub open spec fn views(v: Seq<Vec<u8>>) -> Seq<Seq<u8>> {
    v.map_values(|f: Vec<u8>| f@)
}

#[derive(Debug, Clone, Copy, PartialEq, Eq, Structural)]
pub enum FrameError {
    /// The frame being assembled, with its terminator, does not fit in the
    /// reader's maximum size.
    FrameTooLarge,
}

/// Turns a stream of byte chunks into frames, keeping the unterminated tail
/// between calls.
pub struct FrameReader {
    pending: Vec<u8>,
    max_size: usize,
    /// Every byte the reader has taken in.
    received: Ghost<Seq<u8>>,
    /// Every frame the reader has returned.
    emitted: Ghost<Seq<Seq<u8>>>,
}

impl FrameReader {
    pub closed spec fn received(&self) -> Seq<u8> {
        self.received@
    }

    pub closed spec fn emitted(&self) -> Seq<Seq<u8>> {
        self.emitted@
    }

    pub closed spec fn pending(&self) -> Seq<u8> {
        self.pending@
    }

    pub closed spec fn max_size(&self) -> nat {
        self.max_size as nat
    }

    /// The frames handed out and the tail kept are exactly what the bytes
    /// taken in hold, and the tail stays within the maximum size.
    /// The frames returned and the tail kept are exactly what the bytes
    /// taken in hold, and the tail stays within the maximum size.
    pub open spec fn wf(&self) -> bool {
        &&& fits(self.received(), self.max_size())
        &&& self.emitted() == frames_of(self.received())
        &&& self.pending() == tail_of(self.received())
        &&& self.pending().len() <= self.max_size()
    }

    pub fn new(max_size: usize) -> (r: FrameReader)
        ensures
            r.wf(),
            r.max_size() == max_size,
            r.received() == Seq::<u8>::empty(),
            r.emitted() == Seq::<Seq<u8>>::empty(),
    {
        FrameReader {
            pending: Vec::new(),
            max_size,
            received: Ghost(Seq::empty()),
            emitted: Ghost(Seq::empty()),
        }
    }

    /// Number of bytes of the unterminated tail.
    pub fn pending_len(&self) -> (r: usize)
        ensures
            r == self.pending().len(),
    {
        self.pending.len()
    }

    /// Takes in the next chunk of the stream and returns the frames that it
    /// completes, in order. Where a byte would not fit in the accumulator,
    /// the chunk is taken in up to that byte, the frames completed before it
    /// are still returned, and the status is `FrameTooLarge`.
    pub fn push(&mut self, chunk: &[u8]) -> (r: (Vec<Vec<u8>>, Result<(), FrameError>))
        requires
            old(self).wf(),
        ensures
            final(self).wf(),
            final(self).max_size() == old(self).max_size(),
            final(self).emitted() == old(self).emitted() + views(r.0@),
            fits(old(self).received() + chunk@, old(self).max_size()) <==> r.1 is Ok,
            r.1 is Ok ==> final(self).received() == old(self).received() + chunk@,
            r.1 is Err ==> {
                let all = old(self).received() + chunk@;
                let k = final(self).received().len();
                &&& old(self).received().len() <= k < all.len()
                &&& final(self).received() == all.subrange(0, k as int)
                &&& !fits(all.subrange(0, k + 1 as int), old(self).max_size())
            },
    {
        let ghost start = self.received@;
        let mut out: Vec<Vec<u8>> = Vec::new();
        let mut i: usize = 0;
        while i < chunk.len()
            invariant
                self.wf(),
                self.max_size == old(self).max_size,
                i <= chunk@.len(),
                start == old(self).received(),
                self.received@ == start + chunk@.subrange(0, i as int),
                self.emitted@ == old(self).emitted() + views(out@),
            decreases chunk.len() - i,
        {
            let b = chunk[i];
            let ghost before = self.received@;
            let ghost next = before.push(b);
            assert(next.drop_last() =~= before);
            assert(next =~= start + chunk@.subrange(0, i + 1));
            let n = self.pending.len();
            if n >= self.max_size {
                proof {
                    let all = start + chunk@;
                    assert(!fits(next, self.max_size as nat));
                    assert(all.subrange(0, start.len() + i + 1) =~= next);
                    assert(all.subrange(0, start.len() + i) =~= before);
                    if fits(all, self.max_size as nat) {
                        lemma_fits_prefix(all, (start.len() + i + 1) as nat, self.max_size as nat);
                    }
                }
                return (out, Err(FrameError::FrameTooLarge));
            }
            if b == NEWLINE && n > 0 && self.pending[n - 1] == NEWLINE {
                self.pending.pop();
                let mut frame: Vec<u8> = Vec::new();
                std::mem::swap(&mut frame, &mut self.pending);
                proof {
                    assert(views(out@.push(frame)) =~= views(out@).push(frame@));
                }
                out.push(frame);
            } else {
                self.pending.push(b);
            }
            proof {
                self.received@ = next;
                self.emitted@ = frames_of(next);
            }
            i = i + 1;
        }
        proof {
            assert(chunk@.subrange(0, chunk@.len() as int) =~= chunk@);
        }
        (out, Ok(()))
    }
}

/// Whatever fits, fits on every prefix.
pub proof fn lemma_fits_prefix(s: Seq<u8>, k: nat, max: nat)
    requires
        fits(s, max),
        k <= s.len(),
    ensures
        fits(s.subrange(0, k as int), max),
    decreases s.len() - k,
{
    if k < s.len() {
        lemma_fits_prefix(s, (k + 1) as nat, max);
        let t = s.subrange(0, k + 1 as int);
        assert(t.drop_last() =~= s.subrange(0, k as int));
    } else {
        assert(s.subrange(0, k as int) =~= s);
    }
}

/// Framing does not depend on where the stream was cut into reads: two
/// readers that took in the same bytes, in whatever chunks, have returned
/// the same frames and keep the same unterminated tail.
pub proof fn lemma_chunking_irrelevant(a: FrameReader, b: FrameReader)
    requires
        a.wf(),
        b.wf(),
        a.received() == b.received(),
    ensures
        a.emitted() == b.emitted(),
        a.pending() == b.pending(),
{
}

/// More bytes never change the frames already found: the frames of `a`
/// begin the frames of `a + b`.
pub proof fn lemma_frames_extend(a: Seq<u8>, b: Seq<u8>)
    ensures
        frames_of(a).len() <= frames_of(a + b).len(),
        frames_of(a + b).subrange(0, frames_of(a).len() as int) == frames_of(a),
    decreases b.len(),
{
    if b.len() == 0 {
        assert(a + b =~= a);
        assert(frames_of(a).subrange(0, frames_of(a).len() as int) =~= frames_of(a));
    } else {
        lemma_frames_extend(a, b.drop_last());
        assert((a + b).drop_last() =~= a + b.drop_last());
        let k = frames_of(a).len() as int;
        let fs = frames_of(a + b.drop_last());
        assert(frames_of(a + b).subrange(0, k) =~= fs.subrange(0, k));
    }
}

/// On a stream that a reader of maximum size `max` accepts, every frame
/// with its two terminating newlines fits in `max` bytes, and the tail never
/// holds more than `max` bytes. So a frame longer than `max - 2` bytes is
/// refused with `FrameTooLarge`.
pub proof fn lemma_frames_bounded(s: Seq<u8>, max: nat)
    requires
        fits(s, max),
    ensures
        forall|k: int| 0 <= k < frames_of(s).len() ==> #[trigger] frames_of(s)[k].len() + 2 <= max,
        tail_of(s).len() <= max,
    decreases s.len(),
{
    if s.len() > 0 {
        lemma_frames_bounded(s.drop_last(), max);
        let (fs, p) = scan(s.drop_last());
        assert forall|k: int| 0 <= k < frames_of(s).len() implies #[trigger] frames_of(s)[k].len()
            + 2 <= max by {
            if k < fs.len() {
                assert(frames_of(s)[k] == frames_of(s.drop_last())[k]);
            } else {
                assert(p.len() < max);
            }
        }
    }
}

} // verus!

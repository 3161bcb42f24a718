//! Buffering of audio samples into the fixed-width chunks that a voice model reads.

use vstd::prelude::*;

verus! {

/// Samples per chunk handed to the voice model (32 ms at 16 kHz).
pub const CHUNK_SAMPLES: usize = 512;

/// All chunks' samples, in order.
pub open spec fn flatten_chunks(c: Seq<Vec<i16>>) -> Seq<i16>
    decreases c.len(),
{
    if c.len() == 0 {
        Seq::empty()
    } else {
        flatten_chunks(c.drop_last()) + c.last()@
    }
}

/// Every chunk holds exactly [`CHUNK_SAMPLES`] samples.
pub open spec fn full_chunks(c: Seq<Vec<i16>>) -> bool {
    forall|i: int| 0 <= i < c.len() ==> (#[trigger] c[i])@.len() == CHUNK_SAMPLES
}

/// Samples received but not yet handed out in a full chunk.
pub struct SampleChunker {
    buffer: Vec<i16>,
}

impl View for SampleChunker {
    type V = Seq<i16>;

    closed spec fn view(&self) -> Seq<i16> {
        self.buffer@
    }
}

impl SampleChunker {
    /// A chunker with no pending samples.
    pub fn new() -> (r: SampleChunker)
        ensures
            r@ == Seq::<i16>::empty(),
    {
        SampleChunker { buffer: Vec::new() }
    }

    /// Fewer than a chunk's worth of samples are pending.
    pub closed spec fn wf(&self) -> bool {
        self.buffer@.len() < CHUNK_SAMPLES
    }

    /// Appends `samples` to the pending ones and hands out every full chunk, in order;
    /// what is left stays pending.
    pub fn push_samples(&mut self, samples: &[i16]) -> (chunks: Vec<Vec<i16>>)
        requires
            old(self).wf(),
        ensures
            final(self).wf(),
            full_chunks(chunks@),
            flatten_chunks(chunks@) + final(self)@ == old(self)@ + samples@,
    {
        let mut chunks: Vec<Vec<i16>> = Vec::new();
        let mut k: usize = 0;
        proof {
            assert(flatten_chunks(chunks@) + self.buffer@ =~= old(self)@ + samples@.take(0));
        }
        while k < samples.len()
            invariant
                k <= samples@.len(),
                self.buffer@.len() < CHUNK_SAMPLES,
                full_chunks(chunks@),
                flatten_chunks(chunks@) + self.buffer@ == old(self)@ + samples@.take(k as int),
            decreases samples@.len() - k,
        {
            let x = samples[k];
            self.buffer.push(x);
            proof {
                assert(samples@.take(k as int + 1) =~= samples@.take(k as int).push(x));
                assert(old(self)@ + samples@.take(k as int + 1) =~= (old(self)@ + samples@.take(k as int)).push(x));
            }
            if self.buffer.len() == CHUNK_SAMPLES {
                let ghost prev = chunks@;
                let mut full: Vec<i16> = Vec::new();
                std::mem::swap(&mut full, &mut self.buffer);
                chunks.push(full);
                proof {
                    assert(chunks@.drop_last() =~= prev);
                    assert(self.buffer@ =~= Seq::<i16>::empty());
                }
            }
            k = k + 1;
        }
        proof {
            assert(samples@.take(samples@.len() as int) =~= samples@);
        }
        chunks
    }

    /// The last, partial chunk at the end of the stream, padded with zero samples to
    /// [`CHUNK_SAMPLES`]; none if nothing is pending.
    pub fn finish(self) -> (r: Option<Vec<i16>>)
        requires
            self.wf(),
        ensures
            self@.len() == 0 ==> r.is_none(),
            self@.len() > 0 ==> r.is_some() && r.unwrap()@ == self@ + Seq::new(
                (CHUNK_SAMPLES - self@.len()) as nat,
                |i: int| 0i16,
            ),
    {
        if self.buffer.len() == 0 {
            return None;
        }
        let ghost pending = self.buffer@;
        let mut chunk = self.buffer;
        while chunk.len() < CHUNK_SAMPLES
            invariant
                pending.len() <= chunk@.len() <= CHUNK_SAMPLES,
                chunk@ == pending + Seq::new((chunk@.len() - pending.len()) as nat, |i: int| 0i16),
            decreases CHUNK_SAMPLES - chunk@.len(),
        {
            chunk.push(0);
            proof {
                assert(chunk@ =~= pending + Seq::new((chunk@.len() - pending.len()) as nat, |i: int| 0i16));
            }
        }
        Some(chunk)
    }
}

} // verus!

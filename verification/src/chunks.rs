use vstd::prelude::*;

use crate::error::IoError;
use crate::stream::ByteSource;

verus! {

/// A lazy, non-restartable producer of byte chunks, consumed strictly in
/// order: each call yields the next chunk, or `None` once the sequence is
/// exhausted, and stays exhausted from then on.
///
/// The sequence is modelled by the chunks it has yielded so far. `fuel`
/// bounds how much of it is left: it shrinks with every yield of a finite
/// sequence, and with every yield of an empty chunk even of an endless
/// one, so a consumer skipping empty chunks can bound its search for
/// data.
pub trait ChunkSequence: Sized {
    /// Well-formedness of the sequence's state.
    spec fn inv(&self) -> bool;

    /// Every chunk this sequence has yielded so far, oldest first.
    spec fn yielded(&self) -> Seq<Seq<u8>>;

    /// Whether the sequence has signalled exhaustion.
    spec fn done(&self) -> bool;

    /// Every chunk this sequence will ever yield, first to last, when
    /// that is a fixed finite list; `None` for a sequence without one.
    /// Constant over the sequence's whole life.
    spec fn chunk_contents(&self) -> Option<Seq<Seq<u8>>>;

    /// A sequence with fixed contents that has signalled exhaustion has
    /// yielded exactly those chunks.
    proof fn lemma_done_yielded(&self)
        requires
            self.inv(),
            self.done(),
            self.chunk_contents() is Some,
        ensures
            self.chunk_contents() == Some(self.yielded()),
    ;

    /// Whether only finitely many chunks remain.
    spec fn finite(&self) -> bool;

    /// Termination measure on the rest of the sequence.
    spec fn fuel(&self) -> nat;

    /// Yield the next chunk, or `None` when the sequence is exhausted.
    fn next_chunk(&mut self) -> (r: Option<Vec<u8>>)
        requires
            old(self).inv(),
        ensures
            final(self).inv(),
            final(self).finite() == old(self).finite(),
            final(self).chunk_contents() == old(self).chunk_contents(),
            old(self).done() ==> r is None,
            match r {
                Some(c) => {
                    &&& final(self).yielded() == old(self).yielded().push(c@)
                    &&& ((old(self).finite() || c@.len() == 0) ==> final(self).fuel() < old(
                        self,
                    ).fuel())
                },
                None => final(self).done() && final(self).yielded() == old(self).yielded(),
            },
    ;
}

/// A chunk sequence over a vector of chunks, yielded in order.
pub struct VecChunks {
    pub chunks: Vec<Vec<u8>>,
    pub pos: usize,
}

impl VecChunks {
    /// A sequence that will yield the chunks of `chunks`, in order.
    pub fn new(chunks: Vec<Vec<u8>>) -> (r: VecChunks)
        ensures
            r.inv(),
            r.yielded() == Seq::<Seq<u8>>::empty(),
            r.chunk_contents() == Some(chunks@.map_values(|c: Vec<u8>| c@)),
            r.finite(),
    {
        let r = VecChunks { chunks, pos: 0 };
        proof {
            assert(r.yielded() =~= Seq::<Seq<u8>>::empty());
        }
        r
    }
}

impl ChunkSequence for VecChunks {
    open spec fn inv(&self) -> bool {
        self.pos <= self.chunks.len()
    }

    open spec fn yielded(&self) -> Seq<Seq<u8>> {
        self.chunks@.take(self.pos as int).map_values(|c: Vec<u8>| c@)
    }

    open spec fn done(&self) -> bool {
        self.pos == self.chunks.len()
    }

    open spec fn chunk_contents(&self) -> Option<Seq<Seq<u8>>> {
        Some(self.chunks@.map_values(|c: Vec<u8>| c@))
    }

    proof fn lemma_done_yielded(&self) {
        assert(self.chunks@.take(self.pos as int) =~= self.chunks@);
    }

    open spec fn finite(&self) -> bool {
        true
    }

    open spec fn fuel(&self) -> nat {
        (self.chunks.len() - self.pos) as nat
    }

    fn next_chunk(&mut self) -> (r: Option<Vec<u8>>) {
        if self.pos < self.chunks.len() {
            let src = &self.chunks[self.pos];
            let mut c: Vec<u8> = Vec::new();
            let mut i: usize = 0;
            while i < src.len()
                invariant
                    i <= src@.len(),
                    c@ == src@.take(i as int),
                decreases src@.len() - i,
            {
                c.push(src[i]);
                proof {
                    assert(c@ =~= src@.take(i + 1));
                }
                i += 1;
            }
            proof {
                assert(c@ =~= self.chunks@[self.pos as int]@);
            }
            self.pos = self.pos + 1;
            proof {
                assert(self.yielded() =~= old(self).yielded().push(c@));
            }
            Some(c)
        } else {
            None
        }
    }
}

/// Exposes a lazy sequence of byte chunks as a single pull-based byte
/// stream: the `ByteSource` it implements reassembles, in order, exactly
/// the bytes of the chunks the sequence yields.
///
/// At most one chunk is active at a time, together with an offset into
/// it; the active chunk always has at least one unread byte, or no chunk
/// is held and the next read pulls a new one. Empty chunks are skipped
/// silently: a read returns 0 bytes only once the sequence itself is
/// exhausted.
pub struct IterReader<S> {
    pub seq: S,
    pub curr: Option<Vec<u8>>,
    pub off: usize,
    pub handed: Ghost<Seq<u8>>,
}

impl<S: ChunkSequence> IterReader<S> {
    /// The unread remainder of the active chunk.
    pub open spec fn pending(&self) -> Seq<u8> {
        match self.curr {
            Some(c) => c@.skip(self.off as int),
            None => Seq::<u8>::empty(),
        }
    }

    /// A reader over the fresh chunk sequence `seq`.
    pub fn new(seq: S) -> (r: IterReader<S>)
        requires
            seq.inv(),
            seq.yielded() == Seq::<Seq<u8>>::empty(),
        ensures
            r.inv(),
            r.consumed() == Seq::<u8>::empty(),
            r.seq == seq,
            r.reliable(),
            r.finite() == seq.finite(),
    {
        let r = IterReader { seq, curr: None, off: 0, handed: Ghost(Seq::<u8>::empty()) };
        proof {
            assert(r.handed@ + r.pending() =~= r.seq.yielded().flatten());
        }
        r
    }
}

impl<S: ChunkSequence> ByteSource for IterReader<S> {
    open spec fn inv(&self) -> bool {
        &&& self.seq.inv()
        &&& (match self.curr {
            Some(c) => self.off < c@.len(),
            None => true,
        })
        &&& self.handed@ + self.pending() == self.seq.yielded().flatten()
    }

    open spec fn consumed(&self) -> Seq<u8> {
        self.handed@
    }

    open spec fn done(&self) -> bool {
        self.seq.done() && self.curr is None
    }

    open spec fn contents(&self) -> Option<Seq<u8>> {
        match self.seq.chunk_contents() {
            Some(cs) => Some(cs.flatten()),
            None => None,
        }
    }

    proof fn lemma_done_consumed(&self) {
        self.seq.lemma_done_yielded();
        assert(self.handed@ =~= self.handed@ + self.pending());
    }

    open spec fn reliable(&self) -> bool {
        true
    }

    open spec fn finite(&self) -> bool {
        self.seq.finite()
    }

    open spec fn fuel(&self) -> nat {
        self.seq.fuel()
    }

    open spec fn fuel_minor(&self) -> nat {
        self.pending().len()
    }

    fn read(&mut self, buf: &mut Vec<u8>) -> (r: Result<usize, IoError>) {
        loop
            invariant
                self.inv(),
                buf@ == old(buf)@,
                buf@.len() > 0,
                self.handed == old(self).handed,
                self.seq.finite() == old(self).seq.finite(),
                self.seq.chunk_contents() == old(self).seq.chunk_contents(),
                old(self).finite() ==> (self.seq.fuel() < old(self).seq.fuel() || *self == *old(
                    self,
                )),
            decreases self.seq.fuel(),
        {
            if self.curr.is_none() {
                let ghost pre = self.seq.yielded();
                proof {
                    assert(self.handed@ =~= pre.flatten());
                }
                let nxt = self.seq.next_chunk();
                match nxt {
                    None => {
                        proof {
                            assert(self.consumed() =~= old(self).consumed() + buf@.take(0));
                        }
                        return Ok(0);
                    },
                    Some(c) => {
                        proof {
                            pre.lemma_flatten_push(c@);
                            assert(self.seq.yielded().flatten() =~= self.handed@ + c@);
                        }
                        if c.len() == 0 {
                            proof {
                                assert(self.handed@ + self.pending() =~= self.seq.yielded(
                                ).flatten());
                            }
                        } else {
                            self.curr = Some(c);
                            self.off = 0;
                            proof {
                                assert(self.pending() =~= self.curr.unwrap()@);
                                assert(self.handed@ + self.pending() =~= self.seq.yielded(
                                ).flatten());
                            }
                        }
                    },
                }
            }
            if self.curr.is_some() {
                let ghost at_serve = *self;
                let c = self.curr.take().unwrap();
                let clen = c.len();
                let avail = clen - self.off;
                let n = if avail < buf.len() {
                    avail
                } else {
                    buf.len()
                };
                let mut i: usize = 0;
                while i < n
                    invariant
                        i <= n,
                        1 <= n,
                        clen == c@.len(),
                        self.off + n <= clen,
                        n <= buf@.len(),
                        buf@.len() == old(buf)@.len(),
                        buf@ == old(buf)@.map(
                            |j: int, b: u8|
                                if 0 <= j < i {
                                    c@[self.off + j]
                                } else {
                                    b
                                },
                        ),
                    decreases n - i,
                {
                    buf.set(i, c[self.off + i]);
                    assert(buf@ =~= old(buf)@.map(
                        |j: int, b: u8|
                            if 0 <= j < i + 1 {
                                c@[self.off + j]
                            } else {
                                b
                            },
                    ));
                    i += 1;
                }
                let ghost fresh = c@.subrange(self.off as int, self.off + n);
                proof {
                    assert(buf@.take(n as int) =~= fresh);
                }
                let new_off = self.off + n;
                if new_off == c.len() {
                    self.off = 0;
                } else {
                    self.curr = Some(c);
                    self.off = new_off;
                }
                self.handed = Ghost(self.handed@ + fresh);
                proof {
                    assert(self.pending() =~= at_serve.pending().skip(n as int));
                    assert(self.handed@ + self.pending() =~= at_serve.handed@
                        + at_serve.pending());
                    assert(self.consumed() =~= old(self).consumed() + buf@.take(n as int));
                    assert(self.pending().len() < at_serve.pending().len());
                }
                return Ok(n);
            }
        }
    }
}

} // verus!

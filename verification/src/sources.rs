use vstd::prelude::*;

use crate::error::IoError;
use crate::stream::ByteSource;

verus! {

/// A finite, in-memory byte source: hands out the bytes of `data` in
/// order, then signals end of stream.
pub struct BytesSource {
    pub data: Vec<u8>,
    pub pos: usize,
}

impl BytesSource {
    /// A source that will hand out exactly the bytes of `data`.
    pub fn new(data: Vec<u8>) -> (r: BytesSource)
        ensures
            r.inv(),
            r.contents() == Some(data@),
            r.consumed() == Seq::<u8>::empty(),
            r.reliable(),
            r.finite(),
    {
        BytesSource { data, pos: 0 }
    }
}

impl ByteSource for BytesSource {
    open spec fn inv(&self) -> bool {
        self.pos <= self.data.len()
    }

    open spec fn consumed(&self) -> Seq<u8> {
        self.data@.take(self.pos as int)
    }

    open spec fn done(&self) -> bool {
        self.pos == self.data.len()
    }

    open spec fn contents(&self) -> Option<Seq<u8>> {
        Some(self.data@)
    }

    proof fn lemma_done_consumed(&self) {
        assert(self.data@.take(self.pos as int) =~= self.data@);
    }

    open spec fn reliable(&self) -> bool {
        true
    }

    open spec fn finite(&self) -> bool {
        true
    }

    open spec fn fuel(&self) -> nat {
        (self.data.len() - self.pos) as nat
    }

    open spec fn fuel_minor(&self) -> nat {
        0
    }

    fn read(&mut self, buf: &mut Vec<u8>) -> (r: Result<usize, IoError>) {
        let avail = self.data.len() - self.pos;
        let n = if avail < buf.len() {
            avail
        } else {
            buf.len()
        };
        let mut i: usize = 0;
        while i < n
            invariant
                self == old(self),
                i <= n,
                n <= buf.len(),
                self.pos + n <= self.data.len(),
                buf.len() == old(buf).len(),
                buf@ == old(buf)@.map(
                    |j: int, b: u8|
                        if 0 <= j < i {
                            self.data@[self.pos + j]
                        } else {
                            b
                        },
                ),
            decreases n - i,
        {
            buf.set(i, self.data[self.pos + i]);
            assert(buf@ =~= old(buf)@.map(
                |j: int, b: u8|
                    if 0 <= j < i + 1 {
                        self.data@[self.pos + j]
                    } else {
                        b
                    },
            ));
            i += 1;
        }
        proof {
            assert(buf@.take(n as int) =~= self.data@.subrange(
                self.pos as int,
                self.pos + n,
            ));
        }
        self.pos = self.pos + n;
        proof {
            assert(self.data@.take(self.pos as int) =~= old(self).data@.take(
                old(self).pos as int,
            ) + self.data@.subrange(old(self).pos as int, self.pos as int));
        }
        Ok(n)
    }
}

/// An endless source: every read fills the whole buffer with `byte` and
/// never fails or ends.
pub struct RepeatSource {
    pub byte: u8,
    pub given: Ghost<Seq<u8>>,
}

impl RepeatSource {
    /// A source that repeats `byte` forever.
    pub fn new(byte: u8) -> (r: RepeatSource)
        ensures
            r.inv(),
            r.byte == byte,
            r.consumed() == Seq::<u8>::empty(),
            r.reliable(),
            !r.finite(),
    {
        RepeatSource { byte, given: Ghost(Seq::<u8>::empty()) }
    }
}

impl ByteSource for RepeatSource {
    open spec fn inv(&self) -> bool {
        forall|i: int| 0 <= i < self.given@.len() ==> self.given@[i] == self.byte
    }

    open spec fn consumed(&self) -> Seq<u8> {
        self.given@
    }

    open spec fn done(&self) -> bool {
        false
    }

    open spec fn contents(&self) -> Option<Seq<u8>> {
        None
    }

    proof fn lemma_done_consumed(&self) {
    }

    open spec fn reliable(&self) -> bool {
        true
    }

    open spec fn finite(&self) -> bool {
        false
    }

    open spec fn fuel(&self) -> nat {
        0
    }

    open spec fn fuel_minor(&self) -> nat {
        0
    }

    fn read(&mut self, buf: &mut Vec<u8>) -> (r: Result<usize, IoError>) {
        let n = buf.len();
        let mut i: usize = 0;
        while i < n
            invariant
                self == old(self),
                i <= n,
                n == buf@.len(),
                buf@.len() == old(buf)@.len(),
                forall|j: int| 0 <= j < i ==> buf@[j] == self.byte,
            decreases n - i,
        {
            buf.set(i, self.byte);
            i += 1;
        }
        self.given = Ghost(self.given@ + buf@.take(n as int));
        Ok(n)
    }
}

/// One scripted outcome of a read.
#[derive(Clone, Copy, Debug, PartialEq, Eq, Structural)]
pub enum ReadStep {
    /// Hand out one byte.
    Give(u8),
    /// Report a transient interruption.
    Interrupt,
    /// Report a fatal failure.
    Fail,
}

/// The bytes the `Give` steps of a script hand out, in order.
pub open spec fn script_bytes(steps: Seq<ReadStep>) -> Seq<u8>
    decreases steps.len(),
{
    if steps.len() == 0 {
        Seq::<u8>::empty()
    } else {
        script_bytes(steps.drop_last()) + (match steps.last() {
            ReadStep::Give(b) => seq![b],
            _ => Seq::<u8>::empty(),
        })
    }
}

/// A source that follows a script of read outcomes step by step, then
/// signals end of stream; each `Give` step hands out a single byte.
pub struct ScriptedSource {
    pub steps: Vec<ReadStep>,
    pub pos: usize,
}

impl ScriptedSource {
    /// A source that will play out `steps`, in order.
    pub fn new(steps: Vec<ReadStep>) -> (r: ScriptedSource)
        ensures
            r.inv(),
            r.steps@ == steps@,
            r.consumed() == Seq::<u8>::empty(),
            r.contents() == Some(script_bytes(steps@)),
            r.finite(),
    {
        let r = ScriptedSource { steps, pos: 0 };
        proof {
            assert(r.steps@.take(0) =~= Seq::<ReadStep>::empty());
        }
        r
    }
}

impl ByteSource for ScriptedSource {
    open spec fn inv(&self) -> bool {
        self.pos <= self.steps.len()
    }

    open spec fn consumed(&self) -> Seq<u8> {
        script_bytes(self.steps@.take(self.pos as int))
    }

    open spec fn done(&self) -> bool {
        self.pos == self.steps.len()
    }

    open spec fn contents(&self) -> Option<Seq<u8>> {
        Some(script_bytes(self.steps@))
    }

    proof fn lemma_done_consumed(&self) {
        assert(self.steps@.take(self.pos as int) =~= self.steps@);
    }

    open spec fn reliable(&self) -> bool {
        forall|i: int| self.pos <= i < self.steps@.len() ==> self.steps@[i] is Give
    }

    open spec fn finite(&self) -> bool {
        true
    }

    open spec fn fuel(&self) -> nat {
        (self.steps.len() - self.pos) as nat
    }

    open spec fn fuel_minor(&self) -> nat {
        0
    }

    fn read(&mut self, buf: &mut Vec<u8>) -> (r: Result<usize, IoError>) {
        if self.pos == self.steps.len() {
            proof {
                assert(self.consumed() =~= self.consumed() + buf@.take(0));
            }
            return Ok(0);
        }
        let step = self.steps[self.pos];
        self.pos = self.pos + 1;
        proof {
            assert(self.steps@.take(self.pos as int).drop_last() =~= self.steps@.take(
                old(self).pos as int,
            ));
            assert(self.steps@.take(self.pos as int).last() == self.steps@[old(self).pos as int]);
        }
        match step {
            ReadStep::Give(b) => {
                buf.set(0, b);
                proof {
                    assert(buf@.take(1) =~= seq![b]);
                    assert(self.consumed() =~= old(self).consumed() + buf@.take(1));
                }
                Ok(1)
            },
            ReadStep::Interrupt => {
                proof {
                    assert(self.consumed() =~= old(self).consumed());
                }
                Err(IoError::Interrupted)
            },
            ReadStep::Fail => {
                proof {
                    assert(self.consumed() =~= old(self).consumed());
                }
                Err(IoError::Failed)
            },
        }
    }
}

} // verus!

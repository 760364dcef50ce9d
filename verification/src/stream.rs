use vstd::prelude::*;

use crate::error::IoError;

verus! {

/// Lexicographic order on a pair of fuel measures: the pair
/// `(major_new, minor_new)` is strictly below `(major_old, minor_old)`.
pub open spec fn fuel_below(
    major_new: nat,
    minor_new: nat,
    major_old: nat,
    minor_old: nat,
) -> bool {
    major_new < major_old || (major_new == major_old && minor_new < minor_old)
}

/// A pull-based producer of bytes.
///
/// A source is modelled by the bytes it has handed out so far (`consumed`)
/// and by whether it has signalled end of stream (`done`). A read pulls up
/// to `buf.len()` bytes into the front of `buf` and returns the count
/// actually read; a count of 0 means end of stream; an `Interrupted` error
/// means no bytes were transferred and the caller should retry immediately.
pub trait ByteSource: Sized {
    /// Well-formedness of the source's state.
    spec fn inv(&self) -> bool;

    /// Every byte this source has handed out so far, oldest first.
    spec fn consumed(&self) -> Seq<u8>;

    /// Whether the source has signalled end of stream.
    spec fn done(&self) -> bool;

    /// Every byte this source will ever hand out, first to last, when
    /// that is a fixed finite sequence; `None` for a source without one.
    /// Constant over the source's whole life.
    spec fn contents(&self) -> Option<Seq<u8>>;

    /// A source with fixed contents that has signalled end of stream has
    /// handed out exactly those contents.
    proof fn lemma_done_consumed(&self)
        requires
            self.inv(),
            self.done(),
            self.contents() is Some,
        ensures
            self.contents() == Some(self.consumed()),
    ;

    /// Whether every future read of this source is guaranteed to succeed.
    spec fn reliable(&self) -> bool;

    /// Whether this source promises to hand out only finitely many bytes
    /// and to interrupt only finitely often. An endless source answers
    /// false, and `fuel`/`fuel_minor` then bound only its interruptions.
    spec fn finite(&self) -> bool;

    /// Major part of the source's termination measure.
    spec fn fuel(&self) -> nat;

    /// Minor part of the source's termination measure.
    spec fn fuel_minor(&self) -> nat;

    /// Pull up to `buf.len()` bytes into the front of `buf`.
    ///
    /// On `Ok(n)` the first `n` bytes of `buf` are exactly the bytes the
    /// source handed out, in order; `n == 0` signals end of stream. On any
    /// error no bytes are handed out. An interrupted read, and a productive
    /// read of a finite source, strictly lower the source's fuel pair, so
    /// a retrying caller can bound its own loop.
    fn read(&mut self, buf: &mut Vec<u8>) -> (r: Result<usize, IoError>)
        requires
            old(self).inv(),
            old(buf).len() > 0,
        ensures
            final(self).inv(),
            final(buf).len() == old(buf).len(),
            final(self).finite() == old(self).finite(),
            final(self).contents() == old(self).contents(),
            old(self).reliable() ==> r is Ok && final(self).reliable(),
            match r {
                Ok(n) => {
                    &&& n <= old(buf).len()
                    &&& final(self).consumed() == old(self).consumed()
                        + final(buf)@.take(n as int)
                    &&& (n == 0 ==> final(self).done())
                    &&& (n > 0 && old(self).finite() ==> fuel_below(
                        final(self).fuel(),
                        final(self).fuel_minor(),
                        old(self).fuel(),
                        old(self).fuel_minor(),
                    ))
                },
                Err(e) => {
                    &&& final(self).consumed() == old(self).consumed()
                    &&& (e == IoError::Interrupted ==> fuel_below(
                        final(self).fuel(),
                        final(self).fuel_minor(),
                        old(self).fuel(),
                        old(self).fuel_minor(),
                    ))
                },
            },
    ;
}

/// A consumer of bytes, modelled by the bytes it has accepted so far.
pub trait ByteSink: Sized {
    /// Well-formedness of the sink's state.
    spec fn inv(&self) -> bool;

    /// Every byte this sink has accepted so far, oldest first.
    spec fn received(&self) -> Seq<u8>;

    /// Whether every future write to this sink is guaranteed to succeed.
    spec fn reliable(&self) -> bool;

    /// Accept the whole of `data`, or fail having accepted none of it.
    /// A transient interruption is never surfaced: the sink retries it
    /// itself or turns it into a failure.
    fn write_all(&mut self, data: &[u8]) -> (r: Result<(), IoError>)
        requires
            old(self).inv(),
        ensures
            final(self).inv(),
            old(self).reliable() ==> r is Ok && final(self).reliable(),
            match r {
                Ok(()) => final(self).received() == old(self).received() + data@,
                Err(e) => e != IoError::Interrupted && final(self).received() == old(
                    self,
                ).received(),
            },
    ;

    /// The number of bytes accepted so far.
    fn byte_len(&self) -> (n: usize)
        requires
            self.inv(),
        ensures
            n == self.received().len(),
    ;
}

/// A caller-supplied stopping condition on a copy: a side-effect-free
/// function of the current source and sink state, evaluated between
/// transfer rounds.
pub trait StopCondition<R: ByteSource, W: ByteSink>: Sized {
    /// What `check` returns on the given source and sink state.
    spec fn stops(&self, source: R, sink: W) -> bool;

    /// Whether the condition is guaranteed to stop a copy once enough
    /// bytes have reached the sink, whatever the source does.
    spec fn eventually_stops(&self) -> bool;

    /// The sink size at which a condition that `eventually_stops` is
    /// guaranteed to hold.
    spec fn stop_threshold(&self) -> nat;

    /// A condition that `eventually_stops` holds on every state whose sink
    /// has reached `stop_threshold` bytes.
    proof fn lemma_stops_at_threshold(&self, source: R, sink: W)
        requires
            self.eventually_stops(),
            sink.received().len() >= self.stop_threshold(),
        ensures
            self.stops(source, sink),
    ;

    /// Evaluate the condition on the current source and sink state.
    fn check(&self, source: &R, sink: &W) -> (b: bool)
        requires
            source.inv(),
            sink.inv(),
        ensures
            b == self.stops(*source, *sink),
    ;
}

} // verus!

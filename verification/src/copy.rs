use vstd::prelude::*;

use crate::error::IoError;
use crate::stream::ByteSink;
use crate::stream::ByteSource;
use crate::stream::StopCondition;

verus! {

/// The size of the scratch buffer a copy allocates once per call, matching
/// common stream-buffering conventions.
pub const DEFAULT_BUF_SIZE: usize = 8 * 1024;

/// The bytes `after` holds beyond the prefix `before`: what a stream state
/// gained between two observations.
pub open spec fn gained(before: Seq<u8>, after: Seq<u8>) -> Seq<u8> {
    after.skip(before.len() as int)
}

/// How far the sink may still be from the size at which `pred` is
/// guaranteed to stop the copy; 0 for a finite source, whose own fuel
/// bounds the copy instead.
spec fn stop_gap<R: ByteSource, W: ByteSink, P: StopCondition<R, W>>(
    pred: P,
    reader: R,
    writer: W,
) -> nat {
    if reader.finite() {
        0
    } else if writer.received().len() < pred.stop_threshold() {
        (pred.stop_threshold() - writer.received().len()) as nat
    } else {
        0
    }
}

/// A zero-filled scratch buffer of length `n`.
fn make_buffer(n: usize) -> (r: Vec<u8>)
    ensures
        r@.len() == n,
{
    let mut v: Vec<u8> = Vec::new();
    while v.len() < n
        invariant
            v@.len() <= n,
        decreases n - v@.len(),
    {
        v.push(0);
    }
    v
}

/// Copies bytes from `reader` to `writer` until a condition is met.
///
/// The copy proceeds in rounds through a fixed scratch buffer of
/// `DEFAULT_BUF_SIZE` bytes. Before each round the condition is evaluated
/// on the current source and sink state; when it holds, the copy stops
/// successfully without reading further. A round that reads 0 bytes means
/// the source is exhausted and also stops the copy successfully. An
/// `Interrupted` read is retried transparently (the condition is
/// re-evaluated first, like any other round); any other read error, and
/// any write error, is propagated immediately.
///
/// The condition is only checked between rounds, so a stop it triggers can
/// overshoot by up to one buffer of bytes. On success the sink has gained
/// exactly the bytes the source handed out during the call, in order; on
/// an error the sink keeps what was already written, which is a prefix of
/// what was read, short of it by at most one buffer.
pub fn copy_until<R: ByteSource, W: ByteSink, P: StopCondition<R, W>>(
    reader: &mut R,
    writer: &mut W,
    pred: P,
) -> (r: Result<(), IoError>)
    requires
        old(reader).inv(),
        old(writer).inv(),
        !old(reader).finite() ==> pred.eventually_stops(),
    ensures
        final(reader).inv(),
        final(writer).inv(),
        final(reader).finite() == old(reader).finite(),
        old(reader).consumed().is_prefix_of(final(reader).consumed()),
        old(writer).received().is_prefix_of(final(writer).received()),
        match r {
            Ok(()) => {
                &&& final(writer).received() == old(writer).received() + gained(
                    old(reader).consumed(),
                    final(reader).consumed(),
                )
                &&& final(reader).done() || pred.stops(*final(reader), *final(writer))
            },
            Err(e) => {
                &&& e != IoError::Interrupted
                &&& gained(old(writer).received(), final(writer).received()).is_prefix_of(
                    gained(old(reader).consumed(), final(reader).consumed()),
                )
                &&& gained(old(reader).consumed(), final(reader).consumed()).len() <= gained(
                    old(writer).received(),
                    final(writer).received(),
                ).len() + DEFAULT_BUF_SIZE
            },
        },
        final(reader).contents() == old(reader).contents(),
        (r is Ok && final(reader).done() && old(reader).contents() is Some) ==> old(
            reader,
        ).contents() == Some(final(reader).consumed()),
        pred.stops(*old(reader), *old(writer)) ==> r is Ok && *final(reader) == *old(reader)
            && *final(writer) == *old(writer),
        old(reader).reliable() && old(writer).reliable() ==> r is Ok,
        (r is Ok && final(writer).received().len() > old(writer).received().len()) ==> (exists|
            rs: R,
            ws: W,
        |
            {
                &&& !(#[trigger] pred.stops(rs, ws))
                &&& ws.received().is_prefix_of(final(writer).received())
                &&& final(writer).received().len() <= ws.received().len() + DEFAULT_BUF_SIZE
            }),
{
    let mut buf: Vec<u8> = make_buffer(DEFAULT_BUF_SIZE);
    loop
        invariant
            reader.inv(),
            writer.inv(),
            buf@.len() == DEFAULT_BUF_SIZE,
            reader.finite() == old(reader).finite(),
            reader.contents() == old(reader).contents(),
            !old(reader).finite() ==> pred.eventually_stops(),
            old(reader).consumed().is_prefix_of(reader.consumed()),
            old(writer).received().is_prefix_of(writer.received()),
            writer.received() == old(writer).received() + gained(
                old(reader).consumed(),
                reader.consumed(),
            ),
            old(reader).reliable() ==> reader.reliable(),
            old(writer).reliable() ==> writer.reliable(),
            pred.stops(*old(reader), *old(writer)) ==> *reader == *old(reader) && *writer == *old(
                writer,
            ),
            writer.received().len() > old(writer).received().len() ==> (exists|rs: R, ws: W|
                {
                    &&& !(#[trigger] pred.stops(rs, ws))
                    &&& ws.received().is_prefix_of(writer.received())
                    &&& writer.received().len() <= ws.received().len() + DEFAULT_BUF_SIZE
                }),
        ensures
            reader.done() || pred.stops(*reader, *writer),
        decreases stop_gap(pred, *reader, *writer), reader.fuel(), reader.fuel_minor(),
    {
        let stop = pred.check(&*reader, &*writer);
        if stop {
            break ;
        }
        proof {
            if !reader.finite() && pred.stop_threshold() <= writer.received().len() {
                pred.lemma_stops_at_threshold(*reader, *writer);
                assert(false);
            }
        }
        let ghost rs_snap = *reader;
        let ghost ws_snap = *writer;
        let res = reader.read(&mut buf);
        match res {
            Ok(n) => {
                if n == 0 {
                    proof {
                        assert(reader.consumed() =~= rs_snap.consumed());
                    }
                    break ;
                }
                let data = vstd::slice::slice_subrange(buf.as_slice(), 0, n);
                let ghost fresh = buf@.take(n as int);
                proof {
                    assert(data@ == fresh);
                    assert(gained(old(reader).consumed(), reader.consumed()) =~= gained(
                        old(reader).consumed(),
                        rs_snap.consumed(),
                    ) + fresh);
                    assert(old(reader).consumed().is_prefix_of(reader.consumed()));
                }
                match writer.write_all(data) {
                    Ok(()) => {
                        proof {
                            assert(writer.received() =~= old(writer).received() + gained(
                                old(reader).consumed(),
                                reader.consumed(),
                            ));
                            assert(old(writer).received().is_prefix_of(writer.received()));
                            assert(!pred.stops(rs_snap, ws_snap));
                            assert(ws_snap.received().is_prefix_of(writer.received()));
                            assert(writer.received().len() <= ws_snap.received().len()
                                + DEFAULT_BUF_SIZE);
                        }
                    },
                    Err(e) => {
                        proof {
                            assert(gained(old(writer).received(), writer.received()).is_prefix_of(
                                gained(old(reader).consumed(), reader.consumed()),
                            ));
                        }
                        return Err(e);
                    },
                }
            },
            Err(e) => {
                match e {
                    IoError::Interrupted => {
                    },
                    IoError::Failed => {
                        proof {
                            assert(gained(old(writer).received(), writer.received()) =~= gained(
                                old(reader).consumed(),
                                reader.consumed(),
                            ));
                        }
                        return Err(IoError::Failed);
                    },
                }
            },
        }
    }
    proof {
        if reader.done() && reader.contents() is Some {
            reader.lemma_done_consumed();
        }
    }
    Ok(())
}

/// A stop condition that never holds: the copy runs until the source is
/// exhausted.
pub struct NeverStop;

impl<R: ByteSource, W: ByteSink> StopCondition<R, W> for NeverStop {
    open spec fn stops(&self, source: R, sink: W) -> bool {
        false
    }

    open spec fn eventually_stops(&self) -> bool {
        false
    }

    open spec fn stop_threshold(&self) -> nat {
        0
    }

    proof fn lemma_stops_at_threshold(&self, source: R, sink: W) {
    }

    fn check(&self, source: &R, sink: &W) -> (b: bool) {
        false
    }
}

/// A stop condition that always holds: the copy stops before any read.
pub struct AlwaysStop;

impl<R: ByteSource, W: ByteSink> StopCondition<R, W> for AlwaysStop {
    open spec fn stops(&self, source: R, sink: W) -> bool {
        true
    }

    open spec fn eventually_stops(&self) -> bool {
        true
    }

    open spec fn stop_threshold(&self) -> nat {
        0
    }

    proof fn lemma_stops_at_threshold(&self, source: R, sink: W) {
    }

    fn check(&self, source: &R, sink: &W) -> (b: bool) {
        true
    }
}

/// A stop condition that holds once the sink has accepted strictly more
/// than `limit` bytes.
pub struct SinkLenAbove {
    pub limit: usize,
}

impl<R: ByteSource, W: ByteSink> StopCondition<R, W> for SinkLenAbove {
    open spec fn stops(&self, source: R, sink: W) -> bool {
        sink.received().len() > self.limit
    }

    open spec fn eventually_stops(&self) -> bool {
        true
    }

    open spec fn stop_threshold(&self) -> nat {
        self.limit as nat + 1
    }

    proof fn lemma_stops_at_threshold(&self, source: R, sink: W) {
    }

    fn check(&self, source: &R, sink: &W) -> (b: bool) {
        sink.byte_len() > self.limit
    }
}

} // verus!

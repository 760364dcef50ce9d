use vstd::prelude::*;

use crate::copy::gained;
use crate::copy::NeverStop;
use crate::copy::SinkLenAbove;
use crate::copy::DEFAULT_BUF_SIZE;
use crate::stream::ByteSink;
use crate::stream::ByteSource;
use crate::stream::StopCondition;

verus! {

/// Law: a copy that is never stopped early and ends successfully has
/// drained its source. For a source with fixed finite contents, read from
/// the start into a sink that starts empty, the sink ends up holding
/// exactly those contents, in order, with no duplication or truncation.
///
/// The hypotheses are the facts `copy_until` guarantees on `Ok` with the
/// `NeverStop` condition, together with the fresh start of both streams.
pub proof fn lemma_never_stop_drains<R: ByteSource, W: ByteSink>(
    pred: NeverStop,
    reader0: R,
    reader1: R,
    writer0: W,
    writer1: W,
    data: Seq<u8>,
)
    requires
        reader0.contents() == Some(data),
        reader0.consumed() == Seq::<u8>::empty(),
        writer0.received() == Seq::<u8>::empty(),
        reader1.done() || pred.stops(reader1, writer1),
        reader1.done() ==> reader0.contents() == Some(reader1.consumed()),
        writer1.received() == writer0.received() + gained(
            reader0.consumed(),
            reader1.consumed(),
        ),
    ensures
        writer1.received() == data,
{
    assert(reader1.done());
    assert(reader1.consumed() == data);
    assert(gained(reader0.consumed(), reader1.consumed()) =~= data);
    assert(writer1.received() =~= data);
}

/// Law: a copy stopped by the condition "the sink holds more than `limit`
/// bytes" overshoots by at most one buffer round. When such a copy ends
/// successfully with the condition holding, a sink that started empty
/// holds more than `limit` and at most `limit + DEFAULT_BUF_SIZE` bytes:
/// the stop is detected within one buffer round, and never before the
/// threshold. (That the copy terminates at all is part of `copy_until`'s
/// own verification: its loop carries a decreases measure.)
///
/// The hypotheses are the facts `copy_until` guarantees on `Ok` with a
/// `SinkLenAbove` condition, together with the empty start of the sink.
pub proof fn lemma_len_above_overshoot<R: ByteSource, W: ByteSink>(
    pred: SinkLenAbove,
    reader1: R,
    writer0: W,
    writer1: W,
)
    requires
        writer0.received().len() == 0,
        pred.stops(reader1, writer1),
        writer1.received().len() > writer0.received().len() ==> (exists|rs: R, ws: W|
            {
                &&& !(#[trigger] pred.stops(rs, ws))
                &&& ws.received().is_prefix_of(writer1.received())
                &&& writer1.received().len() <= ws.received().len() + DEFAULT_BUF_SIZE
            }),
    ensures
        pred.limit < writer1.received().len(),
        writer1.received().len() <= pred.limit + DEFAULT_BUF_SIZE,
{
    assert(writer1.received().len() > pred.limit);
    let (rs, ws) = choose|rs: R, ws: W|
        {
            &&& !(#[trigger] pred.stops(rs, ws))
            &&& ws.received().is_prefix_of(writer1.received())
            &&& writer1.received().len() <= ws.received().len() + DEFAULT_BUF_SIZE
        };
    assert(ws.received().len() <= pred.limit);
}

/// Law: an end-of-stream report is never spurious. A source with fixed
/// finite contents that reports end of stream (a 0-byte read) has already
/// handed out every byte of those contents — in particular, a chunk
/// reader never reports end of stream while later chunks remain, however
/// many empty chunks its sequence yields in between.
pub proof fn lemma_end_of_stream_is_complete<R: ByteSource>(reader: R)
    requires
        reader.inv(),
        reader.done(),
        reader.contents() is Some,
    ensures
        reader.contents() == Some(reader.consumed()),
{
    reader.lemma_done_consumed();
}

} // verus!

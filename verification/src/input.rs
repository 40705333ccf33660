//! PCM input: how what is read from a source goes into the buffer.
//!
//! Every source ultimately hands us a byte stream that is pumped into the
//! [`BroadcastBuffer`] in chunks of limited size. `stdin` is one-shot (EOF ends
//! the program); `fifo`, `unix`, and `tcp` are long-lived - when a writer
//! disconnects the next one is waited for, and the clients stay attached.

use crate::buffer::BroadcastBuffer;
use crate::config::{InputSource, SourceModel};
use vstd::prelude::*;
use vstd::slice::slice_subrange;

verus! {

/// Read size per pump iteration. 16 KiB keeps latency low while amortizing the
/// per-chunk locking/allocation cost.
pub const CHUNK: usize = 16384;

/// What a read came to.
pub enum ReadOutcome {
    /// So many bytes; none at the end of the stream.
    Read(usize),
    /// A signal came in between.
    Interrupted,
    /// It failed.
    Failed,
}

/// What becomes of the pump after a read.
pub enum PumpNext {
    /// It reads on.
    Continue,
    /// It ends: the writer is gone, or cannot be read from.
    Stop,
}

/// One step of the pump that copies a reader into the buffer until EOF or a
/// read error: what was read into `chunk` is pushed.
pub fn pump_step(buf: &mut BroadcastBuffer, chunk: &[u8], outcome: ReadOutcome) -> (next: PumpNext)
    requires
        old(buf).wf(),
        outcome matches ReadOutcome::Read(n) ==> n <= chunk@.len() && (old(buf)@.closed || old(
            buf,
        )@.head() + n <= u64::MAX),
    ensures
        final(buf).wf(),
        match outcome {
            ReadOutcome::Read(n) => {
                &&& next is Stop <==> n == 0
                &&& old(buf)@.accepted(chunk@.take(n as int), final(buf)@)
                &&& n > 0 && !old(buf)@.closed ==> final(buf)@.chunks == old(buf)@.chunks.push(
                    chunk@.take(n as int),
                )
                &&& n == 0 ==> final(buf)@ == old(buf)@
            },
            ReadOutcome::Interrupted => next is Continue && final(buf)@ == old(buf)@,
            ReadOutcome::Failed => next is Stop && final(buf)@ == old(buf)@,
        },
{
    match outcome {
        ReadOutcome::Read(n) => {
            if n == 0 {
                return PumpNext::Stop;
            }
            let data: &[u8] = slice_subrange(chunk, 0, n);
            assert(data@ =~= chunk@.take(n as int));
            buf.push(data);
            PumpNext::Continue
        },
        ReadOutcome::Interrupted => PumpNext::Continue,
        ReadOutcome::Failed => PumpNext::Stop,
    }
}

/// Whether a source is exhausted when its writer is gone. Only `stdin` is; the
/// others wait for the next writer.
pub fn is_one_shot(source: &InputSource) -> (yes: bool)
    ensures
        yes == (source@ == SourceModel::Stdin),
        yes <==> source is Stdin,
{
    match source {
        InputSource::Stdin => true,
        _ => false,
    }
}

} // verus!

//! One chunk's fetch: the retry policy for servers that ignore ranged
//! requests, the accumulation of streamed bytes, and cancellation.
//!
//! The worker is a state machine.  The surrounding process sends the
//! ranged request, reads body buffers and races the stream against the
//! cancellation signal; after each of those it reports what happened and
//! the worker answers with the next step and keeps the accumulated bytes.

use vstd::prelude::*;

use crate::chunk::ChunkRange;

verus! {

/// How many times a request is sent before a missing `Content-Range`
/// becomes fatal.
pub const MAX_REQUEST_ATTEMPTS: u64 = 5;

/// How a chunk's transfer ended.
#[derive(Debug, Copy, Clone, PartialEq, Eq, Structural)]
pub enum TaskResultState {
    Done,
    Canceled,
}

/// The input to one chunk worker.
pub struct WorkItem {
    /// The inclusive byte range to fetch.
    pub task: ChunkRange,
    /// The remote resource the ranged request goes to.
    pub url: String,
}

/// The outcome of one chunk worker: the bytes that actually arrived
/// before completion or cancellation.
pub struct WorkResult {
    pub state: TaskResultState,
    pub data: Vec<u8>,
    pub task: ChunkRange,
}

/// What the surrounding process must do next for this chunk.
#[derive(Debug, Copy, Clone, PartialEq, Eq, Structural)]
pub enum WorkerStep {
    /// Wait one second, then send the request again.
    RetryAfterDelay,
    /// The response can be streamed; read body buffers.
    ReadBody,
    /// Give up: no attempt produced a `Content-Range` response.
    FailNoValidResponse,
    /// Give up: the transport or the stream failed; fatal, not retried.
    FailFatal,
}

#[derive(Debug, Copy, Clone, PartialEq, Eq, Structural)]
pub enum WorkerPhase {
    Requesting,
    Streaming,
    Finished,
}

/// The state machine for one chunk's fetch.
pub struct ChunkWorker {
    task: ChunkRange,
    /// Requests sent so far.
    attempts: u64,
    /// Body bytes received so far, in arrival order.
    accum: Vec<u8>,
    phase: WorkerPhase,
}

impl ChunkWorker {
    pub closed spec fn spec_task(self) -> ChunkRange {
        self.task
    }

    pub closed spec fn spec_attempts(self) -> u64 {
        self.attempts
    }

    pub closed spec fn spec_accum(self) -> Seq<u8> {
        self.accum@
    }

    pub closed spec fn spec_phase(self) -> WorkerPhase {
        self.phase
    }

    pub closed spec fn wf(self) -> bool {
        self.attempts <= MAX_REQUEST_ATTEMPTS
    }

    pub fn new(item: &WorkItem) -> (w: Self)
        ensures
            w.wf(),
            w.spec_task() == item.task,
            w.spec_attempts() == 0,
            w.spec_accum().len() == 0,
            w.spec_phase() is Requesting,
    {
        ChunkWorker { task: item.task, attempts: 0, accum: Vec::new(), phase: WorkerPhase::Requesting }
    }

    /// A response arrived.  Without a `Content-Range` header the server
    /// ignored the ranged request: retry after a delay, up to
    /// [`MAX_REQUEST_ATTEMPTS`] requests in all, then fail.  With the
    /// header, move on to streaming the body.
    pub fn on_response(&mut self, has_content_range: bool) -> (step: WorkerStep)
        requires
            old(self).wf(),
            old(self).spec_phase() is Requesting,
            old(self).spec_attempts() < MAX_REQUEST_ATTEMPTS,
        ensures
            final(self).wf(),
            final(self).spec_task() == old(self).spec_task(),
            final(self).spec_accum() == old(self).spec_accum(),
            final(self).spec_attempts() == old(self).spec_attempts() + 1,
            has_content_range ==> final(self).spec_phase() is Streaming && step is ReadBody,
            !has_content_range && old(self).spec_attempts() + 1 < MAX_REQUEST_ATTEMPTS
                ==> final(self).spec_phase() is Requesting && step is RetryAfterDelay,
            !has_content_range && old(self).spec_attempts() + 1 == MAX_REQUEST_ATTEMPTS
                ==> final(self).spec_phase() is Finished && step is FailNoValidResponse,
    {
        self.attempts = self.attempts + 1;
        if has_content_range {
            self.phase = WorkerPhase::Streaming;
            WorkerStep::ReadBody
        } else if self.attempts < MAX_REQUEST_ATTEMPTS {
            WorkerStep::RetryAfterDelay
        } else {
            self.phase = WorkerPhase::Finished;
            WorkerStep::FailNoValidResponse
        }
    }

    /// The request itself failed at the transport level.  Fatal for this
    /// chunk, and not retried here.
    pub fn on_transport_error(&mut self) -> (step: WorkerStep)
        requires
            old(self).spec_phase() is Requesting,
        ensures
            final(self).spec_phase() is Finished,
            final(self).spec_task() == old(self).spec_task(),
            final(self).spec_accum() == old(self).spec_accum(),
            final(self).spec_attempts() == old(self).spec_attempts(),
            step is FailFatal,
    {
        self.phase = WorkerPhase::Finished;
        WorkerStep::FailFatal
    }

    /// A body buffer arrived: append it to the accumulator.  Returns the
    /// buffer's length, which the caller hands to the rate limiter.
    pub fn on_chunk(&mut self, data: &Vec<u8>) -> (len: usize)
        requires
            old(self).wf(),
            old(self).spec_phase() is Streaming,
            old(self).spec_accum().len() + data@.len() <= usize::MAX,
        ensures
            final(self).wf(),
            final(self).spec_task() == old(self).spec_task(),
            final(self).spec_attempts() == old(self).spec_attempts(),
            final(self).spec_phase() is Streaming,
            final(self).spec_accum() == old(self).spec_accum() + data@,
            len == data@.len(),
    {
        let mut i: usize = 0;
        while i < data.len()
            invariant
                i <= data@.len(),
                self.accum@ == old(self).accum@ + data@.take(i as int),
                self.task == old(self).task,
                self.attempts == old(self).attempts,
                self.phase == old(self).phase,
                old(self).accum@.len() + data@.len() <= usize::MAX,
            decreases data@.len() - i,
        {
            self.accum.push(data[i]);
            i = i + 1;
            proof {
                assert(self.accum@ =~= old(self).accum@ + data@.take(i as int));
            }
        }
        proof {
            assert(data@.take(data@.len() as int) =~= data@);
        }
        data.len()
    }

    /// The body stream failed mid-transfer.  Fatal, not retried.
    pub fn on_stream_error(&mut self) -> (step: WorkerStep)
        requires
            old(self).spec_phase() is Streaming,
        ensures
            final(self).spec_phase() is Finished,
            step is FailFatal,
    {
        self.phase = WorkerPhase::Finished;
        WorkerStep::FailFatal
    }

    /// The body stream ended: the chunk is done, with every byte that
    /// arrived.
    pub fn on_stream_end(&mut self) -> (r: WorkResult)
        requires
            old(self).spec_phase() is Streaming,
        ensures
            final(self).spec_phase() is Finished,
            r.state is Done,
            r.data@ == old(self).spec_accum(),
            r.task == old(self).spec_task(),
    {
        self.phase = WorkerPhase::Finished;
        let mut data = Vec::new();
        core::mem::swap(&mut data, &mut self.accum);
        WorkResult { state: TaskResultState::Done, data, task: self.task }
    }

    /// The cancellation signal won the race: the chunk ends as canceled,
    /// carrying whatever prefix of its bytes had arrived.
    pub fn on_cancelled(&mut self) -> (r: WorkResult)
        requires
            old(self).spec_phase() is Streaming,
        ensures
            final(self).spec_phase() is Finished,
            r.state is Canceled,
            r.data@ == old(self).spec_accum(),
            r.task == old(self).spec_task(),
    {
        self.phase = WorkerPhase::Finished;
        let mut data = Vec::new();
        core::mem::swap(&mut data, &mut self.accum);
        WorkResult { state: TaskResultState::Canceled, data, task: self.task }
    }
}

} // verus!

//! One attempt: a child's two output streams, drained side by side.
//!
//! The streams are independent. What is reported of one changes nothing
//! about the other, so the records of each stream are those that its own
//! pipeline gives, in their order, however the reads of the two streams
//! fall in time. Between the streams no order is promised. The attempt is
//! drained when both streams have ended.

use crate::encoding::{LogRecord, TextEncoding, MAX_DECODE_LEN, REPLACEMENT_CHARACTER};
use crate::lines::{concat_all, lines_of};
use crate::pipeline::{
    after, after_all, fresh, lemma_records_of_whole_stream, reads, record_views, records_on,
    stream_records, PipelineView, StreamEvent, StreamPipeline,
};
use vstd::prelude::*;

verus! {

/// The two output streams of a child.
#[derive(Clone, Copy, Debug, PartialEq, Eq, Structural)]
pub enum StreamId {
    /// Standard output.
    Stdout,
    /// Standard error.
    Stderr,
}

/// What an attempt is at one moment: the pipelines of its two streams.
pub struct AttemptView {
    /// The pipeline of standard output.
    pub stdout: PipelineView,
    /// The pipeline of standard error.
    pub stderr: PipelineView,
}

impl AttemptView {
    /// The pipeline of the stream `id`.
    pub open spec fn stream(self, id: StreamId) -> PipelineView {
        match id {
            StreamId::Stdout => self.stdout,
            StreamId::Stderr => self.stderr,
        }
    }

    /// This attempt with `view` as the pipeline of the stream `id`.
    pub open spec fn with_stream(self, id: StreamId, view: PipelineView) -> AttemptView {
        match id {
            StreamId::Stdout => AttemptView { stdout: view, ..self },
            StreamId::Stderr => AttemptView { stderr: view, ..self },
        }
    }

    /// Both streams have ended.
    pub open spec fn drained(self) -> bool {
        !self.stdout.open && !self.stderr.open
    }
}

/// An attempt whose child has just been launched.
pub open spec fn fresh_attempt(name: Seq<char>) -> AttemptView {
    AttemptView { stdout: fresh(name), stderr: fresh(name) }
}

/// The attempt after `event` on the stream `id`.
pub open spec fn attempt_after(attempt: AttemptView, id: StreamId, event: StreamEvent) -> AttemptView {
    attempt.with_stream(id, after(attempt.stream(id), event))
}

/// The records of `records`, each marked as coming from the stream `id`.
pub open spec fn tagged(id: StreamId, records: Seq<(Seq<char>, bool)>) -> Seq<
    (StreamId, (Seq<char>, bool)),
> {
    Seq::new(records.len(), |i: int| (id, records[i]))
}

/// The attempt after the events of `events` in turn, each on the stream it
/// names, and the records that they gave rise to, in order.
pub open spec fn attempt_after_all(attempt: AttemptView, events: Seq<(StreamId, StreamEvent)>) -> (
    AttemptView,
    Seq<(StreamId, (Seq<char>, bool))>,
)
    decreases events.len(),
{
    if events.len() == 0 {
        (attempt, Seq::empty())
    } else {
        let before = attempt_after_all(attempt, events.drop_last());
        let id = events.last().0;
        let event = events.last().1;
        (
            attempt_after(before.0, id, event),
            before.1 + tagged(id, records_on(before.0.stream(id), event)),
        )
    }
}

/// The events of `events` that are on the stream `id`, in order.
pub open spec fn events_of(events: Seq<(StreamId, StreamEvent)>, id: StreamId) -> Seq<StreamEvent>
    decreases events.len(),
{
    if events.len() == 0 {
        Seq::empty()
    } else if events.last().0 == id {
        events_of(events.drop_last(), id).push(events.last().1)
    } else {
        events_of(events.drop_last(), id)
    }
}

/// The records of `records` that come from the stream `id`, in order.
pub open spec fn records_of(records: Seq<(StreamId, (Seq<char>, bool))>, id: StreamId) -> Seq<
    (Seq<char>, bool),
>
    decreases records.len(),
{
    if records.len() == 0 {
        Seq::empty()
    } else if records.last().0 == id {
        records_of(records.drop_last(), id).push(records.last().1)
    } else {
        records_of(records.drop_last(), id)
    }
}

/// The lines that a log holds after the texts of `records` are appended to
/// `log`, one line for each record.
pub open spec fn log_after(log: Seq<Seq<char>>, records: Seq<(StreamId, (Seq<char>, bool))>) -> Seq<
    Seq<char>,
> {
    log + Seq::new(records.len(), |i: int| records[i].1.0)
}

/// Picking the records of one stream goes through a concatenation.
pub proof fn lemma_records_of_concat(
    a: Seq<(StreamId, (Seq<char>, bool))>,
    b: Seq<(StreamId, (Seq<char>, bool))>,
    id: StreamId,
)
    ensures
        records_of(a + b, id) == records_of(a, id) + records_of(b, id),
    decreases b.len(),
{
    if b.len() > 0 {
        lemma_records_of_concat(a, b.drop_last(), id);
        assert((a + b).drop_last() =~= a + b.drop_last());
    }
}

/// Of records that all come from one stream, that stream has all and the
/// other has none.
pub proof fn lemma_records_of_tagged(from: StreamId, records: Seq<(Seq<char>, bool)>, id: StreamId)
    ensures
        records_of(tagged(from, records), id) == if from == id {
            records
        } else {
            Seq::empty()
        },
    decreases records.len(),
{
    if records.len() > 0 {
        lemma_records_of_tagged(from, records.drop_last(), id);
        assert(tagged(from, records).drop_last() =~= tagged(from, records.drop_last()));
    }
}

/// Every record comes from one of the two streams.
pub proof fn lemma_records_partition(records: Seq<(StreamId, (Seq<char>, bool))>)
    ensures
        records.len() == records_of(records, StreamId::Stdout).len() + records_of(
            records,
            StreamId::Stderr,
        ).len(),
    decreases records.len(),
{
    if records.len() > 0 {
        lemma_records_partition(records.drop_last());
    }
}

/// Stream independence: in any interleaving of the events of the two
/// streams, each stream ends up where its own events alone would have
/// taken it, and its records are those that its own events alone would
/// have given, in the same order.
pub proof fn lemma_streams_independent(
    attempt: AttemptView,
    events: Seq<(StreamId, StreamEvent)>,
    id: StreamId,
)
    ensures
        attempt_after_all(attempt, events).0.stream(id) == after_all(
            attempt.stream(id),
            events_of(events, id),
        ).0,
        records_of(attempt_after_all(attempt, events).1, id) == after_all(
            attempt.stream(id),
            events_of(events, id),
        ).1,
    decreases events.len(),
{
    if events.len() > 0 {
        let init = events.drop_last();
        let from = events.last().0;
        let event = events.last().1;
        let before = attempt_after_all(attempt, init);
        let fresh_records = records_on(before.0.stream(from), event);
        lemma_streams_independent(attempt, init, id);
        lemma_records_of_concat(before.1, tagged(from, fresh_records), id);
        lemma_records_of_tagged(from, fresh_records, id);
        if from == id {
            assert(events_of(events, id).drop_last() =~= events_of(init, id));
        }
    }
}

/// An attempt whose two streams are each read to their end is drained, and
/// in any interleaving of the reads its records are, stream by stream, one
/// for each line of the stream and in the order of the lines; in all there
/// are as many records as the two streams have lines.
pub proof fn lemma_drained_attempt(
    name: Seq<char>,
    events: Seq<(StreamId, StreamEvent)>,
    out_chunks: Seq<Seq<u8>>,
    err_chunks: Seq<Seq<u8>>,
)
    requires
        events_of(events, StreamId::Stdout) == reads(out_chunks).push(StreamEvent::End),
        events_of(events, StreamId::Stderr) == reads(err_chunks).push(StreamEvent::End),
    ensures
        attempt_after_all(fresh_attempt(name), events).0.drained(),
        records_of(attempt_after_all(fresh_attempt(name), events).1, StreamId::Stdout)
            == stream_records(name, concat_all(out_chunks)),
        records_of(attempt_after_all(fresh_attempt(name), events).1, StreamId::Stderr)
            == stream_records(name, concat_all(err_chunks)),
        attempt_after_all(fresh_attempt(name), events).1.len() == lines_of(
            concat_all(out_chunks),
        ).len() + lines_of(concat_all(err_chunks)).len(),
{
    lemma_streams_independent(fresh_attempt(name), events, StreamId::Stdout);
    lemma_streams_independent(fresh_attempt(name), events, StreamId::Stderr);
    lemma_records_of_whole_stream(name, out_chunks);
    lemma_records_of_whole_stream(name, err_chunks);
    lemma_records_partition(attempt_after_all(fresh_attempt(name), events).1);
}

/// Appending never truncates or reorders: over two attempts in turn, the
/// log after each attempt begins with the log before it and grows by one
/// line for each record of the attempt.
pub proof fn lemma_log_append_only(
    log: Seq<Seq<char>>,
    first: Seq<(StreamId, (Seq<char>, bool))>,
    second: Seq<(StreamId, (Seq<char>, bool))>,
)
    ensures
        log.is_prefix_of(log_after(log, first)),
        log_after(log, first).is_prefix_of(log_after(log_after(log, first), second)),
        log_after(log, first).len() == log.len() + first.len(),
        log_after(log_after(log, first), second).len() == log.len() + first.len() + second.len(),
        log_after(log_after(log, first), second) == log_after(log, first + second),
{
}

/// The log over two attempts, each drained to the end of both streams: the
/// log after each attempt begins with the log before it, and in the end it
/// has grown by exactly one line for each line that the child wrote on
/// either stream in either attempt.
pub proof fn lemma_log_over_two_attempts(
    log: Seq<Seq<char>>,
    name: Seq<char>,
    first_events: Seq<(StreamId, StreamEvent)>,
    first_out: Seq<Seq<u8>>,
    first_err: Seq<Seq<u8>>,
    second_events: Seq<(StreamId, StreamEvent)>,
    second_out: Seq<Seq<u8>>,
    second_err: Seq<Seq<u8>>,
)
    requires
        events_of(first_events, StreamId::Stdout) == reads(first_out).push(StreamEvent::End),
        events_of(first_events, StreamId::Stderr) == reads(first_err).push(StreamEvent::End),
        events_of(second_events, StreamId::Stdout) == reads(second_out).push(StreamEvent::End),
        events_of(second_events, StreamId::Stderr) == reads(second_err).push(StreamEvent::End),
    ensures
        ({
            let first = attempt_after_all(fresh_attempt(name), first_events).1;
            let second = attempt_after_all(fresh_attempt(name), second_events).1;
            let after_first = log_after(log, first);
            let after_second = log_after(after_first, second);
            &&& log.is_prefix_of(after_first)
            &&& after_first.is_prefix_of(after_second)
            &&& after_first.len() == log.len() + lines_of(concat_all(first_out)).len() + lines_of(
                concat_all(first_err),
            ).len()
            &&& after_second.len() == after_first.len() + lines_of(concat_all(second_out)).len()
                + lines_of(concat_all(second_err)).len()
        }),
{
    lemma_drained_attempt(name, first_events, first_out, first_err);
    lemma_drained_attempt(name, second_events, second_out, second_err);
    lemma_log_append_only(
        log,
        attempt_after_all(fresh_attempt(name), first_events).1,
        attempt_after_all(fresh_attempt(name), second_events).1,
    );
}

/// The state of one attempt: the pipelines of the child's two streams.
pub struct Attempt {
    stdout: StreamPipeline,
    stderr: StreamPipeline,
}

impl View for Attempt {
    type V = AttemptView;

    closed spec fn view(&self) -> AttemptView {
        AttemptView { stdout: self.stdout@, stderr: self.stderr@ }
    }
}

impl Attempt {
    /// The attempt of a child that has just been launched: both streams
    /// are open and nothing has been read.
    pub fn new(encoding: TextEncoding) -> (attempt: Attempt)
        ensures
            attempt@ == fresh_attempt(encoding@),
    {
        Attempt { stdout: StreamPipeline::new(encoding), stderr: StreamPipeline::new(encoding) }
    }

    /// Whether the stream `id` has yet to end.
    pub fn is_open(&self, id: StreamId) -> (open: bool)
        ensures
            open == self@.stream(id).open,
    {
        match id {
            StreamId::Stdout => self.stdout.is_open(),
            StreamId::Stderr => self.stderr.is_open(),
        }
    }

    /// The number of bytes read from the stream `id` since its last
    /// newline.
    pub fn pending_len(&self, id: StreamId) -> (n: usize)
        ensures
            n == self@.stream(id).pending.len(),
            n <= MAX_DECODE_LEN,
    {
        match id {
            StreamId::Stdout => self.stdout.pending_len(),
            StreamId::Stderr => self.stderr.pending_len(),
        }
    }

    /// Whether both streams have ended. Only then is the attempt over.
    pub fn is_drained(&self) -> (drained: bool)
        ensures
            drained == self@.drained(),
    {
        !self.stdout.is_open() && !self.stderr.is_open()
    }

    /// Takes the next bytes of the stream `id` and gives a record for each
    /// line that they complete. The other stream is left as it is.
    pub fn on_bytes(&mut self, id: StreamId, chunk: &[u8]) -> (records: Vec<LogRecord>)
        requires
            old(self)@.stream(id).pending.len() + chunk@.len() <= MAX_DECODE_LEN,
        ensures
            final(self)@ == attempt_after(old(self)@, id, StreamEvent::Bytes(chunk@)),
            record_views(records@) == records_on(old(self)@.stream(id), StreamEvent::Bytes(chunk@)),
            forall|i: int|
                0 <= i < records@.len() && (#[trigger] records@[i]).had_errors
                    ==> records@[i].text@.contains(REPLACEMENT_CHARACTER),
    {
        match id {
            StreamId::Stdout => self.stdout.on_bytes(chunk),
            StreamId::Stderr => self.stderr.on_bytes(chunk),
        }
    }

    /// Ends the stream `id`. A fragment left after its last newline gives
    /// one last record. The other stream is left as it is.
    pub fn on_end(&mut self, id: StreamId) -> (last: Option<LogRecord>)
        ensures
            final(self)@ == attempt_after(old(self)@, id, StreamEvent::End),
            match last {
                Some(record) => {
                    &&& records_on(old(self)@.stream(id), StreamEvent::End) == seq![record@]
                    &&& record.had_errors ==> record.text@.contains(REPLACEMENT_CHARACTER)
                },
                None => records_on(old(self)@.stream(id), StreamEvent::End) == Seq::<
                    (Seq<char>, bool),
                >::empty(),
            },
    {
        match id {
            StreamId::Stdout => self.stdout.on_end(),
            StreamId::Stderr => self.stderr.on_end(),
        }
    }

    /// Gives up the stream `id` after a failed read. The other stream is
    /// left as it is.
    pub fn on_read_error(&mut self, id: StreamId)
        ensures
            final(self)@ == attempt_after(old(self)@, id, StreamEvent::ReadError),
    {
        match id {
            StreamId::Stdout => self.stdout.on_read_error(),
            StreamId::Stderr => self.stderr.on_read_error(),
        }
    }
}

} // verus!

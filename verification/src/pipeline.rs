//! The pipeline of one output stream: bytes in, decoded log records out.
//!
//! A stream is read in pieces of any size. Its pipeline puts the pieces
//! together, cuts them into lines and decodes each line. A line that is
//! malformed in the encoding is decoded all the same, with replacement
//! characters, and the lines after it follow as usual.

use crate::encoding::{decoded, LogRecord, TextEncoding, MAX_DECODE_LEN, REPLACEMENT_CHARACTER};
use crate::lines::{
    byte_lines, complete_lines, concat_all, lemma_line_lengths, lemma_split_concat,
    lemma_terminated_lines, lines_of, newline_free, remainder, terminated, LineSplitter,
};
use vstd::prelude::*;

verus! {

/// What a pipeline is at one moment.
pub struct PipelineView {
    /// The name of the encoding that lines are decoded with.
    pub encoding: Seq<char>,
    /// The bytes read since the last newline.
    pub pending: Seq<u8>,
    /// Whether the stream has yet to end.
    pub open: bool,
}

/// What can happen on a stream.
pub enum StreamEvent {
    /// Bytes were read.
    Bytes(Seq<u8>),
    /// The stream ended.
    End,
    /// A read failed.
    ReadError,
}

/// What decoding each line of `lines` gives, in order.
pub open spec fn decoded_lines(name: Seq<char>, lines: Seq<Seq<u8>>) -> Seq<(Seq<char>, bool)> {
    Seq::new(lines.len(), |i: int| decoded(name, lines[i]))
}

/// The views of the records of `records`.
pub open spec fn record_views(records: Seq<LogRecord>) -> Seq<(Seq<char>, bool)> {
    Seq::new(records.len(), |i: int| records[i]@)
}

/// The records of a whole stream: one for each of its lines.
pub open spec fn stream_records(name: Seq<char>, stream: Seq<u8>) -> Seq<(Seq<char>, bool)> {
    decoded_lines(name, lines_of(stream))
}

/// A pipeline at the start of a stream.
pub open spec fn fresh(name: Seq<char>) -> PipelineView {
    PipelineView { encoding: name, pending: Seq::empty(), open: true }
}

/// The pipeline after `event`. A stream that has ended stays as it is,
/// whatever is reported of it.
pub open spec fn after(view: PipelineView, event: StreamEvent) -> PipelineView {
    if !view.open {
        view
    } else {
        match event {
            StreamEvent::Bytes(chunk) => PipelineView {
                pending: remainder(view.pending + chunk),
                ..view
            },
            StreamEvent::End => PipelineView { pending: Seq::empty(), open: false, ..view },
            StreamEvent::ReadError => PipelineView { pending: Seq::empty(), open: false, ..view },
        }
    }
}

/// The records that `event` gives rise to: one for each line that new bytes
/// complete; at the end of the stream one for the fragment left over, if it
/// is not empty; none after a failed read, and none once the stream has
/// ended.
pub open spec fn records_on(view: PipelineView, event: StreamEvent) -> Seq<(Seq<char>, bool)> {
    if !view.open {
        Seq::empty()
    } else {
        match event {
            StreamEvent::Bytes(chunk) => decoded_lines(
                view.encoding,
                complete_lines(view.pending + chunk),
            ),
            StreamEvent::End => if view.pending.len() > 0 {
                seq![decoded(view.encoding, view.pending)]
            } else {
                Seq::empty()
            },
            StreamEvent::ReadError => Seq::empty(),
        }
    }
}

/// The pipeline after the events of `events` in turn, and the records that
/// they gave rise to, in order.
pub open spec fn after_all(view: PipelineView, events: Seq<StreamEvent>) -> (
    PipelineView,
    Seq<(Seq<char>, bool)>,
)
    decreases events.len(),
{
    if events.len() == 0 {
        (view, Seq::empty())
    } else {
        let before = after_all(view, events.drop_last());
        (after(before.0, events.last()), before.1 + records_on(before.0, events.last()))
    }
}

/// The events of a stream that is read as the chunks of `chunks`.
pub open spec fn reads(chunks: Seq<Seq<u8>>) -> Seq<StreamEvent> {
    Seq::new(chunks.len(), |i: int| StreamEvent::Bytes(chunks[i]))
}

/// Decoding goes line by line: the records of two runs of lines are the
/// records of the first run, then those of the second.
pub proof fn lemma_decoded_lines_concat(name: Seq<char>, a: Seq<Seq<u8>>, b: Seq<Seq<u8>>)
    ensures
        decoded_lines(name, a + b) == decoded_lines(name, a) + decoded_lines(name, b),
{
}

/// Line integrity across reads: while a stream is read, the records so far
/// are those of the complete lines of all bytes so far, and the pipeline
/// holds the fragment after the last of them, however the bytes were cut
/// into chunks.
pub proof fn lemma_records_across_reads(name: Seq<char>, chunks: Seq<Seq<u8>>)
    ensures
        after_all(fresh(name), reads(chunks)).1 == decoded_lines(
            name,
            complete_lines(concat_all(chunks)),
        ),
        after_all(fresh(name), reads(chunks)).0 == (PipelineView {
            pending: remainder(concat_all(chunks)),
            ..fresh(name)
        }),
    decreases chunks.len(),
{
    if chunks.len() > 0 {
        let init = chunks.drop_last();
        lemma_records_across_reads(name, init);
        assert(reads(chunks).drop_last() =~= reads(init));
        lemma_split_concat(concat_all(init), chunks.last());
        lemma_decoded_lines_concat(
            name,
            complete_lines(concat_all(init)),
            complete_lines(remainder(concat_all(init)) + chunks.last()),
        );
    }
}

/// A stream that is read to its end gives one record for each of its lines,
/// in the order of the lines, however the bytes were cut into chunks, and
/// whether or not the lines are well formed in the encoding.
pub proof fn lemma_records_of_whole_stream(name: Seq<char>, chunks: Seq<Seq<u8>>)
    ensures
        after_all(fresh(name), reads(chunks).push(StreamEvent::End)).1 == stream_records(
            name,
            concat_all(chunks),
        ),
        after_all(fresh(name), reads(chunks).push(StreamEvent::End)).1.len() == lines_of(
            concat_all(chunks),
        ).len(),
        !after_all(fresh(name), reads(chunks).push(StreamEvent::End)).0.open,
{
    let events = reads(chunks).push(StreamEvent::End);
    let stream = concat_all(chunks);
    lemma_records_across_reads(name, chunks);
    assert(events.drop_last() =~= reads(chunks));
    if remainder(stream).len() > 0 {
        lemma_decoded_lines_concat(name, complete_lines(stream), seq![remainder(stream)]);
    }
}

/// A child that writes whole lines gets each of them logged: if the stream
/// is the lines of `lines`, each with a newline after it, then however the
/// stream is cut into chunks, its records are the decoded lines of `lines`,
/// as many as there are lines and in the same order.
pub proof fn lemma_records_of_terminated_lines(
    name: Seq<char>,
    lines: Seq<Seq<u8>>,
    chunks: Seq<Seq<u8>>,
)
    requires
        forall|i: int| 0 <= i < lines.len() ==> newline_free(#[trigger] lines[i]),
        concat_all(chunks) == terminated(lines),
    ensures
        after_all(fresh(name), reads(chunks).push(StreamEvent::End)).1 == decoded_lines(
            name,
            lines,
        ),
        after_all(fresh(name), reads(chunks).push(StreamEvent::End)).1.len() == lines.len(),
{
    lemma_records_of_whole_stream(name, chunks);
    lemma_terminated_lines(lines);
}

/// Once a stream has ended, nothing that is reported of it changes the
/// pipeline or gives a record.
pub proof fn lemma_ended_stream_is_silent(view: PipelineView, events: Seq<StreamEvent>)
    requires
        !view.open,
    ensures
        after_all(view, events) == (view, Seq::<(Seq<char>, bool)>::empty()),
    decreases events.len(),
{
    if events.len() > 0 {
        lemma_ended_stream_is_silent(view, events.drop_last());
    }
}

/// Turns the bytes of one stream into log records, whatever the size of the
/// pieces in which the bytes arrive.
pub struct StreamPipeline {
    encoding: TextEncoding,
    splitter: LineSplitter,
    open: bool,
}

impl View for StreamPipeline {
    type V = PipelineView;

    closed spec fn view(&self) -> PipelineView {
        PipelineView { encoding: self.encoding@, pending: self.splitter@, open: self.open }
    }
}

impl StreamPipeline {
    /// The held fragment is short enough to decode.
    #[verifier::type_invariant]
    spec fn inv(self) -> bool {
        self.splitter@.len() <= MAX_DECODE_LEN
    }

    /// A pipeline for a stream that has just been opened.
    pub fn new(encoding: TextEncoding) -> (pipeline: StreamPipeline)
        ensures
            pipeline@ == fresh(encoding@),
    {
        StreamPipeline { encoding, splitter: LineSplitter::new(), open: true }
    }

    /// Whether the stream has yet to end.
    pub fn is_open(&self) -> (open: bool)
        ensures
            open == self@.open,
    {
        self.open
    }

    /// The number of bytes read since the last newline.
    pub fn pending_len(&self) -> (n: usize)
        ensures
            n == self@.pending.len(),
            n <= MAX_DECODE_LEN,
    {
        proof {
            use_type_invariant(self);
        }
        self.splitter.pending_len()
    }

    /// Takes the next bytes of the stream and gives a record for each line
    /// that they complete, in order. A line that is malformed in the
    /// encoding still gives a record, with replacement characters in its
    /// text. After the stream has ended, bytes are ignored.
    pub fn on_bytes(&mut self, chunk: &[u8]) -> (records: Vec<LogRecord>)
        requires
            old(self)@.pending.len() + chunk@.len() <= MAX_DECODE_LEN,
        ensures
            final(self)@ == after(old(self)@, StreamEvent::Bytes(chunk@)),
            record_views(records@) == records_on(old(self)@, StreamEvent::Bytes(chunk@)),
            forall|i: int|
                0 <= i < records@.len() && (#[trigger] records@[i]).had_errors
                    ==> records@[i].text@.contains(REPLACEMENT_CHARACTER),
    {
        let mut records: Vec<LogRecord> = Vec::new();
        if !self.open {
            return records;
        }
        proof {
            use_type_invariant(&*self);
        }
        let ghost joined = self.splitter@ + chunk@;
        let mut splitter = LineSplitter::new();
        std::mem::swap(&mut splitter, &mut self.splitter);
        let lines = splitter.push(chunk);
        proof {
            lemma_line_lengths(joined);
            assert forall|j: int| 0 <= j < lines.len() implies (#[trigger] lines@[j])@.len()
                <= MAX_DECODE_LEN by {
                assert(lines@[j]@ == byte_lines(lines@)[j]);
                assert(complete_lines(joined)[j].len() <= joined.len());
            }
        }
        self.splitter = splitter;
        let mut i: usize = 0;
        while i < lines.len()
            invariant
                i <= lines.len(),
                records@.len() == i,
                forall|j: int|
                    0 <= j < lines.len() ==> (#[trigger] lines@[j])@.len() <= MAX_DECODE_LEN,
                forall|j: int|
                    0 <= j < i ==> (#[trigger] records@[j])@ == decoded(
                        self.encoding@,
                        lines@[j]@,
                    ),
                forall|j: int|
                    0 <= j < i && (#[trigger] records@[j]).had_errors
                        ==> records@[j].text@.contains(REPLACEMENT_CHARACTER),
            decreases lines.len() - i,
        {
            let record = self.encoding.decode(lines[i].as_slice());
            records.push(record);
            i = i + 1;
        }
        records
    }

    /// Ends the stream. A fragment left after the last newline gives one
    /// last record; an empty one gives none.
    pub fn on_end(&mut self) -> (last: Option<LogRecord>)
        ensures
            final(self)@ == after(old(self)@, StreamEvent::End),
            match last {
                Some(record) => {
                    &&& records_on(old(self)@, StreamEvent::End) == seq![record@]
                    &&& record.had_errors ==> record.text@.contains(REPLACEMENT_CHARACTER)
                },
                None => records_on(old(self)@, StreamEvent::End) == Seq::<
                    (Seq<char>, bool),
                >::empty(),
            },
    {
        if !self.open {
            return None;
        }
        proof {
            use_type_invariant(&*self);
        }
        let mut splitter = LineSplitter::new();
        std::mem::swap(&mut splitter, &mut self.splitter);
        self.open = false;
        match splitter.finish() {
            Some(line) => Some(self.encoding.decode(line.as_slice())),
            None => None,
        }
    }

    /// Gives up the stream after a failed read: the stream counts as ended,
    /// and the fragment read so far is dropped without a record.
    pub fn on_read_error(&mut self)
        ensures
            final(self)@ == after(old(self)@, StreamEvent::ReadError),
    {
        if self.open {
            self.splitter = LineSplitter::new();
            self.open = false;
        }
    }
}

} // verus!

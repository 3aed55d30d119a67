//! Splitting a byte stream into lines.
//!
//! A stream is cut at every newline byte. The newline ends a line and is not
//! part of it. Bytes after the last newline form a fragment, which counts as
//! a last line only if it is not empty.

use vstd::prelude::*;

verus! {

/// The byte that ends a line.
pub const NEWLINE: u8 = 10;

/// No byte of `s` is a newline.
pub open spec fn newline_free(s: Seq<u8>) -> bool {
    forall|i: int| 0 <= i < s.len() ==> s[i] != NEWLINE
}

/// Every line of `lines` followed by a newline, one after the other.
pub open spec fn terminated(lines: Seq<Seq<u8>>) -> Seq<u8>
    decreases lines.len(),
{
    if lines.len() == 0 {
        Seq::empty()
    } else {
        terminated(lines.drop_last()) + lines.last() + seq![NEWLINE]
    }
}

/// `s` is the lines of `lines`, each ended by a newline, followed by `rest`,
/// and the newlines that end the lines are the only ones in `s`.
pub open spec fn splits_as(s: Seq<u8>, lines: Seq<Seq<u8>>, rest: Seq<u8>) -> bool {
    &&& s == terminated(lines) + rest
    &&& forall|i: int| 0 <= i < lines.len() ==> newline_free(#[trigger] lines[i])
    &&& newline_free(rest)
}

/// The lines of `s` that a newline ends, in order, without their newlines.
pub open spec fn complete_lines(s: Seq<u8>) -> Seq<Seq<u8>>
    decreases s.len(),
{
    if s.len() == 0 {
        Seq::empty()
    } else if s.last() == NEWLINE {
        complete_lines(s.drop_last()).push(remainder(s.drop_last()))
    } else {
        complete_lines(s.drop_last())
    }
}

/// The bytes of `s` after its last newline; all of `s` if it has none.
pub open spec fn remainder(s: Seq<u8>) -> Seq<u8>
    decreases s.len(),
{
    if s.len() == 0 {
        Seq::empty()
    } else if s.last() == NEWLINE {
        Seq::empty()
    } else {
        remainder(s.drop_last()).push(s.last())
    }
}

/// The lines of a stream that has ended: its complete lines, then the
/// fragment after the last newline unless that fragment is empty.
pub open spec fn lines_of(s: Seq<u8>) -> Seq<Seq<u8>> {
    if remainder(s).len() == 0 {
        complete_lines(s)
    } else {
        complete_lines(s).push(remainder(s))
    }
}

/// The chunks of `chunks` one after the other.
pub open spec fn concat_all(chunks: Seq<Seq<u8>>) -> Seq<u8>
    decreases chunks.len(),
{
    if chunks.len() == 0 {
        Seq::empty()
    } else {
        concat_all(chunks.drop_last()) + chunks.last()
    }
}

/// What a splitter that holds `pending` gives for `chunks`, fed one at a
/// time: the lines it hands out, and the fragment it holds afterwards.
pub open spec fn fed(pending: Seq<u8>, chunks: Seq<Seq<u8>>) -> (Seq<Seq<u8>>, Seq<u8>)
    decreases chunks.len(),
{
    if chunks.len() == 0 {
        (Seq::empty(), pending)
    } else {
        let before = fed(pending, chunks.drop_last());
        let joined = before.1 + chunks.last();
        (before.0 + complete_lines(joined), remainder(joined))
    }
}

/// The byte sequences that the vectors of `lines` hold.
pub open spec fn byte_lines(lines: Seq<Vec<u8>>) -> Seq<Seq<u8>> {
    Seq::new(lines.len(), |i: int| lines[i]@)
}

/// Appending one byte either ends a line or extends the fragment.
pub proof fn lemma_push_byte(s: Seq<u8>, b: u8)
    ensures
        b == NEWLINE ==> complete_lines(s.push(b)) == complete_lines(s).push(remainder(s)),
        b == NEWLINE ==> remainder(s.push(b)) == Seq::<u8>::empty(),
        b != NEWLINE ==> complete_lines(s.push(b)) == complete_lines(s),
        b != NEWLINE ==> remainder(s.push(b)) == remainder(s).push(b),
{
    assert(s.push(b).drop_last() =~= s);
}

/// The fragment after the last newline holds no newline and is no longer
/// than the stream.
pub proof fn lemma_remainder_newline_free(s: Seq<u8>)
    ensures
        newline_free(remainder(s)),
        remainder(s).len() <= s.len(),
    decreases s.len(),
{
    if s.len() > 0 {
        lemma_remainder_newline_free(s.drop_last());
    }
}

/// A stream without newlines has no complete line and is its own fragment.
pub proof fn lemma_newline_free_is_fragment(s: Seq<u8>)
    requires
        newline_free(s),
    ensures
        complete_lines(s) == Seq::<Seq<u8>>::empty(),
        remainder(s) == s,
    decreases s.len(),
{
    if s.len() > 0 {
        lemma_newline_free_is_fragment(s.drop_last());
    }
}

/// Line integrity across reads: cutting a stream in two anywhere changes
/// neither its lines nor its fragment. The lines of `a + b` are the lines
/// of `a`, then the lines of what `a` left over followed by `b`.
pub proof fn lemma_split_concat(a: Seq<u8>, b: Seq<u8>)
    ensures
        complete_lines(a + b) == complete_lines(a) + complete_lines(remainder(a) + b),
        remainder(a + b) == remainder(remainder(a) + b),
    decreases b.len(),
{
    let r = remainder(a);
    if b.len() == 0 {
        lemma_remainder_newline_free(a);
        lemma_newline_free_is_fragment(r);
    } else {
        let b0 = b.drop_last();
        lemma_split_concat(a, b0);
        assert((a + b).drop_last() =~= a + b0);
        assert((r + b).drop_last() =~= r + b0);
    }
}

/// Every stream splits into its complete lines and its fragment.
pub proof fn lemma_split_exists(s: Seq<u8>)
    ensures
        splits_as(s, complete_lines(s), remainder(s)),
    decreases s.len(),
{
    if s.len() == 0 {
        assert(s =~= terminated(complete_lines(s)) + remainder(s));
    } else {
        let p = s.drop_last();
        lemma_split_exists(p);
        lemma_remainder_newline_free(p);
        assert(p.push(s.last()) =~= s);
        if s.last() == NEWLINE {
            let lines = complete_lines(p).push(remainder(p));
            assert(lines.drop_last() =~= complete_lines(p));
            assert(s =~= terminated(lines) + remainder(s));
        }
    }
}

/// A stream splits in one way only: whatever lines and rest make it up are
/// its complete lines and its fragment.
pub proof fn lemma_split_unique(s: Seq<u8>, lines: Seq<Seq<u8>>, rest: Seq<u8>)
    requires
        splits_as(s, lines, rest),
    ensures
        lines == complete_lines(s),
        rest == remainder(s),
    decreases lines.len(),
{
    if lines.len() == 0 {
        lemma_newline_free_is_fragment(s);
    } else {
        let head = terminated(lines.drop_last()) + lines.last();
        lemma_split_unique(head, lines.drop_last(), lines.last());
        lemma_push_byte(head, NEWLINE);
        let ended = head.push(NEWLINE);
        assert(ended =~= terminated(lines));
        lemma_split_concat(ended, rest);
        lemma_newline_free_is_fragment(rest);
    }
}

/// A stream of whole lines gives back exactly those lines: if no line of
/// `lines` holds a newline, the stream that writes each of them with a
/// newline after it has `lines` as its lines, in the same order.
pub proof fn lemma_terminated_lines(lines: Seq<Seq<u8>>)
    requires
        forall|i: int| 0 <= i < lines.len() ==> newline_free(#[trigger] lines[i]),
    ensures
        lines_of(terminated(lines)) == lines,
        complete_lines(terminated(lines)) == lines,
        remainder(terminated(lines)).len() == 0,
{
    lemma_split_unique(terminated(lines), lines, Seq::empty());
}

/// Line integrity across any number of reads: feeding a stream chunk by
/// chunk hands out the complete lines of the whole stream and leaves its
/// fragment, however the stream was cut into chunks.
pub proof fn lemma_fed_chunks(pending: Seq<u8>, chunks: Seq<Seq<u8>>)
    requires
        newline_free(pending),
    ensures
        fed(pending, chunks).0 == complete_lines(pending + concat_all(chunks)),
        fed(pending, chunks).1 == remainder(pending + concat_all(chunks)),
    decreases chunks.len(),
{
    if chunks.len() == 0 {
        lemma_newline_free_is_fragment(pending);
    } else {
        let init = chunks.drop_last();
        lemma_fed_chunks(pending, init);
        let whole = pending + concat_all(init);
        lemma_split_concat(whole, chunks.last());
        assert(whole + chunks.last() =~= pending + concat_all(chunks));
    }
}

/// No line of a stream is longer than the stream.
pub proof fn lemma_line_lengths(s: Seq<u8>)
    ensures
        forall|i: int|
            0 <= i < complete_lines(s).len() ==> (#[trigger] complete_lines(s)[i]).len()
                <= s.len(),
        remainder(s).len() <= s.len(),
        complete_lines(s).len() <= s.len(),
    decreases s.len(),
{
    if s.len() > 0 {
        lemma_line_lengths(s.drop_last());
        lemma_remainder_newline_free(s.drop_last());
    }
}

/// Cuts a byte stream into lines as it arrives.
///
/// The splitter holds the bytes that came after the last newline it saw.
/// Its view is that fragment.
pub struct LineSplitter {
    pending: Vec<u8>,
}

impl View for LineSplitter {
    type V = Seq<u8>;

    closed spec fn view(&self) -> Seq<u8> {
        self.pending@
    }
}

impl LineSplitter {
    /// The fragment that a splitter holds never contains a newline.
    #[verifier::type_invariant]
    spec fn inv(self) -> bool {
        newline_free(self.pending@)
    }

    /// A splitter at the start of a stream.
    pub fn new() -> (splitter: LineSplitter)
        ensures
            splitter@ == Seq::<u8>::empty(),
    {
        LineSplitter { pending: Vec::new() }
    }

    /// The number of bytes held back since the last newline.
    pub fn pending_len(&self) -> (n: usize)
        ensures
            n == self@.len(),
    {
        self.pending.len()
    }

    /// Takes the next bytes of the stream and hands out the lines that they
    /// complete, in order. The held fragment comes first in the first of
    /// them; what follows the last newline is held back.
    pub fn push(&mut self, chunk: &[u8]) -> (lines: Vec<Vec<u8>>)
        ensures
            byte_lines(lines@) == complete_lines(old(self)@ + chunk@),
            final(self)@ == remainder(old(self)@ + chunk@),
    {
        proof {
            use_type_invariant(&*self);
        }
        let ghost start = self.pending@;
        let mut current: Vec<u8> = Vec::new();
        std::mem::swap(&mut current, &mut self.pending);
        let mut lines: Vec<Vec<u8>> = Vec::new();
        proof {
            lemma_newline_free_is_fragment(start);
        }
        let mut i: usize = 0;
        while i < chunk.len()
            invariant
                i <= chunk.len(),
                byte_lines(lines@) == complete_lines(start + chunk@.take(i as int)),
                current@ == remainder(start + chunk@.take(i as int)),
            decreases chunk.len() - i,
        {
            let b: u8 = chunk[i];
            proof {
                let seen = start + chunk@.take(i as int);
                lemma_push_byte(seen, b);
                assert(seen.push(b) =~= start + chunk@.take(i as int + 1));
            }
            if b == NEWLINE {
                let mut line: Vec<u8> = Vec::new();
                std::mem::swap(&mut line, &mut current);
                lines.push(line);
            } else {
                current.push(b);
            }
            i = i + 1;
        }
        proof {
            assert(chunk@.take(i as int) =~= chunk@);
            lemma_remainder_newline_free(start + chunk@);
        }
        self.pending = current;
        lines
    }

    /// Ends the stream: hands out the held fragment as the last line, or
    /// nothing if no byte came after the last newline.
    pub fn finish(self) -> (last: Option<Vec<u8>>)
        ensures
            match last {
                Some(line) => line@ == self@ && self@.len() > 0,
                None => self@.len() == 0,
            },
    {
        if self.pending.len() == 0 {
            None
        } else {
            Some(self.pending)
        }
    }
}

/// Cuts a whole stream into its lines.
pub fn split_lines(bytes: &[u8]) -> (lines: Vec<Vec<u8>>)
    ensures
        byte_lines(lines@) == lines_of(bytes@),
{
    let mut splitter = LineSplitter::new();
    let mut lines = splitter.push(bytes);
    if let Some(line) = splitter.finish() {
        lines.push(line);
    }
    lines
}

} // verus!

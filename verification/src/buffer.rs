//! The chunked character buffer.
//!
//! A producer appends chunks of characters and finally closes the buffer; a
//! consumer takes the characters out one at a time, in the order in which they
//! were submitted, and may hand one character back so that it is read again.
//!
//! The buffer itself never waits. Where a reader would have to wait for the
//! producer, `next_char` reports `BufferError::Pending` and leaves the buffer as
//! it was: the caller waits for the next `add_data` or `eof` and asks again.

use vstd::prelude::*;

verus! {

/// One contiguous span of characters, as the producer hands it over.
pub type BufferChunk = Vec<char>;

/// Why the buffer did not do what it was asked.
#[derive(Debug, Clone, Copy, PartialEq, Eq, Structural)]
pub enum BufferError {
    /// A chunk was submitted after the end of the stream had been signalled.
    Closed,
    /// Every character has been read and the end of the stream was signalled.
    EndOfStream,
    /// Every character has been read, and more may still be submitted.
    Pending,
}

/// What a buffer holds, as its users see it: the characters that are still to
/// be read, in reading order, and whether the end of the stream was signalled.
pub struct BufferView {
    pub pending: Seq<char>,
    pub closed: bool,
}

impl BufferView {
    /// The buffer that nothing has been submitted to.
    pub open spec fn fresh() -> BufferView {
        BufferView { pending: Seq::empty(), closed: false }
    }

    /// The buffer after `chunk` has been offered to it: appended while the
    /// buffer is open, refused once it is closed.
    pub open spec fn submit(self, chunk: Seq<char>) -> BufferView {
        if self.closed {
            self
        } else {
            BufferView { pending: self.pending + chunk, closed: false }
        }
    }

    /// The buffer after the end of the stream was signalled.
    pub open spec fn close(self) -> BufferView {
        BufferView { pending: self.pending, closed: true }
    }

    /// The buffer after `c` was handed back to it.
    pub open spec fn pushback(self, c: char) -> BufferView {
        BufferView { pending: seq![c] + self.pending, closed: self.closed }
    }

    /// The buffer with the characters of `text` put before all that is
    /// pending.
    pub open spec fn with_front(self, text: Seq<char>) -> BufferView {
        BufferView { pending: text + self.pending, closed: self.closed }
    }

    /// What one read returns, and the buffer after it.
    pub open spec fn next(self) -> (Result<char, BufferError>, BufferView) {
        if self.pending.len() > 0 {
            (
                Ok(self.pending[0]),
                BufferView { pending: self.pending.drop_first(), closed: self.closed },
            )
        } else if self.closed {
            (Err(BufferError::EndOfStream), self)
        } else {
            (Err(BufferError::Pending), self)
        }
    }

    /// The buffer after each chunk of `chunks` has been offered in turn.
    pub open spec fn submit_all(self, chunks: Seq<Seq<char>>) -> BufferView
        decreases chunks.len(),
    {
        if chunks.len() == 0 {
            self
        } else {
            self.submit_all(chunks.drop_last()).submit(chunks.last())
        }
    }

    /// The buffer after `n` reads.
    pub open spec fn after_reads(self, n: nat) -> BufferView
        decreases n,
    {
        if n == 0 {
            self
        } else {
            self.after_reads((n - 1) as nat).next().1
        }
    }

    /// What the read that follows `n` earlier reads returns.
    pub open spec fn nth_read(self, n: nat) -> Result<char, BufferError> {
        self.after_reads(n).next().0
    }
}

/// The characters of `chunks`, one chunk after the other.
pub open spec fn concat(chunks: Seq<Seq<char>>) -> Seq<char>
    decreases chunks.len(),
{
    if chunks.len() == 0 {
        Seq::empty()
    } else {
        concat(chunks.drop_last()) + chunks.last()
    }
}

/// The characters of the queued chunks, one chunk after the other.
pub closed spec fn queued(chunks: Seq<BufferChunk>) -> Seq<char>
    decreases chunks.len(),
{
    if chunks.len() == 0 {
        Seq::empty()
    } else {
        queued(chunks.drop_last()) + chunks.last()@
    }
}

proof fn lemma_queued_push(chunks: Seq<BufferChunk>, chunk: BufferChunk)
    ensures
        queued(chunks.push(chunk)) == queued(chunks) + chunk@,
{
    assert(chunks.push(chunk).drop_last() =~= chunks);
}

proof fn lemma_queued_front(chunks: Seq<BufferChunk>)
    requires
        chunks.len() > 0,
    ensures
        queued(chunks) == chunks[0]@ + queued(chunks.remove(0)),
    decreases chunks.len(),
{
    if chunks.len() == 1 {
        assert(chunks.drop_last() =~= Seq::<BufferChunk>::empty());
        assert(chunks.remove(0) =~= Seq::<BufferChunk>::empty());
        assert(queued(chunks) =~= chunks[0]@ + queued(chunks.remove(0)));
    } else {
        lemma_queued_front(chunks.drop_last());
        assert(chunks.drop_last().remove(0) =~= chunks.remove(0).drop_last());
        assert(chunks.remove(0).last() == chunks.last());
        assert(queued(chunks) =~= chunks[0]@ + queued(chunks.remove(0)));
    }
}

/// A queue of chunks that are not yet fully read, the place of the next
/// unread character in the first of them, and the end-of-stream flag.
pub struct Buffer {
    buffers: Vec<BufferChunk>,
    current_buffer_idx: usize,
    /// Whether the producer has signalled that nothing more will come.
    eof: bool,
}

impl View for Buffer {
    type V = BufferView;

    closed spec fn view(&self) -> BufferView {
        BufferView {
            pending: queued(self.buffers@).skip(self.current_buffer_idx as int),
            closed: self.eof,
        }
    }
}

impl Buffer {
    /// No queued chunk is empty, and the cursor stands on an unread character
    /// of the first chunk (at 0 where nothing is queued).
    pub closed spec fn wf(&self) -> bool {
        &&& forall|i: int| 0 <= i < self.buffers@.len() ==> (#[trigger] self.buffers@[i])@.len() > 0
        &&& self.buffers@.len() == 0 ==> self.current_buffer_idx == 0
        &&& self.buffers@.len() > 0 ==> self.current_buffer_idx < self.buffers@[0]@.len()
    }

    /// An open buffer with nothing in it.
    pub fn new() -> (buffer: Buffer)
        ensures
            buffer.wf(),
            buffer@ == BufferView::fresh(),
    {
        let buffer = Buffer { buffers: Vec::new(), current_buffer_idx: 0, eof: false };
        assert(buffer@.pending =~= Seq::<char>::empty());
        buffer
    }

    /// Appends a chunk, unless the end of the stream was signalled: then the
    /// chunk is refused and the buffer stays as it is.
    pub fn add_data(&mut self, chunk: BufferChunk) -> (result: Result<(), BufferError>)
        requires
            old(self).wf(),
        ensures
            final(self).wf(),
            final(self)@ == old(self)@.submit(chunk@),
            old(self)@.closed ==> result == Err::<(), BufferError>(BufferError::Closed),
            old(self)@.closed ==> *final(self) == *old(self),
            !old(self)@.closed ==> result == Ok::<(), BufferError>(()),
    {
        if self.eof {
            return Err(BufferError::Closed);
        }
        if chunk.len() == 0 {
            assert(self@.pending + chunk@ =~= self@.pending);
            return Ok(());
        }
        proof {
            let cursor = self.current_buffer_idx as int;
            let all = queued(self.buffers@);
            lemma_queued_push(self.buffers@, chunk);
            assert((all + chunk@).skip(cursor) =~= all.skip(cursor) + chunk@) by {
                if self.buffers@.len() > 0 {
                    lemma_queued_front(self.buffers@);
                }
            }
        }
        self.buffers.push(chunk);
        Ok(())
    }

    /// Signals the end of the stream. What is queued can still be read.
    pub fn eof(&mut self)
        requires
            old(self).wf(),
        ensures
            final(self).wf(),
            final(self)@ == old(self)@.close(),
    {
        self.eof = true;
    }

    /// Hands `c` back: it becomes the next character to be read, ahead of all
    /// that is queued. This is allowed after the end of the stream as well.
    pub fn replace_char(&mut self, c: char)
        requires
            old(self).wf(),
        ensures
            final(self).wf(),
            final(self)@ == old(self)@.pushback(c),
    {
        let mut new_buffer: Vec<char> = Vec::new();
        new_buffer.push(c);
        if self.buffers.len() > 0 {
            let ghost front = self.buffers@[0]@;
            let start: usize = self.current_buffer_idx;
            let mut i: usize = start;
            while i < self.buffers[0].len()
                invariant
                    self.buffers@.len() > 0,
                    self.buffers@[0]@ == front,
                    start <= i <= front.len(),
                    new_buffer@ == seq![c] + front.subrange(start as int, i as int),
                decreases front.len() - i,
            {
                new_buffer.push(self.buffers[0][i]);
                assert(new_buffer@ =~= seq![c] + front.subrange(start as int, i + 1));
                i += 1;
            }
            proof {
                let unread = queued(self.buffers@).skip(start as int);
                lemma_queued_front(self.buffers@);
                assert(new_buffer@ + queued(self.buffers@.remove(0)) =~= seq![c] + unread);
            }
            self.current_buffer_idx = 0;
            self.buffers.remove(0);
        }
        proof {
            let extended = self.buffers@.insert(0, new_buffer);
            lemma_queued_front(extended);
            assert(extended.remove(0) =~= self.buffers@);
            assert(queued(extended).skip(0) =~= new_buffer@ + queued(self.buffers@));
        }
        self.buffers.insert(0, new_buffer);
    }

    /// Takes the next character out. Where none is left, says whether the
    /// stream has ended or more may still come, and changes nothing.
    pub fn next_char(&mut self) -> (result: Result<char, BufferError>)
        requires
            old(self).wf(),
        ensures
            final(self).wf(),
            (result, final(self)@) == old(self)@.next(),
    {
        if self.buffers.len() == 0 {
            assert(self@.pending =~= Seq::<char>::empty());
            if self.eof {
                return Err(BufferError::EndOfStream);
            } else {
                return Err(BufferError::Pending);
            }
        }
        proof {
            lemma_queued_front(self.buffers@);
        }
        let ghost before = self@;
        let c = self.buffers[0][self.current_buffer_idx];
        let front_len: usize = self.buffers[0].len();
        if self.current_buffer_idx + 1 < front_len {
            self.current_buffer_idx += 1;
        } else {
            self.current_buffer_idx = 0;
            self.buffers.remove(0);
        }
        assert(self@.pending =~= before.pending.drop_first());
        Ok(c)
    }
}

/// Offering chunks to an open buffer appends their characters in order and
/// leaves the buffer open.
pub proof fn lemma_submit_all_appends(start: BufferView, chunks: Seq<Seq<char>>)
    requires
        !start.closed,
    ensures
        start.submit_all(chunks) == (BufferView {
            pending: start.pending + concat(chunks),
            closed: false,
        }),
    decreases chunks.len(),
{
    if chunks.len() == 0 {
        assert(start.pending + concat(chunks) =~= start.pending);
    } else {
        lemma_submit_all_appends(start, chunks.drop_last());
        assert(start.pending + concat(chunks.drop_last()) + chunks.last() =~= start.pending
            + concat(chunks));
    }
}

/// Reads take the pending characters from the front, one each, until none is
/// left; from then on they change nothing.
pub proof fn lemma_after_reads_skips(start: BufferView, n: nat)
    ensures
        start.after_reads(n) == (BufferView {
            pending: if n <= start.pending.len() {
                start.pending.skip(n as int)
            } else {
                Seq::empty()
            },
            closed: start.closed,
        }),
    decreases n,
{
    if n == 0 {
        assert(start.pending.skip(0) =~= start.pending);
    } else {
        lemma_after_reads_skips(start, (n - 1) as nat);
        let before = start.after_reads((n - 1) as nat);
        if n <= start.pending.len() {
            assert(before.pending.drop_first() =~= start.pending.skip(n as int));
        } else if n - 1 == start.pending.len() {
            assert(before.pending =~= Seq::<char>::empty());
        }
    }
}

/// Whatever chunks are submitted to a fresh buffer before it is closed, reading
/// it character by character gives their concatenation, in order and with
/// nothing lost or repeated, and every read after that reports the end of the
/// stream.
pub proof fn lemma_reads_reproduce_chunks(chunks: Seq<Seq<char>>, n: nat)
    ensures
        BufferView::fresh().submit_all(chunks).close().nth_read(n) == (
        if n < concat(chunks).len() {
            Ok::<char, BufferError>(concat(chunks)[n as int])
        } else {
            Err::<char, BufferError>(BufferError::EndOfStream)
        }),
{
    let fresh = BufferView::fresh();
    lemma_submit_all_appends(fresh, chunks);
    assert(fresh.pending + concat(chunks) =~= concat(chunks));
    let closed = fresh.submit_all(chunks).close();
    lemma_after_reads_skips(closed, n);
}

/// Before the buffer is closed, reading it gives the characters submitted so
/// far and then reports that more may come.
pub proof fn lemma_reads_before_close(chunks: Seq<Seq<char>>, n: nat)
    ensures
        BufferView::fresh().submit_all(chunks).nth_read(n) == (
        if n < concat(chunks).len() {
            Ok::<char, BufferError>(concat(chunks)[n as int])
        } else {
            Err::<char, BufferError>(BufferError::Pending)
        }),
{
    let fresh = BufferView::fresh();
    lemma_submit_all_appends(fresh, chunks);
    assert(fresh.pending + concat(chunks) =~= concat(chunks));
    lemma_after_reads_skips(fresh.submit_all(chunks), n);
}

/// A closed buffer refuses every chunk and stays exactly as it is.
pub proof fn lemma_submit_after_close(buffer: BufferView, chunk: Seq<char>)
    ensures
        buffer.close().submit(chunk) == buffer.close(),
{
}

/// A character that was handed back is the next one read, and the read leaves
/// the buffer as it was before the character was handed back.
pub proof fn lemma_pushback_then_next(buffer: BufferView, c: char)
    ensures
        buffer.pushback(c).next() == (Ok::<char, BufferError>(c), buffer),
{
    assert((seq![c] + buffer.pending).drop_first() =~= buffer.pending);
}

/// Handing back the character that was just read restores the buffer.
pub proof fn lemma_next_then_pushback(buffer: BufferView, c: char)
    requires
        buffer.next().0 == Ok::<char, BufferError>(c),
    ensures
        buffer.next().1.pushback(c) == buffer,
{
    assert(seq![c] + buffer.pending.drop_first() =~= buffer.pending);
}

/// A character that was handed back is read before everything else, also
/// before what is submitted after it was handed back.
pub proof fn lemma_pushback_comes_first(buffer: BufferView, c: char, chunk: Seq<char>)
    ensures
        buffer.pushback(c).submit(chunk).next().0 == Ok::<char, BufferError>(c),
{
    assert(buffer.pushback(c).pending[0] == c);
}

/// Signalling the end of the stream a second time changes nothing.
pub proof fn lemma_close_is_idempotent(buffer: BufferView)
    ensures
        buffer.close().close() == buffer.close(),
{
}

} // verus!

//! The per-connection state machine: it buffers a request until the length
//! that its framing header declares is reached, then answers and closes.
use vstd::prelude::*;

use crate::framing::{
    body_len, body_length, body_start_from, content_length_of, declared_length, has_marker,
    header_value, lemma_declared_length_settled, FramingError,
};
use crate::interest::Interest;

verus! {

/// The lifecycle of a connection: Reading, then Writing, then Closed.
#[derive(Clone, Copy, Debug, PartialEq, Eq, Structural)]
pub enum ConnState {
    Reading,
    Writing,
    Closed,
}

/// The request state of one connection.
#[derive(Debug)]
pub struct RequestContext {
    /// The body length that the framing header declares; 0 until one is seen.
    pub content_length: usize,
    /// Every byte received so far.
    pub buf: Vec<u8>,
    pub state: ConnState,
}

/// The expected length once the buffer holds `total`: the length it
/// declares, or the previous one `cl` when it declares none or a malformed one.
pub open spec fn length_after(total: Seq<u8>, cl: usize) -> usize {
    match declared_length(total) {
        Ok(Some(n)) => n,
        _ => cl,
    }
}

/// The state once the buffer holds `total`, the expected length having been
/// `cl`: Writing as soon as the body reaches the expected length, Closed when
/// the header is malformed, else Reading.
pub open spec fn state_after(total: Seq<u8>, cl: usize) -> ConnState {
    match declared_length(total) {
        Ok(_) => if body_len(total) >= length_after(total, cl) {
            ConnState::Writing
        } else {
            ConnState::Reading
        },
        Err(_) => ConnState::Closed,
    }
}

/// What a read reports once the buffer holds `total`, the expected length
/// having been `cl`: the interest to arm next, or why the connection must be
/// dropped.
pub open spec fn read_outcome(total: Seq<u8>, cl: usize) -> Result<Interest, FramingError> {
    match declared_length(total) {
        Ok(_) => if body_len(total) >= length_after(total, cl) {
            Ok(Interest::Writable)
        } else {
            Ok(Interest::Readable)
        },
        Err(e) => Err(e),
    }
}

/// The bytes of `chunks`, one after another.
pub open spec fn concat(chunks: Seq<Seq<u8>>) -> Seq<u8>
    decreases chunks.len(),
{
    if chunks.len() == 0 {
        Seq::empty()
    } else {
        concat(chunks.drop_last()) + chunks.last()
    }
}

/// The buffer, the expected length and the state of a fresh connection after
/// one `read_cb` per chunk of `chunks`, in order.
pub open spec fn after_reads(chunks: Seq<Seq<u8>>) -> (Seq<u8>, usize, ConnState)
    decreases chunks.len(),
{
    if chunks.len() == 0 {
        (Seq::empty(), 0, ConnState::Reading)
    } else {
        let prev = after_reads(chunks.drop_last());
        let total = prev.0 + chunks.last();
        (total, length_after(total, prev.1), state_after(total, prev.1))
    }
}

proof fn lemma_buffer_is_concat(chunks: Seq<Seq<u8>>)
    ensures
        after_reads(chunks).0 == concat(chunks),
    decreases chunks.len(),
{
    if chunks.len() > 0 {
        lemma_buffer_is_concat(chunks.drop_last());
    }
}

proof fn lemma_concat_prefix(chunks: Seq<Seq<u8>>, j: int)
    requires
        0 <= j <= chunks.len(),
    ensures
        concat(chunks.subrange(0, j)).len() <= concat(chunks).len(),
        concat(chunks.subrange(0, j)) == concat(chunks).subrange(
            0,
            concat(chunks.subrange(0, j)).len() as int,
        ),
    decreases chunks.len(),
{
    if j == chunks.len() {
        assert(chunks.subrange(0, j) =~= chunks);
        assert(concat(chunks).subrange(0, concat(chunks).len() as int) =~= concat(chunks));
    } else {
        let d = chunks.drop_last();
        assert(chunks.subrange(0, j) =~= d.subrange(0, j));
        lemma_concat_prefix(d, j);
        let p = concat(d.subrange(0, j));
        assert((concat(d) + chunks.last()).subrange(0, p.len() as int) =~= concat(d).subrange(
            0,
            p.len() as int,
        ));
    }
}

/// However the request is split over reads, the switch to Writing comes
/// exactly when it should: after any read by which the marker and the
/// complete header line declaring `n` have arrived, the connection expects
/// `n` bytes of body and is Writing exactly when at least `n` body bytes are
/// buffered.
pub proof fn lemma_switch_regardless_of_chunking(chunks: Seq<Seq<u8>>, j: int, n: usize)
    requires
        1 <= j <= chunks.len(),
        declared_length(concat(chunks)) == Ok::<Option<usize>, FramingError>(Some(n)),
        has_marker(concat(chunks.subrange(0, j))),
        header_value(concat(chunks.subrange(0, j))) is Some,
    ensures
        after_reads(chunks.subrange(0, j)).0 == concat(chunks.subrange(0, j)),
        after_reads(chunks.subrange(0, j)).1 == n,
        after_reads(chunks.subrange(0, j)).2 == ConnState::Writing <==> body_len(
            concat(chunks.subrange(0, j)),
        ) >= n,
{
    let c = chunks.subrange(0, j);
    lemma_buffer_is_concat(c);
    lemma_concat_prefix(chunks, j);
    lemma_declared_length_settled(concat(chunks), concat(c).len() as int);
    lemma_buffer_is_concat(c.drop_last());
}

/// A fresh connection reads with expected length 0; when the bytes of its
/// first read declare no length, that read leaves it Writing, ready to
/// answer, and arms the writable interest.
pub proof fn lemma_no_header_writes_after_first_read(data: Seq<u8>)
    requires
        !has_marker(data) || header_value(data) is None,
    ensures
        declared_length(data) == Ok::<Option<usize>, FramingError>(None),
        after_reads(seq![data]) == (data, 0usize, ConnState::Writing),
        read_outcome(data, 0) == Ok::<Interest, FramingError>(Interest::Writable),
{
    let c = seq![data];
    assert(c.drop_last() =~= Seq::<Seq<u8>>::empty());
    assert(after_reads(c.drop_last()) == (Seq::<u8>::empty(), 0usize, ConnState::Reading));
    assert(Seq::<u8>::empty() + data =~= data);
    assert(body_len(data) >= 0) by {
        lemma_body_start_bounded(data, 0, 0);
    }
    assert(after_reads(c) == (data, length_after(data, 0), state_after(data, 0)));
}

proof fn lemma_body_start_bounded(s: Seq<u8>, start: int, i: int)
    requires
        0 <= i,
    ensures
        match body_start_from(s, start, i) {
            Some(b) => b <= s.len(),
            None => true,
        },
    decreases s.len() - i,
{
    if i < s.len() {
        lemma_body_start_bounded(s, i + 1, i + 1);
        lemma_body_start_bounded(s, start, i + 1);
    }
}

impl RequestContext {
    /// A fresh connection: nothing buffered, nothing declared, reading.
    pub fn new() -> (r: RequestContext)
        ensures
            r.buf@ == Seq::<u8>::empty(),
            r.content_length == 0,
            r.state == ConnState::Reading,
    {
        RequestContext { content_length: 0, buf: Vec::new(), state: ConnState::Reading }
    }

    /// Sets the expected length from the framing header of the whole buffer;
    /// without a header it stays as it was, and a malformed header leaves it
    /// as it was and is reported.
    pub fn parse_and_set_content_length(&mut self) -> (r: Result<(), FramingError>)
        ensures
            final(self).buf@ == old(self).buf@,
            final(self).state == old(self).state,
            final(self).content_length == length_after(old(self).buf@, old(self).content_length),
            r == match declared_length(old(self).buf@) {
                Ok(_) => Ok(()),
                Err(e) => Err(e),
            },
    {
        match content_length_of(self.buf.as_slice()) {
            Ok(Some(n)) => {
                self.content_length = n;
                Ok(())
            },
            Ok(None) => Ok(()),
            Err(e) => Err(e),
        }
    }

    /// Handles a readable event whose read returned `received` (empty when the
    /// read would block): appends it, re-reads the framing header and decides
    /// the interest to arm next, by comparing the body bytes buffered so far
    /// with the expected length.
    pub fn read_cb(&mut self, received: &[u8]) -> (r: Result<Interest, FramingError>)
        requires
            old(self).state != ConnState::Closed,
            old(self).buf@.len() + received@.len() <= usize::MAX,
        ensures
            final(self).buf@ == old(self).buf@ + received@,
            final(self).content_length == length_after(final(self).buf@, old(self).content_length),
            final(self).state == state_after(final(self).buf@, old(self).content_length),
            r == read_outcome(final(self).buf@, old(self).content_length),
    {
        let ghost before = self.buf@;
        self.buf.extend_from_slice(received);
        assert(self.buf@ =~= before + received@);
        match self.parse_and_set_content_length() {
            Err(e) => {
                self.state = ConnState::Closed;
                Err(e)
            },
            Ok(()) => {
                if body_length(self.buf.as_slice()) >= self.content_length {
                    self.state = ConnState::Writing;
                    Ok(Interest::Writable)
                } else {
                    self.state = ConnState::Reading;
                    Ok(Interest::Readable)
                }
            },
        }
    }

    /// Handles the writable event: the response has been attempted, and
    /// whatever its outcome the connection is closed.
    pub fn write_cb(&mut self)
        requires
            old(self).state != ConnState::Closed,
        ensures
            final(self).buf@ == old(self).buf@,
            final(self).content_length == old(self).content_length,
            final(self).state == ConnState::Closed,
    {
        self.state = ConnState::Closed;
    }
}

} // verus!

//! The upload of one blob as a session that can be resumed: where to send
//! the next bytes, and from which offset.

use crate::error::Error;
use crate::text::{
    chars_of, check_all, decimal_of, decimal_value, find_any, in_class, index_of, is_decimal,
    lemma_decimal_roundtrip, lemma_index_of_any_is, parse_decimal, push_decimal, slice_of,
    CharClass,
};
use vstd::prelude::*;
use vstd::slice::slice_subrange;

verus! {

/// What an upload session is.
pub struct UploadView {
    /// Where the registry wants the next request of this session.
    pub location: Seq<char>,
    /// The size of the blob.
    pub total: nat,
    /// How many bytes the registry has confirmed.
    pub offset: nat,
    /// The most bytes to send in one request.
    pub chunk_size: nat,
    /// Whether the registry has confirmed the whole blob.
    pub closed: bool,
}

/// The next request of an upload.
#[derive(Debug, Clone, Copy, PartialEq, Eq, Structural)]
pub enum UploadStep {
    /// Send the whole blob in one `PUT`, which also ends the session.
    Whole,
    /// Send the bytes from `start` up to, not including, `end` in a `PATCH`.
    Chunk { start: u64, end: u64 },
    /// End the session with a `PUT` without a body.
    Finish,
    /// Nothing is left to do.
    Done,
}

impl UploadView {
    /// Chunks are not empty, the confirmed offset is within the blob, and
    /// a closed session has all of it confirmed.
    pub open spec fn wf(self) -> bool {
        &&& self.chunk_size > 0
        &&& self.offset <= self.total <= u64::MAX
        &&& self.closed ==> self.offset == self.total
    }

    /// Where the next chunk ends.
    pub open spec fn chunk_end(self) -> nat {
        if self.offset + self.chunk_size <= self.total {
            self.offset + self.chunk_size
        } else {
            self.total
        }
    }

    /// The next request: a blob that fits into one chunk goes in one piece;
    /// a larger one goes chunk by chunk from the confirmed offset, and the
    /// session is ended when every byte is confirmed.
    pub open spec fn next_step(self) -> UploadStep {
        if self.closed {
            UploadStep::Done
        } else if self.offset == 0 && self.total <= self.chunk_size {
            UploadStep::Whole
        } else if self.offset < self.total {
            UploadStep::Chunk { start: self.offset as u64, end: self.chunk_end() as u64 }
        } else {
            UploadStep::Finish
        }
    }

    /// The session after the registry confirmed `received` bytes in all and
    /// named `location` for the next request. A confirmation that goes back
    /// behind the confirmed offset, or beyond what was sent, is refused.
    pub open spec fn advance(self, location: Seq<char>, received: nat) -> Result<
        UploadView,
        Error,
    > {
        if !self.closed && self.offset <= received <= self.chunk_end() {
            Ok(UploadView { location, offset: received, ..self })
        } else {
            Err(Error::ProtocolError)
        }
    }
}

/// The bytes of `data` from `offset` on, cut into chunks of at most `chunk`
/// bytes and put together again in the order in which they are sent.
pub open spec fn reassembled(data: Seq<u8>, chunk: nat, offset: nat) -> Seq<u8>
    decreases data.len() - offset,
{
    if chunk == 0 || offset >= data.len() {
        Seq::empty()
    } else {
        let end = if offset + chunk <= data.len() {
            offset + chunk
        } else {
            data.len()
        };
        data.subrange(offset as int, end as int) + reassembled(data, chunk, end)
    }
}

/// However the blob is cut, the chunks that are sent from an offset on make
/// up exactly the bytes from that offset on: from offset zero, the blob.
pub proof fn lemma_chunks_reassemble(data: Seq<u8>, chunk: nat, offset: nat)
    requires
        chunk > 0,
        offset <= data.len(),
    ensures
        reassembled(data, chunk, offset) == data.skip(offset as int),
        offset == 0 ==> reassembled(data, chunk, offset) == data,
    decreases data.len() - offset,
{
    if offset < data.len() {
        let end = if offset + chunk <= data.len() {
            offset + chunk
        } else {
            data.len()
        };
        lemma_chunks_reassemble(data, chunk, end);
        assert(data.subrange(offset as int, end as int) + data.skip(end as int) =~= data.skip(
            offset as int,
        ));
    } else {
        assert(data.skip(offset as int) =~= Seq::<u8>::empty());
    }
    assert(data.skip(0) =~= data);
}

/// The value of the `Content-Range` header of a chunk with the bytes from
/// `start` up to, not including, `end`: the first and the last offset in
/// decimal digits, with `-` between them.
pub open spec fn content_range_of(start: nat, end: nat) -> Seq<char> {
    decimal_of(start) + seq!['-'] + decimal_of((end - 1) as nat)
}

/// The last offset that the value `s` of a `Range` header names, if it has
/// the form of one: two numbers in decimal digits with `-` between them.
pub open spec fn range_last(s: Seq<char>) -> Option<nat> {
    let k = index_of(s, '-', 0);
    if k < s.len() && is_decimal(s.subrange(0, k)) && is_decimal(
        s.subrange(k + 1, s.len() as int),
    ) {
        Some(decimal_value(s.subrange(k + 1, s.len() as int)))
    } else {
        None
    }
}

/// The range that is sent with a chunk reads back as the last offset of
/// that chunk.
pub proof fn lemma_range_roundtrip(start: nat, end: nat)
    requires
        start < end,
    ensures
        range_last(content_range_of(start, end)) == Some((end - 1) as nat),
{
    let a = decimal_of(start);
    let b = decimal_of((end - 1) as nat);
    let s = content_range_of(start, end);
    lemma_decimal_roundtrip(start);
    lemma_decimal_roundtrip((end - 1) as nat);
    assert forall|i: int| 0 <= i < a.len() implies s[i] != '-' by {
        assert(s[i] == a[i]);
        assert(in_class(CharClass::Digit, a[i]));
    }
    assert(s[a.len() as int] == '-');
    lemma_index_of_any_is(s, '-', '-', 0, a.len() as int);
    assert(s.subrange(0, a.len() as int) =~= a);
    assert(s.subrange(a.len() as int + 1, s.len() as int) =~= b);
}

/// The value of the `Content-Range` header of a chunk with the bytes from
/// `start` up to, not including, `end`.
pub fn content_range(start: u64, end: u64) -> (r: String)
    requires
        start < end,
    ensures
        r@ == content_range_of(start as nat, end as nat),
{
    let mut r = String::new();
    push_decimal(&mut r, start);
    r.push('-');
    push_decimal(&mut r, end - 1);
    assert(r@ =~= content_range_of(start as nat, end as nat));
    r
}

/// How many bytes the registry holds, according to the value `range` of the
/// `Range` header of its answer: one more than the last offset that the
/// value names. A value of another form, or too large a number, gives none.
pub fn received(range: &str) -> (r: Option<u64>)
    ensures
        r is Some <==> range_last(range@) is Some && range_last(range@)->0 < u64::MAX,
        r matches Some(n) ==> n == range_last(range@)->0 + 1,
{
    let v = chars_of(range);
    let k = find_any(&v, '-', '-', 0);
    if k >= v.len() {
        return None;
    }
    let first = slice_of(&v, 0, k);
    let last = slice_of(&v, k + 1, v.len());
    if first.len() == 0 || !check_all(&first, CharClass::Digit) {
        return None;
    }
    match parse_decimal(&last) {
        Some(n) => if n < u64::MAX {
            Some(n + 1)
        } else {
            None
        },
        None => None,
    }
}

/// The upload of one blob. Every value of this type is well formed.
#[derive(Debug, PartialEq, Eq)]
pub struct UploadSession {
    location: String,
    total: u64,
    offset: u64,
    chunk_size: u64,
    closed: bool,
}

impl View for UploadSession {
    type V = UploadView;

    closed spec fn view(&self) -> UploadView {
        UploadView {
            location: self.location@,
            total: self.total as nat,
            offset: self.offset as nat,
            chunk_size: self.chunk_size as nat,
            closed: self.closed,
        }
    }
}

impl UploadSession {
    /// What holds of every value of this type.
    #[verifier::type_invariant]
    pub open spec fn inv(self) -> bool {
        self@.wf()
    }

    /// A session for a blob of `total` bytes that the registry opened at
    /// `location`, sending at most `chunk_size` bytes at a time; a chunk
    /// size of zero is taken as one.
    pub fn begin(location: String, total: u64, chunk_size: u64) -> (s: UploadSession)
        ensures
            s@ == (UploadView {
                location: location@,
                total: total as nat,
                offset: 0,
                chunk_size: if chunk_size == 0 {
                    1
                } else {
                    chunk_size as nat
                },
                closed: false,
            }),
            s@.wf(),
    {
        let chunk_size = if chunk_size == 0 {
            1
        } else {
            chunk_size
        };
        UploadSession { location, total, offset: 0, chunk_size, closed: false }
    }

    /// Where to send the next request.
    pub fn location(&self) -> (l: &str)
        ensures
            l@ == self@.location,
    {
        self.location.as_str()
    }

    /// How many bytes the registry has confirmed.
    pub fn offset(&self) -> (n: u64)
        ensures
            n == self@.offset,
            self@.wf(),
    {
        proof {
            use_type_invariant(self);
        }
        self.offset
    }

    /// The next request.
    pub fn next_step(&self) -> (step: UploadStep)
        ensures
            step == self@.next_step(),
            step matches UploadStep::Chunk { start, end } ==> start < end <= self@.total && end
                - start <= self@.chunk_size,
    {
        proof {
            use_type_invariant(self);
        }
        if self.closed {
            UploadStep::Done
        } else if self.offset == 0 && self.total <= self.chunk_size {
            UploadStep::Whole
        } else if self.offset < self.total {
            let end = if self.total - self.offset >= self.chunk_size {
                self.offset + self.chunk_size
            } else {
                self.total
            };
            UploadStep::Chunk { start: self.offset, end }
        } else {
            UploadStep::Finish
        }
    }

    /// The bytes of the next chunk of the blob `data`; nothing unless the
    /// next request is a chunk.
    pub fn chunk_of<'a>(&self, data: &'a [u8]) -> (body: &'a [u8])
        requires
            data@.len() == self@.total,
        ensures
            self@.next_step() matches UploadStep::Chunk { start, end } ==> body@
                == data@.subrange(start as int, end as int),
            !(self@.next_step() is Chunk) ==> body@ == Seq::<u8>::empty(),
    {
        let n = data.len();
        match self.next_step() {
            UploadStep::Chunk { start, end } => {
                assert(start < end <= n);
                slice_subrange(data, start as usize, end as usize)
            },
            _ => {
                let body = slice_subrange(data, 0, 0);
                assert(body@ =~= Seq::<u8>::empty());
                body
            },
        }
    }

    /// Takes note of what the registry confirmed after a chunk: it holds
    /// `received` bytes in all and wants the next request at `location`.
    /// A confirmation that cannot be right leaves the session as it is.
    pub fn advance(&mut self, location: String, received: u64) -> (r: Result<(), Error>)
        ensures
            r is Ok ==> old(self)@.advance(location@, received as nat) == Ok::<UploadView, Error>(
                final(self)@,
            ),
            r matches Err(e) ==> old(self)@.advance(location@, received as nat) == Err::<
                UploadView,
                Error,
            >(e) && final(self)@ == old(self)@,
    {
        proof {
            use_type_invariant(&*self);
        }
        let end = if self.total - self.offset >= self.chunk_size {
            self.offset + self.chunk_size
        } else {
            self.total
        };
        if self.closed || received < self.offset || received > end {
            return Err(Error::ProtocolError);
        }
        *self = UploadSession {
            location,
            total: self.total,
            offset: received,
            chunk_size: self.chunk_size,
            closed: false,
        };
        Ok(())
    }

    /// Takes note that the registry accepted the request that ends the
    /// session, `Whole` or `Finish`. While chunks are still to be sent the
    /// session stays as it is.
    pub fn close(&mut self) -> (r: Result<(), Error>)
        ensures
            r is Ok <==> old(self)@.next_step() is Whole || old(self)@.next_step() is Finish
                || old(self)@.next_step() is Done,
            r is Ok ==> final(self)@ == (UploadView {
                offset: old(self)@.total,
                closed: true,
                ..old(self)@
            }),
            r matches Err(e) ==> e == Error::ProtocolError && final(self)@ == old(self)@,
    {
        proof {
            use_type_invariant(&*self);
        }
        match self.next_step() {
            UploadStep::Chunk { start, end } => Err(Error::ProtocolError),
            _ => {
                let mut location = String::new();
                core::mem::swap(&mut location, &mut self.location);
                *self = UploadSession {
                    location,
                    total: self.total,
                    offset: self.total,
                    chunk_size: self.chunk_size,
                    closed: true,
                };
                Ok(())
            },
        }
    }

    /// Whether the registry has confirmed the whole blob.
    pub fn is_closed(&self) -> (b: bool)
        ensures
            b == self@.closed,
    {
        self.closed
    }
}

} // verus!

use vstd::prelude::*;
use vstd::utf8::{decode_utf8, encode_utf8, valid_utf8};
use crate::byte_buffer::{be_decode, be_encode, lemma_be_round_trip, splice, ByteBuffer};

verus! {

/// The integer stored at `offset`.
pub open spec fn int_at(data: Seq<u8>, offset: int) -> u64 {
    be_decode(data.subrange(offset, offset + 8))
}

/// The length-prefixed byte string stored at `offset`, if it lies inside `data`.
pub open spec fn bytes_at(data: Seq<u8>, offset: int) -> Option<Seq<u8>> {
    if 0 <= offset && offset + 8 <= data.len() && offset + 8 + int_at(data, offset) <= data.len() {
        Some(data.subrange(offset + 8, offset + 8 + int_at(data, offset)))
    } else {
        None
    }
}

/// `data` with the integer `v` written at `offset`.
pub open spec fn with_int(data: Seq<u8>, offset: int, v: u64) -> Seq<u8> {
    splice(data, offset, be_encode(v))
}

/// `data` with the byte string `b` written at `offset`: its length, then its bytes.
pub open spec fn with_bytes(data: Seq<u8>, offset: int, b: Seq<u8>) -> Seq<u8> {
    splice(with_int(data, offset, b.len() as u64), offset + 8, b)
}

/// Bytes needed to store a byte string of `n` bytes.
pub open spec fn encoded_len(n: int) -> int {
    n + 8
}

#[derive(Debug, Clone, Copy, PartialEq, Eq, Structural)]
pub enum PageError {
    /// The field would reach outside the page.
    OutOfBounds,
    /// The stored bytes are not valid UTF-8.
    InvalidUtf8,
}

/// Relies on std::str::from_utf8: it accepts exactly the valid UTF-8 byte
/// sequences, and the string it returns holds the characters they encode.
#[verifier::external_body]
fn utf8_to_string(b: &[u8]) -> (r: Option<String>)
    ensures
        r is Some <==> valid_utf8(b@),
        r matches Some(s) ==> s@ == decode_utf8(b@),
{
    match std::str::from_utf8(b) {
        Ok(s) => Some(s.to_string()),
        Err(_) => None,
    }
}

/// One block's worth of bytes in memory.
#[derive(Debug)]
pub struct Page {
    pub block_size: u64,
    pub bb: ByteBuffer,
}

impl View for Page {
    type V = Seq<u8>;

    open spec fn view(&self) -> Seq<u8> {
        self.bb@
    }
}

impl Page {
    pub open spec fn wf(&self) -> bool {
        self.bb@.len() == self.block_size
    }

    /// A zero-filled page of `block_size` bytes.
    pub fn new(block_size: u64) -> (r: Page)
        ensures
            r.wf(),
            r.block_size == block_size,
            r@ == Seq::new(block_size as nat, |i: int| 0u8),
            r.bb.position == 0,
    {
        let mut bytes: Vec<u8> = Vec::with_capacity(block_size as usize);
        let mut i: u64 = 0;
        while i < block_size
            invariant
                i <= block_size,
                bytes@ == Seq::new(i as nat, |j: int| 0u8),
            decreases block_size - i,
        {
            bytes.push(0u8);
            i = i + 1;
            assert(bytes@ =~= Seq::new(i as nat, |j: int| 0u8));
        }
        Page { block_size, bb: ByteBuffer::new(bytes) }
    }

    /// A page holding `bytes`; its block size is their number.
    pub fn from_bytes(bytes: Vec<u8>) -> (r: Page)
        ensures
            r.wf(),
            r@ == bytes@,
            r.block_size == bytes@.len(),
            r.bb.position == 0,
    {
        let block_size = bytes.len() as u64;
        Page { block_size, bb: ByteBuffer::new(bytes) }
    }

    pub fn get_int(&mut self, offset: u64) -> (r: Result<u64, PageError>)
        requires
            old(self).wf(),
        ensures
            final(self).wf(),
            final(self)@ == old(self)@,
            final(self).block_size == old(self).block_size,
            r is Ok <==> offset + 8 <= old(self)@.len(),
            r is Err ==> r == Err::<u64, PageError>(PageError::OutOfBounds),
            r matches Ok(v) ==> v == int_at(old(self)@, offset as int) && final(self).bb.position
                == offset + 8,
    {
        if offset > self.block_size || self.block_size - offset < 8 {
            return Err(PageError::OutOfBounds);
        }
        Ok(self.bb.get_int_with_offset(offset))
    }

    pub fn get_bytes(&mut self, offset: u64) -> (r: Result<Vec<u8>, PageError>)
        requires
            old(self).wf(),
        ensures
            final(self).wf(),
            final(self)@ == old(self)@,
            final(self).block_size == old(self).block_size,
            r is Ok <==> bytes_at(old(self)@, offset as int) is Some,
            r is Err ==> r == Err::<Vec<u8>, PageError>(PageError::OutOfBounds),
            r matches Ok(b) ==> Some(b@) == bytes_at(old(self)@, offset as int)
                && final(self).bb.position == offset + 8 + b@.len(),
    {
        let len = match self.get_int(offset) {
            Ok(n) => n,
            Err(e) => return Err(e),
        };
        if len > self.block_size - offset - 8 {
            return Err(PageError::OutOfBounds);
        }
        Ok(self.bb.get_bytes(len))
    }

    pub fn get_string(&mut self, offset: u64) -> (r: Result<String, PageError>)
        requires
            old(self).wf(),
        ensures
            final(self).wf(),
            final(self)@ == old(self)@,
            final(self).block_size == old(self).block_size,
            bytes_at(old(self)@, offset as int) is None ==> r == Err::<String, PageError>(
                PageError::OutOfBounds,
            ),
            bytes_at(old(self)@, offset as int) matches Some(b) ==> (if valid_utf8(b) {
                r is Ok && r->Ok_0@ == decode_utf8(b) && final(self).bb.position == offset + 8
                    + b.len()
            } else {
                r == Err::<String, PageError>(PageError::InvalidUtf8)
            }),
    {
        let bytes = match self.get_bytes(offset) {
            Ok(b) => b,
            Err(e) => return Err(e),
        };
        match utf8_to_string(bytes.as_slice()) {
            Some(s) => Ok(s),
            None => Err(PageError::InvalidUtf8),
        }
    }

    pub fn set_int(&mut self, offset: u64, value: u64) -> (r: Result<(), PageError>)
        requires
            old(self).wf(),
        ensures
            final(self).wf(),
            final(self).block_size == old(self).block_size,
            r is Ok <==> offset + 8 <= old(self)@.len(),
            r is Ok ==> final(self)@ == with_int(old(self)@, offset as int, value)
                && final(self).bb.position == offset + 8,
            r is Err ==> r == Err::<(), PageError>(PageError::OutOfBounds) && final(self)@ == old(
                self,
            )@,
    {
        if offset > self.block_size || self.block_size - offset < 8 {
            return Err(PageError::OutOfBounds);
        }
        self.bb.set_int_with_offset(offset, value);
        Ok(())
    }

    pub fn set_bytes(&mut self, offset: u64, value: &[u8]) -> (r: Result<(), PageError>)
        requires
            old(self).wf(),
        ensures
            final(self).wf(),
            final(self).block_size == old(self).block_size,
            r is Ok <==> offset + encoded_len(value@.len() as int) <= old(self)@.len(),
            r is Ok ==> final(self)@ == with_bytes(old(self)@, offset as int, value@)
                && final(self).bb.position == offset + encoded_len(value@.len() as int),
            r is Err ==> r == Err::<(), PageError>(PageError::OutOfBounds) && final(self)@ == old(
                self,
            )@,
    {
        let n = value.len() as u64;
        if offset > self.block_size || self.block_size - offset < 8 || self.block_size - offset
            - 8 < n {
            return Err(PageError::OutOfBounds);
        }
        self.bb.position = offset;
        self.bb.set_int(n);
        self.bb.set_bytes(value);
        Ok(())
    }

    pub fn set_string(&mut self, offset: u64, value: &str) -> (r: Result<(), PageError>)
        requires
            old(self).wf(),
        ensures
            final(self).wf(),
            final(self).block_size == old(self).block_size,
            r is Ok <==> offset + encoded_len(encode_utf8(value@).len() as int) <= old(self)@.len(),
            r is Ok ==> final(self)@ == with_bytes(old(self)@, offset as int, encode_utf8(value@))
                && final(self).bb.position == offset + encoded_len(encode_utf8(value@).len() as int),
            r is Err ==> r == Err::<(), PageError>(PageError::OutOfBounds) && final(self)@ == old(
                self,
            )@,
    {
        self.set_bytes(offset, value.as_bytes())
    }

    /// Upper bound on the bytes that a string of `strlen` bytes takes in a page.
    pub fn max_length(strlen: u64) -> (r: u64)
        requires
            strlen <= u64::MAX - 8,
        ensures
            r == encoded_len(strlen as int),
    {
        strlen + 8
    }
}

/// Reading an integer where one was just written gives it back, and the
/// write touches only its eight bytes.
pub proof fn lemma_int_round_trip(data: Seq<u8>, offset: int, v: u64)
    requires
        0 <= offset,
        offset + 8 <= data.len(),
    ensures
        int_at(with_int(data, offset, v), offset) == v,
        with_int(data, offset, v).len() == data.len(),
        forall|j: int|
            0 <= j < data.len() && !(offset <= j < offset + 8) ==> #[trigger] with_int(
                data,
                offset,
                v,
            )[j] == data[j],
{
    let d = with_int(data, offset, v);
    assert(d.subrange(offset, offset + 8) =~= be_encode(v));
    lemma_be_round_trip(v);
}

/// Reading a byte string where one was just written gives it back, and the
/// write touches only the `encoded_len` bytes from `offset` on.
pub proof fn lemma_bytes_round_trip(data: Seq<u8>, offset: int, b: Seq<u8>)
    requires
        0 <= offset,
        offset + encoded_len(b.len() as int) <= data.len(),
        data.len() <= u64::MAX,
    ensures
        bytes_at(with_bytes(data, offset, b), offset) == Some(b),
        with_bytes(data, offset, b).len() == data.len(),
        forall|j: int|
            0 <= j < data.len() && !(offset <= j < offset + encoded_len(b.len() as int))
                ==> #[trigger] with_bytes(data, offset, b)[j] == data[j],
{
    let d1 = with_int(data, offset, b.len() as u64);
    lemma_int_round_trip(data, offset, b.len() as u64);
    let d = with_bytes(data, offset, b);
    assert(d.subrange(offset, offset + 8) =~= d1.subrange(offset, offset + 8));
    assert(int_at(d, offset) == b.len());
    assert(d.subrange(offset + 8, offset + 8 + b.len()) =~= b);
}

/// Reading a string where one was just written gives it back.
pub proof fn lemma_string_round_trip(data: Seq<u8>, offset: int, s: Seq<char>)
    requires
        0 <= offset,
        offset + encoded_len(encode_utf8(s).len() as int) <= data.len(),
        data.len() <= u64::MAX,
    ensures
        bytes_at(with_bytes(data, offset, encode_utf8(s)), offset) == Some(encode_utf8(s)),
        valid_utf8(encode_utf8(s)),
        decode_utf8(encode_utf8(s)) == s,
{
    lemma_bytes_round_trip(data, offset, encode_utf8(s));
    vstd::utf8::encode_utf8_valid_utf8(s);
    vstd::utf8::encode_utf8_decode_utf8(s);
}

} // verus!

use vstd::prelude::*;

verus! {

/// Big-endian value of the first eight bytes of `s`.
pub open spec fn be_decode(s: Seq<u8>) -> u64
    recommends
        s.len() >= 8,
{
    ((s[0] as u64) << 56u64) | ((s[1] as u64) << 48u64) | ((s[2] as u64) << 40u64) | ((
    s[3] as u64) << 32u64) | ((s[4] as u64) << 24u64) | ((s[5] as u64) << 16u64) | ((
    s[6] as u64) << 8u64) | (s[7] as u64)
}

/// The eight big-endian bytes of `v`.
pub open spec fn be_encode(v: u64) -> Seq<u8> {
    seq![
        (v >> 56u64) as u8,
        (v >> 48u64) as u8,
        (v >> 40u64) as u8,
        (v >> 32u64) as u8,
        (v >> 24u64) as u8,
        (v >> 16u64) as u8,
        (v >> 8u64) as u8,
        v as u8,
    ]
}

/// `s` with the bytes from `off` on replaced by `t`.
pub open spec fn splice(s: Seq<u8>, off: int, t: Seq<u8>) -> Seq<u8> {
    s.subrange(0, off) + t + s.subrange(off + t.len(), s.len() as int)
}

/// Decoding the big-endian bytes of a value gives the value back.
pub proof fn lemma_be_round_trip(v: u64)
    ensures
        be_decode(be_encode(v)) == v,
{
    let s = be_encode(v);
    assert(((((v >> 56u64) as u8) as u64) << 56u64) | ((((v >> 48u64) as u8) as u64) << 48u64)
        | ((((v >> 40u64) as u8) as u64) << 40u64) | ((((v >> 32u64) as u8) as u64) << 32u64)
        | ((((v >> 24u64) as u8) as u64) << 24u64) | ((((v >> 16u64) as u8) as u64) << 16u64)
        | ((((v >> 8u64) as u8) as u64) << 8u64) | ((v as u8) as u64) == v) by (bit_vector);
}

/// A byte vector with a cursor. Offset-based accessors move the cursor just
/// past the field they touch; the others start at the cursor.
#[derive(Debug)]
pub struct ByteBuffer {
    pub bytes: Vec<u8>,
    pub position: u64,
}

impl View for ByteBuffer {
    type V = Seq<u8>;

    open spec fn view(&self) -> Seq<u8> {
        self.bytes@
    }
}

impl ByteBuffer {
    pub fn new(bytes: Vec<u8>) -> (r: ByteBuffer)
        ensures
            r@ == bytes@,
            r.position == 0,
    {
        ByteBuffer { bytes, position: 0 }
    }

    /// The whole buffer; the cursor goes back to the start.
    pub fn contents(&mut self) -> (r: Vec<u8>)
        ensures
            r@ == old(self)@,
            final(self)@ == old(self)@,
            final(self).position == 0,
    {
        self.position = 0;
        let mut r: Vec<u8> = Vec::with_capacity(self.bytes.len());
        let mut i: usize = 0;
        while i < self.bytes.len()
            invariant
                i <= self.bytes@.len(),
                r@ == self.bytes@.subrange(0, i as int),
            decreases self.bytes@.len() - i,
        {
            r.push(self.bytes[i]);
            i = i + 1;
        }
        assert(r@ =~= self.bytes@);
        r
    }

    pub fn bytes(&self) -> (r: &[u8])
        ensures
            r@ == self@,
    {
        self.bytes.as_slice()
    }

    pub fn len(&self) -> (r: usize)
        ensures
            r == self@.len(),
    {
        self.bytes.len()
    }

    /// Reads the integer at the cursor.
    pub fn get_int(&mut self) -> (r: u64)
        requires
            old(self).position + 8 <= old(self)@.len(),
        ensures
            r == be_decode(old(self)@.subrange(old(self).position as int, old(self).position + 8)),
            final(self)@ == old(self)@,
            final(self).position == old(self).position + 8,
    {
        self.get_int_with_offset(self.position)
    }

    pub fn get_int_with_offset(&mut self, offset: u64) -> (r: u64)
        requires
            offset + 8 <= old(self)@.len(),
        ensures
            r == be_decode(old(self)@.subrange(offset as int, offset + 8)),
            final(self)@ == old(self)@,
            final(self).position == offset + 8,
    {
        let total = self.bytes.len();
        proof {
            assert(offset + 8 <= total);
        }
        let o = offset as usize;
        let r = ((self.bytes[o] as u64) << 56u64) | ((self.bytes[o + 1] as u64) << 48u64) | ((
        self.bytes[o + 2] as u64) << 40u64) | ((self.bytes[o + 3] as u64) << 32u64) | ((
        self.bytes[o + 4] as u64) << 24u64) | ((self.bytes[o + 5] as u64) << 16u64) | ((
        self.bytes[o + 6] as u64) << 8u64) | (self.bytes[o + 7] as u64);
        self.position = offset + 8;
        r
    }

    /// Reads `len` bytes at the cursor.
    pub fn get_bytes(&mut self, len: u64) -> (r: Vec<u8>)
        requires
            old(self).position + len <= old(self)@.len(),
        ensures
            r@ == old(self)@.subrange(old(self).position as int, old(self).position + len),
            final(self)@ == old(self)@,
            final(self).position == old(self).position + len,
    {
        self.get_bytes_with_offset(self.position, len)
    }

    pub fn get_bytes_with_offset(&mut self, offset: u64, len: u64) -> (r: Vec<u8>)
        requires
            offset + len <= old(self)@.len(),
        ensures
            r@ == old(self)@.subrange(offset as int, offset + len),
            final(self)@ == old(self)@,
            final(self).position == offset + len,
    {
        let total = self.bytes.len();
        let mut r: Vec<u8> = Vec::with_capacity(len as usize);
        let mut i: u64 = 0;
        while i < len
            invariant
                total == self.bytes@.len(),
                i <= len,
                offset + len <= self.bytes@.len(),
                self.bytes@ == old(self)@,
                r@ == self.bytes@.subrange(offset as int, offset + i),
            decreases len - i,
        {
            r.push(self.bytes[(offset + i) as usize]);
            i = i + 1;
            assert(r@ =~= self.bytes@.subrange(offset as int, offset + i));
        }
        self.position = offset + len;
        r
    }

    pub fn set_int_with_offset(&mut self, offset: u64, value: u64)
        requires
            offset + 8 <= old(self)@.len(),
        ensures
            final(self)@ == splice(old(self)@, offset as int, be_encode(value)),
            final(self).position == offset + 8,
    {
        let total = self.bytes.len();
        proof {
            assert(offset + 8 <= total);
        }
        let o = offset as usize;
        self.bytes.set(o, (value >> 56u64) as u8);
        self.bytes.set(o + 1, (value >> 48u64) as u8);
        self.bytes.set(o + 2, (value >> 40u64) as u8);
        self.bytes.set(o + 3, (value >> 32u64) as u8);
        self.bytes.set(o + 4, (value >> 24u64) as u8);
        self.bytes.set(o + 5, (value >> 16u64) as u8);
        self.bytes.set(o + 6, (value >> 8u64) as u8);
        self.bytes.set(o + 7, value as u8);
        self.position = offset + 8;
        assert(self.bytes@ =~= splice(old(self)@, offset as int, be_encode(value)));
    }

    pub fn set_bytes_with_offset(&mut self, offset: u64, value: &[u8])
        requires
            offset + value@.len() <= old(self)@.len(),
        ensures
            final(self)@ == splice(old(self)@, offset as int, value@),
            final(self).position == offset + value@.len(),
    {
        let total = self.bytes.len();
        let n = value.len();
        let mut i: usize = 0;
        while i < n
            invariant
                total == old(self)@.len(),
                n == value@.len(),
                i <= n,
                offset + n <= old(self)@.len(),
                self.bytes@.len() == old(self)@.len(),
                forall|j: int|
                    0 <= j < self.bytes@.len() && !(offset <= j < offset + n) ==> self.bytes@[j]
                        == old(self)@[j],
                forall|j: int| offset <= j < offset + i ==> self.bytes@[j] == value@[j - offset],
            decreases n - i,
        {
            self.bytes.set(offset as usize + i, value[i]);
            i = i + 1;
        }
        self.position = offset + n as u64;
        assert(self.bytes@ =~= splice(old(self)@, offset as int, value@));
    }

    /// Writes an integer at the cursor.
    pub fn set_int(&mut self, value: u64)
        requires
            old(self).position + 8 <= old(self)@.len(),
        ensures
            final(self)@ == splice(old(self)@, old(self).position as int, be_encode(value)),
            final(self).position == old(self).position + 8,
    {
        self.set_int_with_offset(self.position, value)
    }

    /// Writes raw bytes at the cursor.
    pub fn set_bytes(&mut self, value: &[u8])
        requires
            old(self).position + value@.len() <= old(self)@.len(),
        ensures
            final(self)@ == splice(old(self)@, old(self).position as int, value@),
            final(self).position == old(self).position + value@.len(),
    {
        self.set_bytes_with_offset(self.position, value)
    }
}

} // verus!

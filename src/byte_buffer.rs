//! An append-only byte buffer with big-endian integer writes and a read cursor.

use byteorder::ByteOrder;
use vstd::prelude::*;
use vstd::string::StringSliceAdditionalSpecFns;

verus! {

/// Relies on `byteorder::BigEndian::write_u16`: it stores `n` into the first two
/// bytes of the buffer, most significant byte first.
#[verifier::external_body]
fn be_u16(n: u16) -> (r: [u8; 2])
    ensures
        r@ == seq![(n / 256) as u8, (n % 256) as u8],
{
    let mut b = [0u8; 2];
    byteorder::BigEndian::write_u16(&mut b, n);
    b
}

/// Relies on `byteorder::BigEndian::write_u32`: it stores `n` into the first four
/// bytes of the buffer, most significant byte first.
#[verifier::external_body]
fn be_u32(n: u32) -> (r: [u8; 4])
    ensures
        r@ == seq![
            (n / 0x100_0000) as u8,
            (n / 0x1_0000 % 256) as u8,
            (n / 256 % 256) as u8,
            (n % 256) as u8,
        ],
{
    let mut b = [0u8; 4];
    byteorder::BigEndian::write_u32(&mut b, n);
    b
}

/// A growable sequence of bytes. Writes append at the end; `get` reads from an
/// internal cursor that starts at the front.
#[derive(Debug, Clone)]
pub struct ByteBuffer {
    buf: Vec<u8>,
    read_pos: usize,
}

impl View for ByteBuffer {
    type V = Seq<u8>;

    closed spec fn view(&self) -> Seq<u8> {
        self.buf@
    }
}

/// Appends every byte of `src` to `dst`, in order.
fn append_slice(dst: &mut Vec<u8>, src: &[u8])
    ensures
        final(dst)@ == old(dst)@ + src@,
{
    let mut i: usize = 0;
    while i < src.len()
        invariant
            i <= src@.len(),
            dst@ == old(dst)@ + src@.subrange(0, i as int),
        decreases src@.len() - i,
    {
        dst.push(src[i]);
        i = i + 1;
        assert(src@.subrange(0, i as int) == src@.subrange(0, i - 1 as int).push(src@[i - 1]));
    }
    assert(src@.subrange(0, src@.len() as int) == src@);
}

impl ByteBuffer {
    /// Position of the read cursor used by `get`.
    pub closed spec fn read_position(&self) -> nat {
        self.read_pos as nat
    }

    pub fn new() -> (r: Self)
        ensures
            r@ == Seq::<u8>::empty(),
            r.read_position() == 0,
    {
        ByteBuffer { buf: Vec::new(), read_pos: 0 }
    }

    pub fn put_byte(&mut self, value: u8) -> (r: &mut Self)
        ensures
            r@ == old(self)@.push(value),
            r.read_position() == old(self).read_position(),
            *final(self) == *final(r),
    {
        self.buf.push(value);
        self
    }

    pub fn put_bytes(&mut self, other: &ByteBuffer) -> (r: &mut Self)
        ensures
            r@ == old(self)@ + other@,
            r.read_position() == old(self).read_position(),
            *final(self) == *final(r),
    {
        append_slice(&mut self.buf, other.buf.as_slice());
        self
    }

    /// Appends `value` as two bytes, most significant first.
    pub fn put_u16(&mut self, value: u16) -> (r: &mut Self)
        ensures
            r@ == old(self)@ + seq![(value / 256) as u8, (value % 256) as u8],
            r.read_position() == old(self).read_position(),
            *final(self) == *final(r),
    {
        let b = be_u16(value);
        append_slice(&mut self.buf, &b);
        self
    }

    /// Appends `value` as four bytes, most significant first.
    pub fn put_u32(&mut self, value: u32) -> (r: &mut Self)
        ensures
            r@ == old(self)@ + seq![
                (value / 0x100_0000) as u8,
                (value / 0x1_0000 % 256) as u8,
                (value / 256 % 256) as u8,
                (value % 256) as u8,
            ],
            r.read_position() == old(self).read_position(),
            *final(self) == *final(r),
    {
        let b = be_u32(value);
        append_slice(&mut self.buf, &b);
        self
    }

    /// Appends the UTF-8 encoding of `value`.
    pub fn put_string(&mut self, value: &str) -> (r: &mut Self)
        ensures
            r@ == old(self)@ + value.spec_bytes(),
            r.read_position() == old(self).read_position(),
            *final(self) == *final(r),
    {
        append_slice(&mut self.buf, value.as_bytes());
        self
    }

    pub fn put_bytes_array(&mut self, bytes: &[u8]) -> (r: &mut Self)
        ensures
            r@ == old(self)@ + bytes@,
            r.read_position() == old(self).read_position(),
            *final(self) == *final(r),
    {
        append_slice(&mut self.buf, bytes);
        self
    }

    /// Reads the byte under the cursor and moves the cursor one step; past the
    /// end it returns 0 and leaves the cursor where it is.
    pub fn get(&mut self) -> (r: u8)
        ensures
            final(self)@ == old(self)@,
            old(self).read_position() < old(self)@.len() ==> {
                &&& r == old(self)@[old(self).read_position() as int]
                &&& final(self).read_position() == old(self).read_position() + 1
            },
            old(self).read_position() >= old(self)@.len() ==> {
                &&& r == 0
                &&& final(self).read_position() == old(self).read_position()
            },
    {
        if self.read_pos < self.buf.len() {
            let value = self.buf[self.read_pos];
            self.read_pos = self.read_pos + 1;
            value
        } else {
            0
        }
    }

    /// The byte at `index`, or 0 past the end.
    pub fn get_at(&self, index: usize) -> (r: u8)
        ensures
            index < self@.len() ==> r == self@[index as int],
            index >= self@.len() ==> r == 0,
    {
        if index < self.buf.len() {
            self.buf[index]
        } else {
            0
        }
    }

    pub fn size(&self) -> (r: usize)
        ensures
            r == self@.len(),
    {
        self.buf.len()
    }

    pub fn clear(&mut self)
        ensures
            final(self)@ == Seq::<u8>::empty(),
            final(self).read_position() == 0,
    {
        self.buf.clear();
        self.read_pos = 0;
    }

    pub fn as_slice(&self) -> (r: &[u8])
        ensures
            r@ == self@,
    {
        self.buf.as_slice()
    }

    pub fn to_vec(&self) -> (r: Vec<u8>)
        ensures
            r@ == self@,
    {
        let mut v: Vec<u8> = Vec::new();
        append_slice(&mut v, self.buf.as_slice());
        v
    }
}

impl Default for ByteBuffer {
    fn default() -> (r: Self)
        ensures
            r@ == Seq::<u8>::empty(),
            r.read_position() == 0,
    {
        Self::new()
    }
}

} // verus!

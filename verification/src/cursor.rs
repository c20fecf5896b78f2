//! Big-endian integers, and a cursor that reads them from a byte buffer.

use crate::error::Error;
use vstd::prelude::*;

verus! {

/// The unsigned integer whose big-endian bytes are `hi`, `lo`.
pub open spec fn u16_from_be(hi: u8, lo: u8) -> u16 {
    (hi as int * 256 + lo as int) as u16
}

/// The two big-endian bytes of `v`.
pub open spec fn u16_be(v: u16) -> Seq<u8> {
    seq![(v / 256) as u8, (v % 256) as u8]
}

/// The signed integer that the byte `b` holds in two's complement.
pub open spec fn i8_from_byte(b: u8) -> i8 {
    if b < 128 {
        b as i8
    } else {
        (b as int - 256) as i8
    }
}

/// The unsigned integer with the same sixteen bits as `v`.
pub open spec fn i16_bits(v: i16) -> u16 {
    if v >= 0 {
        v as u16
    } else {
        (v as int + 65536) as u16
    }
}

/// The signed integer with the same sixteen bits as `u`.
pub open spec fn i16_from_bits(u: u16) -> i16 {
    if u < 32768 {
        u as i16
    } else {
        (u as int - 65536) as i16
    }
}

/// The signed integer whose big-endian two's-complement bytes are `hi`, `lo`.
pub open spec fn i16_from_be(hi: u8, lo: u8) -> i16 {
    i16_from_bits(u16_from_be(hi, lo))
}

/// The two big-endian two's-complement bytes of `v`.
pub open spec fn i16_be(v: i16) -> Seq<u8> {
    u16_be(i16_bits(v))
}

/// The unsigned integer whose big-endian bytes are `b0` to `b3`.
pub open spec fn u32_from_be(b0: u8, b1: u8, b2: u8, b3: u8) -> u32 {
    (b0 as int * 0x100_0000 + b1 as int * 0x1_0000 + b2 as int * 0x100 + b3 as int) as u32
}

/// The four big-endian bytes of `v`.
pub open spec fn u32_be(v: u32) -> Seq<u8> {
    seq![
        (v / 0x100_0000) as u8,
        (v / 0x1_0000 % 0x100) as u8,
        (v / 0x100 % 0x100) as u8,
        (v % 0x100) as u8,
    ]
}

/// The `u16` that `bytes` holds at `pos`.
pub open spec fn u16_at(bytes: Seq<u8>, pos: int) -> u16 {
    u16_from_be(bytes[pos], bytes[pos + 1])
}

/// The `i16` that `bytes` holds at `pos`.
pub open spec fn i16_at(bytes: Seq<u8>, pos: int) -> i16 {
    i16_from_be(bytes[pos], bytes[pos + 1])
}

/// The `u32` that `bytes` holds at `pos`.
pub open spec fn u32_at(bytes: Seq<u8>, pos: int) -> u32 {
    u32_from_be(bytes[pos], bytes[pos + 1], bytes[pos + 2], bytes[pos + 3])
}

/// The `n` consecutive `u16`s that `bytes` holds from `pos` on.
pub open spec fn u16s_at(bytes: Seq<u8>, pos: int, n: nat) -> Seq<u16> {
    Seq::new(n, |i: int| u16_at(bytes, pos + 2 * i))
}

/// The `n` consecutive `i16`s that `bytes` holds from `pos` on.
pub open spec fn i16s_at(bytes: Seq<u8>, pos: int, n: nat) -> Seq<i16> {
    Seq::new(n, |i: int| i16_at(bytes, pos + 2 * i))
}

/// The `n` consecutive `i8`s that `bytes` holds from `pos` on.
pub open spec fn i8s_at(bytes: Seq<u8>, pos: int, n: nat) -> Seq<i8> {
    Seq::new(n, |i: int| i8_from_byte(bytes[pos + i]))
}

/// The big-endian bytes of each of `vals` in turn.
pub open spec fn u16s_be(vals: Seq<u16>) -> Seq<u8> {
    Seq::new(2 * vals.len(), |i: int| u16_be(vals[i / 2])[i % 2])
}

/// The big-endian two's-complement bytes of each of `vals` in turn.
pub open spec fn i16s_be(vals: Seq<i16>) -> Seq<u8> {
    Seq::new(2 * vals.len(), |i: int| i16_be(vals[i / 2])[i % 2])
}

/// Whether `bytes` holds `part` at `at`.
pub open spec fn holds_at(bytes: Seq<u8>, at: int, part: Seq<u8>) -> bool {
    &&& 0 <= at
    &&& at + part.len() <= bytes.len()
    &&& bytes.subrange(at, at + part.len()) == part
}

/// A buffer that holds `a + b` holds `a`, and `b` right after it.
pub proof fn lemma_holds_at_split(bytes: Seq<u8>, at: int, a: Seq<u8>, b: Seq<u8>)
    requires
        holds_at(bytes, at, a + b),
    ensures
        holds_at(bytes, at, a),
        holds_at(bytes, at + a.len(), b),
{
    let whole = bytes.subrange(at, at + (a + b).len());
    assert(bytes.subrange(at, at + a.len()) =~= a) by {
        assert forall|i: int| 0 <= i < a.len() implies bytes[at + i] == a[i] by {
            assert(whole[i] == (a + b)[i]);
        }
    }
    assert(bytes.subrange(at + a.len(), at + a.len() + b.len()) =~= b) by {
        assert forall|i: int| 0 <= i < b.len() implies bytes[at + a.len() + i] == b[i] by {
            assert(whole[a.len() + i] == (a + b)[a.len() + i]);
        }
    }
}

/// What a buffer holds at `at` is there byte for byte.
pub proof fn lemma_holds_at_index(bytes: Seq<u8>, at: int, part: Seq<u8>, i: int)
    requires
        holds_at(bytes, at, part),
        0 <= i < part.len(),
    ensures
        bytes[at + i] == part[i],
{
}

/// `u16`s that a buffer holds are read back from where they stand.
pub proof fn lemma_u16s_held(bytes: Seq<u8>, at: int, vals: Seq<u16>)
    requires
        holds_at(bytes, at, u16s_be(vals)),
    ensures
        u16s_at(bytes, at, vals.len()) == vals,
{
    let read = u16s_at(bytes, at, vals.len());
    assert forall|i: int| 0 <= i < vals.len() implies read[i] == vals[i] by {
        lemma_holds_at_index(bytes, at, u16s_be(vals), 2 * i);
        lemma_holds_at_index(bytes, at, u16s_be(vals), 2 * i + 1);
    }
}

/// A read position in a borrowed byte buffer.
///
/// The position never passes the end of the buffer.
pub struct Reader<'a> {
    data: &'a [u8],
    pos: usize,
}

impl<'a> Reader<'a> {
    /// The whole buffer.
    pub closed spec fn bytes(self) -> Seq<u8> {
        self.data@
    }

    /// How many bytes have been read.
    pub closed spec fn pos(self) -> int {
        self.pos as int
    }

    /// The position lies within the buffer.
    #[verifier::type_invariant]
    pub open spec fn in_buffer(self) -> bool {
        0 <= self.pos() <= self.bytes().len()
    }

    /// Whether `size` more bytes are left to read.
    pub open spec fn has(self, size: int) -> bool {
        self.pos() + size <= self.bytes().len()
    }

    /// Whether `after` is this reader once it has read `size` more bytes.
    pub open spec fn advanced(self, after: Self, size: int) -> bool {
        &&& after.bytes() == self.bytes()
        &&& after.pos() == self.pos() + size
    }

    /// A reader at the start of `data`.
    pub fn new(data: &'a [u8]) -> (r: Self)
        ensures
            r.bytes() == data@,
            r.pos() == 0,
    {
        Reader { data, pos: 0 }
    }

    /// How many bytes have been read.
    pub fn position(&self) -> (p: usize)
        ensures
            p == self.pos(),
    {
        proof {
            use_type_invariant(self);
        }
        self.pos
    }

    /// How many bytes are left to read.
    pub fn remaining(&self) -> (n: usize)
        ensures
            n == self.bytes().len() - self.pos(),
    {
        proof {
            use_type_invariant(self);
        }
        self.data.len() - self.pos
    }

    /// Reads one byte.
    pub fn read_u8(&mut self) -> (res: Result<u8, Error>)
        ensures
            match res {
                Ok(v) => {
                    &&& old(self).has(1)
                    &&& old(self).advanced(*final(self), 1)
                    &&& v == old(self).bytes()[old(self).pos()]
                },
                Err(e) => {
                    &&& e == Error::MalformedTable
                    &&& !old(self).has(1)
                    &&& *final(self) == *old(self)
                },
            },
    {
        proof {
            use_type_invariant(&*self);
        }
        if self.data.len() - self.pos < 1 {
            return Err(Error::MalformedTable);
        }
        let v = self.data[self.pos];
        self.pos = self.pos + 1;
        Ok(v)
    }

    /// Reads a big-endian `u16`.
    pub fn read_u16(&mut self) -> (res: Result<u16, Error>)
        ensures
            match res {
                Ok(v) => {
                    &&& old(self).has(2)
                    &&& old(self).advanced(*final(self), 2)
                    &&& v == u16_at(old(self).bytes(), old(self).pos())
                },
                Err(e) => {
                    &&& e == Error::MalformedTable
                    &&& !old(self).has(2)
                    &&& *final(self) == *old(self)
                },
            },
    {
        proof {
            use_type_invariant(&*self);
        }
        if self.data.len() - self.pos < 2 {
            return Err(Error::MalformedTable);
        }
        let hi = self.data[self.pos];
        let lo = self.data[self.pos + 1];
        self.pos = self.pos + 2;
        Ok(hi as u16 * 256 + lo as u16)
    }

    /// Reads a byte as a two's-complement `i8`.
    pub fn read_i8(&mut self) -> (res: Result<i8, Error>)
        ensures
            match res {
                Ok(v) => {
                    &&& old(self).has(1)
                    &&& old(self).advanced(*final(self), 1)
                    &&& v == i8_from_byte(old(self).bytes()[old(self).pos()])
                },
                Err(e) => {
                    &&& e == Error::MalformedTable
                    &&& !old(self).has(1)
                    &&& *final(self) == *old(self)
                },
            },
    {
        match self.read_u8() {
            Ok(b) => Ok(i8_of_byte(b)),
            Err(e) => Err(e),
        }
    }

    /// Reads a big-endian two's-complement `i16`.
    pub fn read_i16(&mut self) -> (res: Result<i16, Error>)
        ensures
            match res {
                Ok(v) => {
                    &&& old(self).has(2)
                    &&& old(self).advanced(*final(self), 2)
                    &&& v == i16_at(old(self).bytes(), old(self).pos())
                },
                Err(e) => {
                    &&& e == Error::MalformedTable
                    &&& !old(self).has(2)
                    &&& *final(self) == *old(self)
                },
            },
    {
        match self.read_u16() {
            Ok(u) => Ok(i16_of_bits(u)),
            Err(e) => Err(e),
        }
    }

    /// Reads a big-endian `u32`.
    pub fn read_u32(&mut self) -> (res: Result<u32, Error>)
        ensures
            match res {
                Ok(v) => {
                    &&& old(self).has(4)
                    &&& old(self).advanced(*final(self), 4)
                    &&& v == u32_at(old(self).bytes(), old(self).pos())
                },
                Err(e) => {
                    &&& e == Error::MalformedTable
                    &&& !old(self).has(4)
                    &&& *final(self) == *old(self)
                },
            },
    {
        proof {
            use_type_invariant(&*self);
        }
        if self.data.len() - self.pos < 4 {
            return Err(Error::MalformedTable);
        }
        let b0 = self.data[self.pos];
        let b1 = self.data[self.pos + 1];
        let b2 = self.data[self.pos + 2];
        let b3 = self.data[self.pos + 3];
        self.pos = self.pos + 4;
        Ok(b0 as u32 * 0x100_0000 + b1 as u32 * 0x1_0000 + b2 as u32 * 0x100 + b3 as u32)
    }

    /// Reads `n` big-endian `u16`s, or nothing if the buffer holds fewer.
    pub fn read_u16_array(&mut self, n: usize) -> (res: Result<Vec<u16>, Error>)
        ensures
            match res {
                Ok(v) => {
                    &&& old(self).has(2 * n)
                    &&& old(self).advanced(*final(self), 2 * n)
                    &&& v@ == u16s_at(old(self).bytes(), old(self).pos(), n as nat)
                },
                Err(e) => {
                    &&& e == Error::MalformedTable
                    &&& !old(self).has(2 * n)
                    &&& *final(self) == *old(self)
                },
            },
    {
        if n > self.remaining() / 2 {
            return Err(Error::MalformedTable);
        }
        let ghost start = self.pos();
        let mut out: Vec<u16> = Vec::new();
        let mut i: usize = 0;
        while i < n
            invariant
                i <= n,
                self.bytes() == old(self).bytes(),
                start == old(self).pos(),
                self.pos() == start + 2 * i,
                start + 2 * n <= self.bytes().len(),
                out@ == u16s_at(self.bytes(), start, i as nat),
            decreases n - i,
        {
            match self.read_u16() {
                Ok(v) => {
                    out.push(v);
                },
                Err(e) => {
                    return Err(e);
                },
            }
            i = i + 1;
        }
        Ok(out)
    }

    /// Reads `n` big-endian `i16`s, or nothing if the buffer holds fewer.
    pub fn read_i16_array(&mut self, n: usize) -> (res: Result<Vec<i16>, Error>)
        ensures
            match res {
                Ok(v) => {
                    &&& old(self).has(2 * n)
                    &&& old(self).advanced(*final(self), 2 * n)
                    &&& v@ == i16s_at(old(self).bytes(), old(self).pos(), n as nat)
                },
                Err(e) => {
                    &&& e == Error::MalformedTable
                    &&& !old(self).has(2 * n)
                    &&& *final(self) == *old(self)
                },
            },
    {
        if n > self.remaining() / 2 {
            return Err(Error::MalformedTable);
        }
        let ghost start = self.pos();
        let mut out: Vec<i16> = Vec::new();
        let mut i: usize = 0;
        while i < n
            invariant
                i <= n,
                self.bytes() == old(self).bytes(),
                start == old(self).pos(),
                self.pos() == start + 2 * i,
                start + 2 * n <= self.bytes().len(),
                out@ == i16s_at(self.bytes(), start, i as nat),
            decreases n - i,
        {
            match self.read_i16() {
                Ok(v) => {
                    out.push(v);
                },
                Err(e) => {
                    return Err(e);
                },
            }
            i = i + 1;
        }
        Ok(out)
    }

    /// Reads `n` two's-complement bytes, or nothing if the buffer holds fewer.
    pub fn read_i8_array(&mut self, n: usize) -> (res: Result<Vec<i8>, Error>)
        ensures
            match res {
                Ok(v) => {
                    &&& old(self).has(n as int)
                    &&& old(self).advanced(*final(self), n as int)
                    &&& v@ == i8s_at(old(self).bytes(), old(self).pos(), n as nat)
                },
                Err(e) => {
                    &&& e == Error::MalformedTable
                    &&& !old(self).has(n as int)
                    &&& *final(self) == *old(self)
                },
            },
    {
        if n > self.remaining() {
            return Err(Error::MalformedTable);
        }
        let ghost start = self.pos();
        let mut out: Vec<i8> = Vec::new();
        let mut i: usize = 0;
        while i < n
            invariant
                i <= n,
                self.bytes() == old(self).bytes(),
                start == old(self).pos(),
                self.pos() == start + i,
                start + n <= self.bytes().len(),
                out@ == i8s_at(self.bytes(), start, i as nat),
            decreases n - i,
        {
            match self.read_i8() {
                Ok(v) => {
                    out.push(v);
                },
                Err(e) => {
                    return Err(e);
                },
            }
            i = i + 1;
        }
        Ok(out)
    }
}

/// The `i8` that the byte `b` holds.
pub fn i8_of_byte(b: u8) -> (v: i8)
    ensures
        v == i8_from_byte(b),
{
    if b < 128 {
        b as i8
    } else {
        (b as i16 - 256) as i8
    }
}

/// The `i16` with the bits of `u`.
pub fn i16_of_bits(u: u16) -> (v: i16)
    ensures
        v == i16_from_bits(u),
{
    if u < 32768 {
        u as i16
    } else {
        (u as i32 - 65536) as i16
    }
}

/// The `u16` with the bits of `v`.
pub fn bits_of_i16(v: i16) -> (u: u16)
    ensures
        u == i16_bits(v),
{
    if v >= 0 {
        v as u16
    } else {
        (v as i32 + 65536) as u16
    }
}

/// Appends one byte.
pub fn put_u8(out: &mut Vec<u8>, v: u8)
    ensures
        final(out)@ == old(out)@.push(v),
{
    out.push(v);
}

/// Appends the two big-endian bytes of `v`.
pub fn put_u16(out: &mut Vec<u8>, v: u16)
    ensures
        final(out)@ == old(out)@ + u16_be(v),
{
    out.push((v / 256) as u8);
    out.push((v % 256) as u8);
}

/// Appends the two big-endian bytes of `v`.
pub fn put_i16(out: &mut Vec<u8>, v: i16)
    ensures
        final(out)@ == old(out)@ + i16_be(v),
{
    put_u16(out, bits_of_i16(v));
}

/// Appends the four big-endian bytes of `v`.
pub fn put_u32(out: &mut Vec<u8>, v: u32)
    ensures
        final(out)@ == old(out)@ + u32_be(v),
{
    out.push((v / 0x100_0000) as u8);
    out.push((v / 0x1_0000 % 0x100) as u8);
    out.push((v / 0x100 % 0x100) as u8);
    out.push((v % 0x100) as u8);
}

/// Appends the big-endian bytes of each of `vals` in turn.
pub fn put_u16_array(out: &mut Vec<u8>, vals: &[u16])
    ensures
        final(out)@ == old(out)@ + u16s_be(vals@),
{
    let mut i: usize = 0;
    while i < vals.len()
        invariant
            i <= vals.len(),
            out@ == old(out)@ + u16s_be(vals@.take(i as int)),
        decreases vals.len() - i,
    {
        put_u16(out, vals[i]);
        i = i + 1;
    }
}

/// Appends the big-endian bytes of each of `vals` in turn.
pub fn put_i16_array(out: &mut Vec<u8>, vals: &[i16])
    ensures
        final(out)@ == old(out)@ + i16s_be(vals@),
{
    let mut i: usize = 0;
    while i < vals.len()
        invariant
            i <= vals.len(),
            out@ == old(out)@ + i16s_be(vals@.take(i as int)),
        decreases vals.len() - i,
    {
        put_i16(out, vals[i]);
        i = i + 1;
    }
}

} // verus!

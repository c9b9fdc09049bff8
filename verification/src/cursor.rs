//! A little-endian, bounds-checked field reader over an in-memory byte
//! buffer, shared by the index and blob decoders.

use vstd::prelude::*;
use vstd::slice::slice_index_get;

verus! {

/// The ways a structural decode can fail.
#[derive(Debug, Clone, Copy, PartialEq, Eq, Structural)]
pub enum DecodeError {
    /// A fixed-width field ran past the end of the buffer.
    UnexpectedEnd,
    /// The index stream ended in the middle of a 40-byte record.
    TruncatedRecord,
    /// A blob record did not begin with the expected `R`,`D` tag.
    InvalidIdentifier,
}

/// The signed value a byte holds in two's complement.
pub open spec fn spec_i8_of_byte(b: u8) -> i8 {
    if b < 0x80 {
        b as i8
    } else {
        (b - 0x100) as i8
    }
}

/// The byte that holds a signed value in two's complement.
pub open spec fn spec_byte_of_i8(x: i8) -> u8 {
    if x >= 0 {
        x as u8
    } else {
        (x + 0x100) as u8
    }
}

/// The signed value a 32-bit word holds in two's complement.
pub open spec fn spec_i32_of_u32(u: u32) -> i32 {
    if u < 0x8000_0000 {
        u as i32
    } else {
        (u - 0x1_0000_0000) as i32
    }
}

/// The 32-bit word that holds a signed value in two's complement.
pub open spec fn spec_u32_of_i32(x: i32) -> u32 {
    if x >= 0 {
        x as u32
    } else {
        (x + 0x1_0000_0000) as u32
    }
}

/// Two's-complement reinterpretation of a byte loses nothing in either
/// direction.
pub proof fn lemma_i8_byte_round_trip()
    ensures
        forall|b: u8| spec_byte_of_i8(#[trigger] spec_i8_of_byte(b)) == b,
        forall|x: i8| spec_i8_of_byte(#[trigger] spec_byte_of_i8(x)) == x,
{
}

/// Two's-complement reinterpretation of a 32-bit word loses nothing in
/// either direction.
pub proof fn lemma_i32_u32_round_trip()
    ensures
        forall|u: u32| spec_u32_of_i32(#[trigger] spec_i32_of_u32(u)) == u,
        forall|x: i32| spec_i32_of_u32(#[trigger] spec_u32_of_i32(x)) == x,
{
}

/// The unsigned value of the four little-endian bytes at offset `i` of `b`.
pub open spec fn spec_le_u32_at(b: Seq<u8>, i: int) -> u32
    recommends
        0 <= i && i + 4 <= b.len(),
{
    (b[i] + 0x100 * b[i + 1] + 0x1_0000 * b[i + 2] + 0x100_0000 * b[i + 3]) as u32
}

/// The signed value of the four little-endian bytes at offset `i` of `b`.
pub open spec fn spec_le_i32_at(b: Seq<u8>, i: int) -> i32
    recommends
        0 <= i && i + 4 <= b.len(),
{
    spec_i32_of_u32(spec_le_u32_at(b, i))
}

/// The four little-endian bytes that hold a 32-bit word.
pub open spec fn spec_le_bytes_of_u32(x: u32) -> Seq<u8> {
    seq![
        (x % 0x100) as u8,
        ((x / 0x100) % 0x100) as u8,
        ((x / 0x1_0000) % 0x100) as u8,
        ((x / 0x100_0000) % 0x100) as u8,
    ]
}

/// Little-endian disassembly and reassembly of a 32-bit word lose nothing
/// in either direction.
pub proof fn lemma_le_u32_round_trip()
    ensures
        forall|x: u32| spec_le_u32_at(#[trigger] spec_le_bytes_of_u32(x), 0) == x,
        forall|b: Seq<u8>, i: int|
            0 <= i && i + 4 <= b.len() ==> #[trigger] spec_le_bytes_of_u32(spec_le_u32_at(b, i))
                =~= b.subrange(i, i + 4),
{
    assert forall|x: u32| spec_le_u32_at(#[trigger] spec_le_bytes_of_u32(x), 0) == x by {
        let xi = x as int;
        assert(xi == xi % 0x100 + 0x100 * ((xi / 0x100) % 0x100) + 0x1_0000 * ((xi / 0x1_0000)
            % 0x100) + 0x100_0000 * ((xi / 0x100_0000) % 0x100)) by (nonlinear_arith)
            requires
                0 <= xi < 0x1_0000_0000,
        ;
    }
    assert forall|b: Seq<u8>, i: int|
        0 <= i && i + 4 <= b.len() implies #[trigger] spec_le_bytes_of_u32(spec_le_u32_at(b, i))
        =~= b.subrange(i, i + 4) by {
        let v = b[i] + 0x100 * b[i + 1] + 0x1_0000 * b[i + 2] + 0x100_0000 * b[i + 3];
        assert(v % 0x100 == b[i] && (v / 0x100) % 0x100 == b[i + 1] && (v / 0x1_0000) % 0x100 == b[i
            + 2] && (v / 0x100_0000) % 0x100 == b[i + 3]) by (nonlinear_arith)
            requires
                0 <= b[i] < 0x100,
                0 <= b[i + 1] < 0x100,
                0 <= b[i + 2] < 0x100,
                0 <= b[i + 3] < 0x100,
                v == b[i] + 0x100 * b[i + 1] + 0x1_0000 * b[i + 2] + 0x100_0000 * b[i + 3],
        ;
    }
}

/// Reinterprets a 32-bit word as its two's-complement signed value.
pub fn i32_of_u32(u: u32) -> (r: i32)
    ensures
        r == spec_i32_of_u32(u),
{
    if u < 0x8000_0000 {
        u as i32
    } else {
        ((u as i64) - 0x1_0000_0000i64) as i32
    }
}

/// Reinterprets a signed 32-bit value as its two's-complement word.
pub fn u32_of_i32(x: i32) -> (r: u32)
    ensures
        r == spec_u32_of_i32(x),
{
    if x >= 0 {
        x as u32
    } else {
        ((x as i64) + 0x1_0000_0000i64) as u32
    }
}

/// Reinterprets a byte as its two's-complement signed value.
pub fn i8_of_byte(b: u8) -> (r: i8)
    ensures
        r == spec_i8_of_byte(b),
{
    if b < 0x80 {
        b as i8
    } else {
        ((b as i16) - 0x100i16) as i8
    }
}

/// Reinterprets a signed byte as its two's-complement bit pattern.
pub fn byte_of_i8(x: i8) -> (r: u8)
    ensures
        r == spec_byte_of_i8(x),
{
    if x >= 0 {
        x as u8
    } else {
        ((x as i16) + 0x100i16) as u8
    }
}

/// The four little-endian bytes of a 32-bit word, lowest first.
pub fn le_bytes_of_u32(x: u32) -> (r: Vec<u8>)
    ensures
        r@ == spec_le_bytes_of_u32(x),
        r@.len() == 4,
{
    let mut out: Vec<u8> = Vec::new();
    out.push((x % 0x100) as u8);
    out.push(((x / 0x100) % 0x100) as u8);
    out.push(((x / 0x1_0000) % 0x100) as u8);
    out.push(((x / 0x100_0000) % 0x100) as u8);
    proof {
        assert(out@ =~= spec_le_bytes_of_u32(x));
    }
    out
}

/// Sequential, bounds-checked extraction of little-endian fields from a
/// byte buffer. Reading past the end fails with `UnexpectedEnd` and leaves
/// the position where it was.
pub struct ByteCursor<'a> {
    data: &'a [u8],
    pos: usize,
}

impl<'a> ByteCursor<'a> {
    /// The bytes the cursor reads from.
    pub closed spec fn bytes(&self) -> Seq<u8> {
        self.data@
    }

    /// The current read position.
    pub closed spec fn pos(&self) -> int {
        self.pos as int
    }

    /// The position never passes the end of the buffer.
    pub open spec fn wf(&self) -> bool {
        0 <= self.pos() <= self.bytes().len()
    }

    /// A fresh cursor at the start of `data`.
    pub fn new(data: &'a [u8]) -> (c: Self)
        ensures
            c.bytes() == data@,
            c.pos() == 0,
            c.wf(),
    {
        ByteCursor { data, pos: 0 }
    }

    /// Consumes 4 bytes as an unsigned little-endian 32-bit integer.
    pub fn read_u32(&mut self) -> (r: Result<u32, DecodeError>)
        requires
            old(self).wf(),
        ensures
            final(self).wf(),
            final(self).bytes() == old(self).bytes(),
            old(self).pos() + 4 <= old(self).bytes().len() ==> {
                &&& r is Ok
                &&& r->Ok_0 == spec_le_u32_at(old(self).bytes(), old(self).pos())
                &&& final(self).pos() == old(self).pos() + 4
            },
            old(self).pos() + 4 > old(self).bytes().len() ==> {
                &&& r is Err
                &&& r->Err_0 == DecodeError::UnexpectedEnd
                &&& final(self).pos() == old(self).pos()
            },
    {
        if self.data.len() - self.pos >= 4 {
            let b0: u8 = *slice_index_get(self.data, self.pos);
            let b1: u8 = *slice_index_get(self.data, self.pos + 1);
            let b2: u8 = *slice_index_get(self.data, self.pos + 2);
            let b3: u8 = *slice_index_get(self.data, self.pos + 3);
            let x: u32 = b0 as u32 + 0x100u32 * (b1 as u32) + 0x1_0000u32 * (b2 as u32)
                + 0x100_0000u32 * (b3 as u32);
            self.pos = self.pos + 4;
            Ok(x)
        } else {
            Err(DecodeError::UnexpectedEnd)
        }
    }

    /// Consumes 4 bytes as a signed little-endian 32-bit integer.
    pub fn read_i32(&mut self) -> (r: Result<i32, DecodeError>)
        requires
            old(self).wf(),
        ensures
            final(self).wf(),
            final(self).bytes() == old(self).bytes(),
            old(self).pos() + 4 <= old(self).bytes().len() ==> {
                &&& r is Ok
                &&& r->Ok_0 == spec_le_i32_at(old(self).bytes(), old(self).pos())
                &&& final(self).pos() == old(self).pos() + 4
            },
            old(self).pos() + 4 > old(self).bytes().len() ==> {
                &&& r is Err
                &&& r->Err_0 == DecodeError::UnexpectedEnd
                &&& final(self).pos() == old(self).pos()
            },
    {
        match self.read_u32() {
            Ok(u) => Ok(i32_of_u32(u)),
            Err(e) => Err(e),
        }
    }

    /// Consumes 1 byte as a signed 8-bit integer.
    pub fn read_i8(&mut self) -> (r: Result<i8, DecodeError>)
        requires
            old(self).wf(),
        ensures
            final(self).wf(),
            final(self).bytes() == old(self).bytes(),
            old(self).pos() + 1 <= old(self).bytes().len() ==> {
                &&& r is Ok
                &&& r->Ok_0 == spec_i8_of_byte(old(self).bytes()[old(self).pos()])
                &&& final(self).pos() == old(self).pos() + 1
            },
            old(self).pos() + 1 > old(self).bytes().len() ==> {
                &&& r is Err
                &&& r->Err_0 == DecodeError::UnexpectedEnd
                &&& final(self).pos() == old(self).pos()
            },
    {
        if self.data.len() - self.pos >= 1 {
            let b: u8 = *slice_index_get(self.data, self.pos);
            self.pos = self.pos + 1;
            Ok(i8_of_byte(b))
        } else {
            Err(DecodeError::UnexpectedEnd)
        }
    }

    /// Consumes `n` bytes as a sequence of signed 8-bit integers.
    pub fn read_i8_array(&mut self, n: usize) -> (r: Result<Vec<i8>, DecodeError>)
        requires
            old(self).wf(),
        ensures
            final(self).wf(),
            final(self).bytes() == old(self).bytes(),
            old(self).pos() + n <= old(self).bytes().len() ==> {
                &&& r is Ok
                &&& r->Ok_0@.len() == n
                &&& forall|j: int|
                    0 <= j < n ==> r->Ok_0@[j] == spec_i8_of_byte(
                        old(self).bytes()[old(self).pos() + j],
                    )
                &&& final(self).pos() == old(self).pos() + n
            },
            old(self).pos() + n > old(self).bytes().len() ==> {
                &&& r is Err
                &&& r->Err_0 == DecodeError::UnexpectedEnd
                &&& final(self).pos() == old(self).pos()
            },
    {
        if self.data.len() - self.pos >= n {
            let mut out: Vec<i8> = Vec::new();
            let mut j: usize = 0;
            while j < n
                invariant
                    self == old(self),
                    self.wf(),
                    j <= n,
                    self.pos() + n <= self.bytes().len(),
                    self.bytes().len() <= usize::MAX,
                    out@.len() == j,
                    forall|k: int|
                        0 <= k < j ==> out@[k] == spec_i8_of_byte(self.bytes()[self.pos() + k]),
                decreases n - j,
            {
                let b: u8 = *slice_index_get(self.data, self.pos + j);
                out.push(i8_of_byte(b));
                j = j + 1;
            }
            self.pos = self.pos + n;
            Ok(out)
        } else {
            Err(DecodeError::UnexpectedEnd)
        }
    }
}

} // verus!

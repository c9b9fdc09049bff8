//! The two record kinds of the asset format: fixed-size index records and
//! variable-length blob records, with their decoders and encoders.

use vstd::prelude::*;
use vstd::slice::slice_subrange;
use crate::cursor::ByteCursor;
use crate::cursor::DecodeError;
use crate::cursor::byte_of_i8;
use crate::cursor::le_bytes_of_u32;
use crate::cursor::u32_of_i32;
use crate::cursor::lemma_i32_u32_round_trip;
use crate::cursor::lemma_i8_byte_round_trip;
use crate::cursor::lemma_le_u32_round_trip;
use crate::cursor::spec_byte_of_i8;
use crate::cursor::spec_i8_of_byte;
use crate::cursor::spec_le_bytes_of_u32;
use crate::cursor::spec_le_i32_at;
use crate::cursor::spec_le_u32_at;
use crate::cursor::spec_u32_of_i32;

verus! {

/// One fixed 40-byte record of the index file, describing one sprite.
#[derive(Debug)]
pub struct GraphicInfo {
    pub id: u32,
    pub address: u32,
    pub length: u32,
    pub offset_x: i32,
    pub offset_y: i32,
    pub width: u32,
    pub height: u32,
    pub tile_east: i8,
    pub tile_south: i8,
    pub access: i8,
    pub _unknown: [i8; 5],
    pub map_id: u32,
}

/// `g` holds exactly the fields of the 40-byte index record encoded at
/// offset `i` of `b`, in declared field order, little-endian throughout.
pub open spec fn info_matches_at(g: GraphicInfo, b: Seq<u8>, i: int) -> bool
    recommends
        0 <= i && i + 40 <= b.len(),
{
    &&& g.id == spec_le_u32_at(b, i)
    &&& g.address == spec_le_u32_at(b, i + 4)
    &&& g.length == spec_le_u32_at(b, i + 8)
    &&& g.offset_x == spec_le_i32_at(b, i + 12)
    &&& g.offset_y == spec_le_i32_at(b, i + 16)
    &&& g.width == spec_le_u32_at(b, i + 20)
    &&& g.height == spec_le_u32_at(b, i + 24)
    &&& g.tile_east == spec_i8_of_byte(b[i + 28])
    &&& g.tile_south == spec_i8_of_byte(b[i + 29])
    &&& g.access == spec_i8_of_byte(b[i + 30])
    &&& (forall|j: int| 0 <= j < 5 ==> g._unknown[j] == spec_i8_of_byte(b[i + 31 + j]))
    &&& g.map_id == spec_le_u32_at(b, i + 36)
}

/// The 40-byte little-endian encoding of an index record, field by field
/// in declared order.
pub open spec fn spec_encode_info(g: GraphicInfo) -> Seq<u8> {
    spec_le_bytes_of_u32(g.id) + spec_le_bytes_of_u32(g.address) + spec_le_bytes_of_u32(g.length)
        + spec_le_bytes_of_u32(spec_u32_of_i32(g.offset_x)) + spec_le_bytes_of_u32(
        spec_u32_of_i32(g.offset_y),
    ) + spec_le_bytes_of_u32(g.width) + spec_le_bytes_of_u32(g.height) + seq![
        spec_byte_of_i8(g.tile_east),
        spec_byte_of_i8(g.tile_south),
        spec_byte_of_i8(g.access),
        spec_byte_of_i8(g._unknown[0]),
        spec_byte_of_i8(g._unknown[1]),
        spec_byte_of_i8(g._unknown[2]),
        spec_byte_of_i8(g._unknown[3]),
        spec_byte_of_i8(g._unknown[4]),
    ] + spec_le_bytes_of_u32(g.map_id)
}

/// What an index record encodes to, it decodes back from: the first half
/// of the round-trip law.
pub proof fn lemma_info_encode_decode(g: GraphicInfo)
    ensures
        spec_encode_info(g).len() == 40,
        info_matches_at(g, spec_encode_info(g), 0),
{
    lemma_le_u32_round_trip();
    lemma_i8_byte_round_trip();
    lemma_i32_u32_round_trip();
    let b = spec_encode_info(g);
    assert(spec_le_bytes_of_u32(g.id) =~= b.subrange(0, 4));
    assert(spec_le_bytes_of_u32(g.address) =~= b.subrange(4, 8));
    assert(spec_le_bytes_of_u32(g.length) =~= b.subrange(8, 12));
    assert(spec_le_bytes_of_u32(spec_u32_of_i32(g.offset_x)) =~= b.subrange(12, 16));
    assert(spec_le_bytes_of_u32(spec_u32_of_i32(g.offset_y)) =~= b.subrange(16, 20));
    assert(spec_le_bytes_of_u32(g.width) =~= b.subrange(20, 24));
    assert(spec_le_bytes_of_u32(g.height) =~= b.subrange(24, 28));
    assert(spec_le_bytes_of_u32(g.map_id) =~= b.subrange(36, 40));
}

/// Decoding a 40-byte index record and re-encoding it reproduces the
/// original bytes exactly, reserved fields included: the second half of
/// the round-trip law.
#[verifier::rlimit(30)]
pub proof fn lemma_info_decode_encode(g: GraphicInfo, b: Seq<u8>)
    requires
        b.len() == 40,
        info_matches_at(g, b, 0),
    ensures
        spec_encode_info(g) == b,
{
    lemma_le_u32_round_trip();
    lemma_i8_byte_round_trip();
    lemma_i32_u32_round_trip();
    assert(spec_le_bytes_of_u32(spec_le_u32_at(b, 0)) == b.subrange(0, 4));
    assert(spec_le_bytes_of_u32(spec_le_u32_at(b, 4)) == b.subrange(4, 8));
    assert(spec_le_bytes_of_u32(spec_le_u32_at(b, 8)) == b.subrange(8, 12));
    assert(spec_u32_of_i32(g.offset_x) == spec_le_u32_at(b, 12));
    assert(spec_le_bytes_of_u32(spec_le_u32_at(b, 12)) == b.subrange(12, 16));
    assert(spec_u32_of_i32(g.offset_y) == spec_le_u32_at(b, 16));
    assert(spec_le_bytes_of_u32(spec_le_u32_at(b, 16)) == b.subrange(16, 20));
    assert(spec_le_bytes_of_u32(spec_le_u32_at(b, 20)) == b.subrange(20, 24));
    assert(spec_le_bytes_of_u32(spec_le_u32_at(b, 24)) == b.subrange(24, 28));
    assert(spec_le_bytes_of_u32(spec_le_u32_at(b, 36)) == b.subrange(36, 40));
    assert(seq![
        spec_byte_of_i8(g.tile_east),
        spec_byte_of_i8(g.tile_south),
        spec_byte_of_i8(g.access),
        spec_byte_of_i8(g._unknown[0]),
        spec_byte_of_i8(g._unknown[1]),
        spec_byte_of_i8(g._unknown[2]),
        spec_byte_of_i8(g._unknown[3]),
        spec_byte_of_i8(g._unknown[4]),
    ] =~= b.subrange(28, 36));
    assert(b =~= b.subrange(0, 4) + b.subrange(4, 8) + b.subrange(8, 12) + b.subrange(12, 16)
        + b.subrange(16, 20) + b.subrange(20, 24) + b.subrange(24, 28) + b.subrange(28, 36)
        + b.subrange(36, 40));
}

/// A 40-byte record determines its decoded form uniquely: re-decoding the
/// same bytes yields field-for-field equal records.
pub proof fn lemma_info_unique(g1: GraphicInfo, g2: GraphicInfo, b: Seq<u8>, i: int)
    requires
        info_matches_at(g1, b, i),
        info_matches_at(g2, b, i),
    ensures
        g1 == g2,
{
    assert(g1._unknown =~= g2._unknown) by {
        vstd::array::axiom_array_ext_equal(g1._unknown, g2._unknown);
    }
}

/// Decoding a whole index stream is deterministic: two record sequences
/// that both match the same bytes are equal.
pub proof fn lemma_decode_all_deterministic(b: Seq<u8>, s1: Seq<GraphicInfo>, s2: Seq<GraphicInfo>)
    requires
        s1.len() == b.len() / 40,
        s2.len() == b.len() / 40,
        forall|k: int| 0 <= k < s1.len() ==> info_matches_at(#[trigger] s1[k], b, 40 * k),
        forall|k: int| 0 <= k < s2.len() ==> info_matches_at(#[trigger] s2[k], b, 40 * k),
    ensures
        s1 == s2,
{
    assert forall|k: int| 0 <= k < s1.len() implies s1[k] == s2[k] by {
        lemma_info_unique(s1[k], s2[k], b, 40 * k);
    }
    assert(s1 =~= s2);
}

/// Matching a record against a 40-byte window of `b` is the same as
/// matching it against those bytes cut out as a sequence of their own.
proof fn lemma_info_matches_shift(g: GraphicInfo, b: Seq<u8>, i: int)
    requires
        0 <= i,
        i + 40 <= b.len(),
    ensures
        info_matches_at(g, b.subrange(i, i + 40), 0) == info_matches_at(g, b, i),
{
    let w = b.subrange(i, i + 40);
    assert(forall|j: int| 0 <= j < 40 ==> w[j] == b[i + j]);
}

impl GraphicInfo {
    /// Decodes the 40-byte index record at the start of `buf`, field by
    /// field in declared order. A shorter buffer is rejected.
    pub fn make(buf: &[u8]) -> (r: Result<GraphicInfo, DecodeError>)
        ensures
            r is Ok <==> buf@.len() >= 40,
            r is Ok ==> info_matches_at(r->Ok_0, buf@, 0),
            r is Err ==> r->Err_0 == DecodeError::UnexpectedEnd,
    {
        let mut rdr = ByteCursor::new(buf);

        let id: u32 = match rdr.read_u32() {
            Ok(v) => v,
            Err(e) => return Err(e),
        };
        let address: u32 = match rdr.read_u32() {
            Ok(v) => v,
            Err(e) => return Err(e),
        };
        let length: u32 = match rdr.read_u32() {
            Ok(v) => v,
            Err(e) => return Err(e),
        };
        let offset_x: i32 = match rdr.read_i32() {
            Ok(v) => v,
            Err(e) => return Err(e),
        };
        let offset_y: i32 = match rdr.read_i32() {
            Ok(v) => v,
            Err(e) => return Err(e),
        };
        let width: u32 = match rdr.read_u32() {
            Ok(v) => v,
            Err(e) => return Err(e),
        };
        let height: u32 = match rdr.read_u32() {
            Ok(v) => v,
            Err(e) => return Err(e),
        };
        let tile_east: i8 = match rdr.read_i8() {
            Ok(v) => v,
            Err(e) => return Err(e),
        };
        let tile_south: i8 = match rdr.read_i8() {
            Ok(v) => v,
            Err(e) => return Err(e),
        };
        let access: i8 = match rdr.read_i8() {
            Ok(v) => v,
            Err(e) => return Err(e),
        };
        let unknown: Vec<i8> = match rdr.read_i8_array(5) {
            Ok(v) => v,
            Err(e) => return Err(e),
        };
        let map_id: u32 = match rdr.read_u32() {
            Ok(v) => v,
            Err(e) => return Err(e),
        };

        Ok(GraphicInfo {
            id,
            address,
            length,
            offset_x,
            offset_y,
            width,
            height,
            tile_east,
            tile_south,
            access,
            _unknown: [unknown[0], unknown[1], unknown[2], unknown[3], unknown[4]],
            map_id,
        })
    }

    /// Decodes a whole index stream: one record per 40 bytes, in order,
    /// until the clean end of the stream. A nonzero trailing remainder is
    /// a corrupt index and fails as such.
    pub fn decode_all(bytes: &[u8]) -> (r: Result<Vec<GraphicInfo>, DecodeError>)
        ensures
            r is Ok <==> bytes@.len() % 40 == 0,
            r is Ok ==> {
                &&& r->Ok_0@.len() == bytes@.len() / 40
                &&& forall|k: int|
                    0 <= k < r->Ok_0@.len() ==> info_matches_at(
                        #[trigger] r->Ok_0@[k],
                        bytes@,
                        40 * k,
                    )
            },
            r is Err ==> r->Err_0 == DecodeError::TruncatedRecord,
    {
        let mut ret: Vec<GraphicInfo> = Vec::new();
        let n: usize = bytes.len();
        let mut i: usize = 0;

        while n - i >= 40
            invariant
                i <= n,
                n == bytes@.len(),
                i % 40 == 0,
                ret@.len() == i / 40,
                forall|k: int|
                    0 <= k < ret@.len() ==> info_matches_at(#[trigger] ret@[k], bytes@, 40 * k),
            decreases n - i,
        {
            let chunk = slice_subrange(bytes, i, i + 40);
            let g: GraphicInfo = match GraphicInfo::make(chunk) {
                Ok(g) => g,
                Err(_) => return Err(DecodeError::TruncatedRecord),
            };
            proof {
                lemma_info_matches_shift(g, bytes@, i as int);
                assert(40 * (i as int / 40) == i as int) by (nonlinear_arith)
                    requires
                        i as int % 40 == 0,
                ;
            }
            ret.push(g);
            i = i + 40;
        }

        if i == n {
            Ok(ret)
        } else {
            Err(DecodeError::TruncatedRecord)
        }
    }

    /// Re-encodes the record into the 40 bytes it was decoded from,
    /// reserved fields included.
    pub fn encode(&self) -> (r: Vec<u8>)
        ensures
            r@ == spec_encode_info(*self),
            r@.len() == 40,
            info_matches_at(*self, r@, 0),
    {
        let mut out: Vec<u8> = Vec::new();
        let mut f: Vec<u8> = le_bytes_of_u32(self.id);
        out.append(&mut f);
        f = le_bytes_of_u32(self.address);
        out.append(&mut f);
        f = le_bytes_of_u32(self.length);
        out.append(&mut f);
        f = le_bytes_of_u32(u32_of_i32(self.offset_x));
        out.append(&mut f);
        f = le_bytes_of_u32(u32_of_i32(self.offset_y));
        out.append(&mut f);
        f = le_bytes_of_u32(self.width);
        out.append(&mut f);
        f = le_bytes_of_u32(self.height);
        out.append(&mut f);
        out.push(byte_of_i8(self.tile_east));
        out.push(byte_of_i8(self.tile_south));
        out.push(byte_of_i8(self.access));
        out.push(byte_of_i8(self._unknown[0]));
        out.push(byte_of_i8(self._unknown[1]));
        out.push(byte_of_i8(self._unknown[2]));
        out.push(byte_of_i8(self._unknown[3]));
        out.push(byte_of_i8(self._unknown[4]));
        f = le_bytes_of_u32(self.map_id);
        out.append(&mut f);
        proof {
            assert(out@ =~= spec_encode_info(*self));
            lemma_info_encode_decode(*self);
        }
        out
    }
}

/// One variable-length record of the blob file: a 16-byte header behind a
/// 2-byte tag, then `length` payload bytes.
#[derive(Debug)]
pub struct Graphic {
    pub identifier: [i8; 2],
    pub version: i8,
    pub _unknown: i8,
    pub width: u32,
    pub height: u32,
    pub length: u32,
    pub data: Vec<i8>,
}

/// The blob record at offset `a` of `b` begins with the `R`,`D` tag.
pub open spec fn spec_tag_ok(b: Seq<u8>, a: int) -> bool
    recommends
        0 <= a && a + 2 <= b.len(),
{
    b[a] == 0x52 && b[a + 1] == 0x44
}

/// The payload length the blob record header at offset `a` of `b` declares.
pub open spec fn spec_payload_len(b: Seq<u8>, a: int) -> int
    recommends
        0 <= a && a + 16 <= b.len(),
{
    spec_le_u32_at(b, a + 12) as int
}

/// `g` holds exactly the fields of the blob record encoded at offset `a`
/// of `b`: tag, version, reserved byte, dimensions, declared length, and a
/// payload of exactly that many bytes.
pub open spec fn graphic_matches_at(g: Graphic, b: Seq<u8>, a: int) -> bool
    recommends
        0 <= a && a + 16 <= b.len(),
{
    &&& g.identifier[0] == spec_i8_of_byte(b[a])
    &&& g.identifier[1] == spec_i8_of_byte(b[a + 1])
    &&& g.version == spec_i8_of_byte(b[a + 2])
    &&& g._unknown == spec_i8_of_byte(b[a + 3])
    &&& g.width == spec_le_u32_at(b, a + 4)
    &&& g.height == spec_le_u32_at(b, a + 8)
    &&& g.length == spec_le_u32_at(b, a + 12)
    &&& g.data@.len() == g.length
    &&& a + 16 + g.length <= b.len()
    &&& (forall|j: int| 0 <= j < g.data@.len() ==> g.data@[j] == spec_i8_of_byte(b[a + 16 + j]))
}

/// The little-endian encoding of a blob record: 2-byte tag, version,
/// reserved byte, dimensions, declared length, then the payload verbatim.
pub open spec fn spec_encode_graphic(g: Graphic) -> Seq<u8> {
    seq![
        spec_byte_of_i8(g.identifier[0]),
        spec_byte_of_i8(g.identifier[1]),
        spec_byte_of_i8(g.version),
        spec_byte_of_i8(g._unknown),
    ] + spec_le_bytes_of_u32(g.width) + spec_le_bytes_of_u32(g.height) + spec_le_bytes_of_u32(
        g.length,
    ) + g.data@.map(|j: int, x: i8| spec_byte_of_i8(x))
}

/// What a blob record encodes to, it decodes back from: the first half of
/// the round-trip law.
pub proof fn lemma_graphic_encode_decode(g: Graphic)
    requires
        g.wf(),
    ensures
        spec_encode_graphic(g).len() == 16 + g.length,
        graphic_matches_at(g, spec_encode_graphic(g), 0),
{
    lemma_le_u32_round_trip();
    lemma_i8_byte_round_trip();
    let b = spec_encode_graphic(g);
    assert(spec_le_bytes_of_u32(g.width) =~= b.subrange(4, 8));
    assert(spec_le_bytes_of_u32(g.height) =~= b.subrange(8, 12));
    assert(spec_le_bytes_of_u32(g.length) =~= b.subrange(12, 16));
}

/// Decoding a blob record and re-encoding it reproduces the original
/// bytes exactly: the second half of the round-trip law.
pub proof fn lemma_graphic_decode_encode(g: Graphic, b: Seq<u8>)
    requires
        b.len() == 16 + g.length,
        graphic_matches_at(g, b, 0),
    ensures
        spec_encode_graphic(g) == b,
{
    lemma_le_u32_round_trip();
    lemma_i8_byte_round_trip();
    assert(spec_le_bytes_of_u32(g.width) == b.subrange(4, 8));
    assert(spec_le_bytes_of_u32(g.height) == b.subrange(8, 12));
    assert(spec_le_bytes_of_u32(g.length) == b.subrange(12, 16));
    assert(spec_encode_graphic(g) =~= b);
}

/// The bytes of a blob record determine its decoded form uniquely:
/// re-decoding the same bytes yields field-for-field equal records.
pub proof fn lemma_graphic_unique(g1: Graphic, g2: Graphic, b: Seq<u8>, a: int)
    requires
        graphic_matches_at(g1, b, a),
        graphic_matches_at(g2, b, a),
    ensures
        g1.identifier == g2.identifier,
        g1.version == g2.version,
        g1._unknown == g2._unknown,
        g1.width == g2.width,
        g1.height == g2.height,
        g1.length == g2.length,
        g1.data@ == g2.data@,
{
    assert(g1.identifier =~= g2.identifier) by {
        vstd::array::axiom_array_ext_equal(g1.identifier, g2.identifier);
    }
    assert(g1.data@ =~= g2.data@);
}

impl Graphic {
    /// The payload is exactly as long as the header declares.
    pub open spec fn wf(&self) -> bool {
        self.data@.len() == self.length
    }

    /// Decodes the one blob record that `info.address` points at inside
    /// `blob`. A wrong 2-byte tag fails with `InvalidIdentifier` before any
    /// further field is read; running past the end of the buffer, in the
    /// header or in the payload, fails with `UnexpectedEnd`.
    pub fn decode_one(info: &GraphicInfo, blob: &[u8]) -> (r: Result<Graphic, DecodeError>)
        ensures
            ({
                let a = info.address as int;
                let n = blob@.len() as int;
                &&& (r is Ok <==> a + 16 <= n && spec_tag_ok(blob@, a) && a + 16
                    + spec_payload_len(blob@, a) <= n)
                &&& (r is Ok ==> r->Ok_0.wf() && graphic_matches_at(r->Ok_0, blob@, a))
                &&& (r is Err ==> r->Err_0 == (if a + 2 <= n && !spec_tag_ok(blob@, a) {
                    DecodeError::InvalidIdentifier
                } else {
                    DecodeError::UnexpectedEnd
                }))
            }),
    {
        let n: usize = blob.len();
        if info.address as u64 + 2 > n as u64 {
            return Err(DecodeError::UnexpectedEnd);
        }
        let a: usize = info.address as usize;
        let mut rdr = ByteCursor::new(slice_subrange(blob, a, n));

        let ident0: i8 = match rdr.read_i8() {
            Ok(v) => v,
            Err(e) => return Err(e),
        };
        let ident1: i8 = match rdr.read_i8() {
            Ok(v) => v,
            Err(e) => return Err(e),
        };
        if !(ident0 == 82 && ident1 == 68) {
            return Err(DecodeError::InvalidIdentifier);
        }

        let version: i8 = match rdr.read_i8() {
            Ok(v) => v,
            Err(e) => return Err(e),
        };
        let unknown: i8 = match rdr.read_i8() {
            Ok(v) => v,
            Err(e) => return Err(e),
        };
        let width: u32 = match rdr.read_u32() {
            Ok(v) => v,
            Err(e) => return Err(e),
        };
        let height: u32 = match rdr.read_u32() {
            Ok(v) => v,
            Err(e) => return Err(e),
        };
        let length: u32 = match rdr.read_u32() {
            Ok(v) => v,
            Err(e) => return Err(e),
        };
        let data: Vec<i8> = match rdr.read_i8_array(length as usize) {
            Ok(v) => v,
            Err(e) => return Err(e),
        };

        Ok(Graphic {
            identifier: [ident0, ident1],
            version,
            _unknown: unknown,
            width,
            height,
            length,
            data,
        })
    }

    /// Re-encodes the record into the bytes it was decoded from: the
    /// 16-byte header followed by the payload.
    pub fn encode(&self) -> (r: Vec<u8>)
        requires
            self.wf(),
        ensures
            r@ == spec_encode_graphic(*self),
            r@.len() == 16 + self.length,
            graphic_matches_at(*self, r@, 0),
    {
        let mut out: Vec<u8> = Vec::new();
        out.push(byte_of_i8(self.identifier[0]));
        out.push(byte_of_i8(self.identifier[1]));
        out.push(byte_of_i8(self.version));
        out.push(byte_of_i8(self._unknown));
        let mut f: Vec<u8> = le_bytes_of_u32(self.width);
        out.append(&mut f);
        f = le_bytes_of_u32(self.height);
        out.append(&mut f);
        f = le_bytes_of_u32(self.length);
        out.append(&mut f);

        let ghost header: Seq<u8> = out@;
        let ghost payload: Seq<u8> = self.data@.map(|j: int, x: i8| spec_byte_of_i8(x));
        let mut j: usize = 0;
        while j < self.data.len()
            invariant
                j <= self.data.len(),
                header.len() == 16,
                payload.len() == self.data@.len(),
                forall|k: int|
                    0 <= k < payload.len() ==> payload[k] == spec_byte_of_i8(
                        #[trigger] self.data@[k],
                    ),
                out@ == header + payload.subrange(0, j as int),
            decreases self.data.len() - j,
        {
            out.push(byte_of_i8(self.data[j]));
            proof {
                assert(payload.subrange(0, j + 1) =~= payload.subrange(0, j as int).push(
                    payload[j as int],
                ));
            }
            j = j + 1;
        }
        proof {
            assert(payload.subrange(0, self.data@.len() as int) =~= payload);
            assert(out@ =~= spec_encode_graphic(*self));
            lemma_graphic_encode_decode(*self);
        }
        out
    }
}

} // verus!

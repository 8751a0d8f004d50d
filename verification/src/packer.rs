//! The byte packer: chunks to bytes and back.
//!
//! | leading bits | chunk | rest of the layout                                          |
//! |--------------|-------|-------------------------------------------------------------|
//! | `11111111`   | RGBA  | red, green, blue, alpha: one byte each                      |
//! | `11111110`   | RGB   | red, green, blue: one byte each                             |
//! | `11`         | Run   | 6 bits: run length minus 1 (0..61)                          |
//! | `00`         | Index | 6 bits: cache bucket (0..63)                                |
//! | `01`         | Diff  | 3 times 2 bits: red, green, blue difference plus 2          |
//! | `10`         | Luma  | 6 bits: green difference plus 32; then a byte of 2 times    |
//! |              |       | 4 bits: red and blue difference from green, plus 8          |
//!
//! A stream is the header, the chunks, and the end marker: seven bytes `0x00`
//! and one byte `0x01`.

use vstd::prelude::*;
use crate::chunk::{
    Chunk, Chunks, QoiOpDiff, QoiOpIndex, QoiOpLuma, QoiOpRGB, QoiOpRGBA, QoiOpRun, QoiOps, Tag,
};
use crate::header::{QoiHeader, HEADER_LEN, header_bytes, write_header};

verus! {

/// Length of the end marker in bytes.
pub const END_MARKER_LEN: usize = 8;

/// The marker that closes every stream.
pub open spec fn end_marker() -> Seq<u8> {
    seq![0u8, 0u8, 0u8, 0u8, 0u8, 0u8, 0u8, 1u8]
}

/// The tag that a leading byte carries. The two reserved bytes come first:
/// what is left of the bytes that begin with `11` is a run.
pub open spec fn tag_of(byte: u8) -> Tag {
    if byte == 0xFF {
        Tag::B11111111
    } else if byte == 0xFE {
        Tag::B11111110
    } else if byte / 64 == 3 {
        Tag::B11
    } else if byte / 64 == 2 {
        Tag::B10
    } else if byte / 64 == 1 {
        Tag::B01
    } else {
        Tag::B00
    }
}

impl Tag {
    /// The leading byte of a chunk with this tag, the bits after the tag all
    /// zero.
    pub open spec fn spec_lead(self) -> u8 {
        match self {
            Tag::B11 => 0xC0,
            Tag::B00 => 0x00,
            Tag::B01 => 0x40,
            Tag::B10 => 0x80,
            Tag::B11111110 => 0xFE,
            Tag::B11111111 => 0xFF,
        }
    }

    /// The leading byte of a chunk with this tag, the bits after the tag all
    /// zero.
    pub fn lead(&self) -> (byte: u8)
        ensures
            byte == self.spec_lead(),
    {
        match self {
            Tag::B11 => 0xC0,
            Tag::B00 => 0x00,
            Tag::B01 => 0x40,
            Tag::B10 => 0x80,
            Tag::B11111110 => 0xFE,
            Tag::B11111111 => 0xFF,
        }
    }

    /// The tag that a leading byte carries.
    pub fn of(byte: u8) -> (tag: Self)
        ensures
            tag == tag_of(byte),
    {
        assert(byte >> 6 == byte / 64) by (bit_vector);
        if byte == 0xFF {
            Tag::B11111111
        } else if byte == 0xFE {
            Tag::B11111110
        } else {
            let bits = byte >> 6;
            if bits == 3 {
                Tag::B11
            } else if bits == 2 {
                Tag::B10
            } else if bits == 1 {
                Tag::B01
            } else {
                Tag::B00
            }
        }
    }
}

/// The bytes of one chunk.
pub open spec fn chunk_bytes(c: Chunk) -> Seq<u8> {
    match c {
        Chunk::Run { len } => seq![(0xC0 + (len - 1)) as u8],
        Chunk::Index { bucket } => seq![bucket as u8],
        Chunk::Diff { dr, dg, db } => seq![(0x40 + (dr + 2) * 16 + (dg + 2) * 4 + (db + 2)) as u8],
        Chunk::Luma { dg, dr_dg, db_dg } => seq![
            (0x80 + (dg + 32)) as u8,
            ((dr_dg + 8) * 16 + (db_dg + 8)) as u8,
        ],
        Chunk::RGB { r, g, b } => seq![0xFEu8, r, g, b],
        Chunk::RGBA { r, g, b, a } => seq![0xFFu8, r, g, b, a],
    }
}

/// The chunk that `bytes` begin with, and its length in bytes; `None` where
/// `bytes` are empty or end before the chunk does.
pub open spec fn parse_chunk(bytes: Seq<u8>) -> Option<(Chunk, nat)> {
    if bytes.len() == 0 {
        None
    } else {
        let lead = bytes[0];
        match tag_of(lead) {
            Tag::B11111111 => if bytes.len() < 5 {
                None
            } else {
                Some((Chunk::RGBA { r: bytes[1], g: bytes[2], b: bytes[3], a: bytes[4] }, 5nat))
            },
            Tag::B11111110 => if bytes.len() < 4 {
                None
            } else {
                Some((Chunk::RGB { r: bytes[1], g: bytes[2], b: bytes[3] }, 4nat))
            },
            Tag::B11 => Some((Chunk::Run { len: lead % 64 + 1 }, 1nat)),
            Tag::B00 => Some((Chunk::Index { bucket: (lead % 64) as int }, 1nat)),
            Tag::B01 => Some(
                (
                    Chunk::Diff {
                        dr: lead / 16 % 4 - 2,
                        dg: lead / 4 % 4 - 2,
                        db: lead % 4 - 2,
                    },
                    1nat,
                ),
            ),
            Tag::B10 => if bytes.len() < 2 {
                None
            } else {
                Some(
                    (
                        Chunk::Luma {
                            dg: lead % 64 - 32,
                            dr_dg: bytes[1] / 16 - 8,
                            db_dg: bytes[1] % 16 - 8,
                        },
                        2nat,
                    ),
                )
            },
        }
    }
}

/// The bytes of a sequence of chunks, one after the other.
pub open spec fn chunks_bytes(chunks: Seq<Chunk>) -> Seq<u8>
    decreases chunks.len(),
{
    if chunks.len() == 0 {
        Seq::empty()
    } else {
        chunks_bytes(chunks.drop_last()) + chunk_bytes(chunks.last())
    }
}

/// Reading undoes writing: bytes that begin with a well-formed chunk parse to
/// that chunk, whatever follows it.
pub proof fn lemma_parse_chunk_bytes(c: Chunk, rest: Seq<u8>)
    requires
        c.wf(),
    ensures
        parse_chunk(chunk_bytes(c) + rest) == Some((c, chunk_bytes(c).len())),
        1 <= chunk_bytes(c).len() <= 5,
{
    let bytes = chunk_bytes(c) + rest;
    assert(bytes[0] == chunk_bytes(c)[0]);
    match c {
        Chunk::Luma { .. } => {
            assert(bytes[1] == chunk_bytes(c)[1]);
        },
        Chunk::RGB { .. } => {
            assert(bytes[1] == chunk_bytes(c)[1]);
            assert(bytes[2] == chunk_bytes(c)[2]);
            assert(bytes[3] == chunk_bytes(c)[3]);
        },
        Chunk::RGBA { .. } => {
            assert(bytes[1] == chunk_bytes(c)[1]);
            assert(bytes[2] == chunk_bytes(c)[2]);
            assert(bytes[3] == chunk_bytes(c)[3]);
            assert(bytes[4] == chunk_bytes(c)[4]);
        },
        _ => {},
    }
}

/// The bytes of two sequences of chunks, one after the other, are the bytes of
/// the first followed by the bytes of the second.
pub proof fn lemma_chunks_bytes_concat(a: Seq<Chunk>, b: Seq<Chunk>)
    ensures
        chunks_bytes(a + b) == chunks_bytes(a) + chunks_bytes(b),
    decreases b.len(),
{
    if b.len() == 0 {
        assert(a + b =~= a);
        assert(chunks_bytes(a) + chunks_bytes(b) =~= chunks_bytes(a));
    } else {
        lemma_chunks_bytes_concat(a, b.drop_last());
        assert((a + b).drop_last() =~= a + b.drop_last());
        assert((a + b).last() == b.last());
        assert(chunks_bytes(a + b) =~= chunks_bytes(a) + chunks_bytes(b));
    }
}

/// A whole stream: header, chunks, end marker.
pub open spec fn stream_bytes(header: QoiHeader, chunks: Seq<Chunk>) -> Seq<u8> {
    header_bytes(header) + chunks_bytes(chunks) + end_marker()
}

/// Appends the bytes of one chunk to `out`.
pub fn write_chunk(op: &QoiOps, out: &mut Vec<u8>)
    requires
        op.wf(),
    ensures
        final(out)@ == old(out)@ + chunk_bytes(op@),
{
    match op {
        QoiOps::Run(run) => {
            let bits = run.run - 1;
            assert(0xC0u8 | bits == 0xC0 + bits) by (bit_vector)
                requires
                    bits < 64,
            ;
            out.push(run.tag.lead() | bits);
        },
        QoiOps::Index(index) => {
            let bits = index.index;
            assert(0x00u8 | bits == bits) by (bit_vector);
            out.push(index.tag.lead() | bits);
        },
        QoiOps::Diff(diff) => {
            let (dr, dg, db) = (diff.dr, diff.dg, diff.db);
            assert(0x40u8 | (dr << 4) | (dg << 2) | db == 0x40 + dr * 16 + dg * 4 + db)
                by (bit_vector)
                requires
                    dr < 4,
                    dg < 4,
                    db < 4,
            ;
            out.push(diff.tag.lead() | (dr << 4) | (dg << 2) | db);
        },
        QoiOps::Luma(luma) => {
            let (dg, dr_dg, db_dg) = (luma.dg, luma.dr_dg, luma.db_dg);
            assert(0x80u8 | dg == 0x80 + dg) by (bit_vector)
                requires
                    dg < 64,
            ;
            assert((dr_dg << 4) | db_dg == dr_dg * 16 + db_dg) by (bit_vector)
                requires
                    dr_dg < 16,
                    db_dg < 16,
            ;
            out.push(luma.tag.lead() | dg);
            out.push((dr_dg << 4) | db_dg);
        },
        QoiOps::RGB(rgb) => {
            out.push(rgb.tag.lead());
            out.push(rgb.red);
            out.push(rgb.green);
            out.push(rgb.blue);
        },
        QoiOps::RGBA(rgba) => {
            out.push(rgba.tag.lead());
            out.push(rgba.red);
            out.push(rgba.green);
            out.push(rgba.blue);
            out.push(rgba.alpha);
        },
    }
    assert(out@ =~= old(out)@ + chunk_bytes(op@));
}

/// Reads the chunk that begins at `pos`, from the bytes before `end`. Gives
/// the chunk and the position after it; `None` where no byte is left before
/// `end`, or the chunk would go on past it.
pub fn read_chunk(bytes: &[u8], pos: usize, end: usize) -> (result: Option<(QoiOps, usize)>)
    requires
        pos <= end <= bytes@.len(),
    ensures
        match parse_chunk(bytes@.subrange(pos as int, end as int)) {
            Some((chunk, len)) => result matches Some((op, next)) && op@ == chunk && op.wf()
                && next == pos + len && next <= end,
            None => result is None,
        },
{
    if pos >= end {
        return None;
    }
    let ghost rest = bytes@.subrange(pos as int, end as int);
    let lead = bytes[pos];
    assert(rest[0] == lead);
    let left = end - pos;
    match Tag::of(lead) {
        Tag::B11111111 => {
            if left < 5 {
                return None;
            }
            assert(rest[1] == bytes@[pos + 1] && rest[2] == bytes@[pos + 2] && rest[3] == bytes@[pos
                + 3] && rest[4] == bytes@[pos + 4]);
            Some(
                (
                    QoiOps::RGBA(
                        QoiOpRGBA {
                            tag: Tag::B11111111,
                            red: bytes[pos + 1],
                            green: bytes[pos + 2],
                            blue: bytes[pos + 3],
                            alpha: bytes[pos + 4],
                        },
                    ),
                    pos + 5,
                ),
            )
        },
        Tag::B11111110 => {
            if left < 4 {
                return None;
            }
            assert(rest[1] == bytes@[pos + 1] && rest[2] == bytes@[pos + 2] && rest[3] == bytes@[pos
                + 3]);
            Some(
                (
                    QoiOps::RGB(
                        QoiOpRGB {
                            tag: Tag::B11111110,
                            red: bytes[pos + 1],
                            green: bytes[pos + 2],
                            blue: bytes[pos + 3],
                        },
                    ),
                    pos + 4,
                ),
            )
        },
        Tag::B11 => {
            assert(lead & 0x3f == lead % 64) by (bit_vector);
            Some((QoiOps::Run(QoiOpRun { tag: Tag::B11, run: (lead & 0x3f) + 1 }), pos + 1))
        },
        Tag::B00 => {
            assert(lead & 0x3f == lead % 64) by (bit_vector);
            Some((QoiOps::Index(QoiOpIndex { tag: Tag::B00, index: lead & 0x3f }), pos + 1))
        },
        Tag::B01 => {
            assert((lead >> 4) & 3 == lead / 16 % 4) by (bit_vector);
            assert((lead >> 2) & 3 == lead / 4 % 4) by (bit_vector);
            assert(lead & 3 == lead % 4) by (bit_vector);
            Some(
                (
                    QoiOps::Diff(
                        QoiOpDiff {
                            tag: Tag::B01,
                            dr: (lead >> 4) & 3,
                            dg: (lead >> 2) & 3,
                            db: lead & 3,
                        },
                    ),
                    pos + 1,
                ),
            )
        },
        Tag::B10 => {
            if left < 2 {
                return None;
            }
            let second = bytes[pos + 1];
            assert(rest[1] == second);
            assert(lead & 0x3f == lead % 64) by (bit_vector);
            assert(second >> 4 == second / 16) by (bit_vector);
            assert(second & 0x0f == second % 16) by (bit_vector);
            Some(
                (
                    QoiOps::Luma(
                        QoiOpLuma {
                            tag: Tag::B10,
                            dg: lead & 0x3f,
                            dr_dg: second >> 4,
                            db_dg: second & 0x0f,
                        },
                    ),
                    pos + 2,
                ),
            )
        },
    }
}

/// Whether `bytes` have room for a header and end in the end marker.
pub open spec fn has_end_marker(bytes: Seq<u8>) -> bool {
    bytes.len() >= 14 + 8 && bytes.subrange(bytes.len() - 8, bytes.len() as int) == end_marker()
}

/// Whether `bytes` have room for a header and end in the end marker.
pub fn ends_with_marker(bytes: &[u8]) -> (found: bool)
    ensures
        found == has_end_marker(bytes@),
{
    let n = bytes.len();
    if n < HEADER_LEN + END_MARKER_LEN {
        return false;
    }
    let ghost tail = bytes@.subrange(n - 8, n as int);
    let mut k: usize = 0;
    while k < END_MARKER_LEN
        invariant
            k <= END_MARKER_LEN,
            n == bytes@.len(),
            n >= HEADER_LEN + END_MARKER_LEN,
            tail == bytes@.subrange(n - 8, n as int),
            forall|j: int| 0 <= j < k ==> tail[j] == end_marker()[j],
        decreases END_MARKER_LEN - k,
    {
        let expected: u8 = if k == END_MARKER_LEN - 1 {
            1
        } else {
            0
        };
        assert(tail[k as int] == bytes@[n - 8 + k]);
        if bytes[n - END_MARKER_LEN + k] != expected {
            return false;
        }
        k += 1;
    }
    assert(tail =~= end_marker());
    true
}

/// Packs a header and the chunks of an image into a stream.
pub fn pack(header: &QoiHeader, chunks: &Chunks) -> (bytes: Vec<u8>)
    requires
        chunks.wf(),
    ensures
        bytes@ == stream_bytes(*header, chunks@),
{
    let mut bytes: Vec<u8> = Vec::new();
    write_header(header, &mut bytes);
    let mut i: usize = 0;
    while i < chunks.0.len()
        invariant
            i <= chunks.0@.len(),
            chunks.wf(),
            bytes@ == header_bytes(*header) + chunks_bytes(chunks@.take(i as int)),
        decreases chunks.0@.len() - i,
    {
        write_chunk(&chunks.0[i], &mut bytes);
        proof {
            let done = chunks@.take(i + 1);
            assert(done.drop_last() =~= chunks@.take(i as int));
            assert(done.last() == chunks.0@[i as int]@);
        }
        i += 1;
    }
    assert(chunks@.take(i as int) =~= chunks@);
    let mut k: usize = 0;
    while k < END_MARKER_LEN - 1
        invariant
            k <= END_MARKER_LEN - 1,
            bytes@ == header_bytes(*header) + chunks_bytes(chunks@) + end_marker().take(k as int),
        decreases END_MARKER_LEN - 1 - k,
    {
        bytes.push(0);
        assert(end_marker().take(k + 1) =~= end_marker().take(k as int).push(0u8));
        k += 1;
    }
    bytes.push(1);
    assert(end_marker() =~= end_marker().take(7).push(1u8));
    bytes
}

} // verus!

//! Chunks: the six typed units of the compressed stream.
//!
//! [`Chunk`] is the mathematical chunk, with signed deltas. The executable
//! structs hold what goes into the bit fields: deltas are stored biased, so
//! that every field is a small unsigned number.

use vstd::prelude::*;
use crate::pixel::{RGBA, spec_hash};

verus! {

/// The longest run one chunk can carry.
pub const MAX_RUN: u8 = 62;

/// The representative of `x` modulo 256 in `-128..=127`: `x` wrapped to 8-bit
/// signed arithmetic.
pub open spec fn signed8(x: int) -> int {
    (x + 128) % 256 - 128
}

/// The wrapped signed difference of one channel, current minus previous.
pub open spec fn delta(cur: u8, prev: u8) -> int {
    signed8(cur - prev)
}

/// A channel moved by `d`, wrapping modulo 256.
pub open spec fn shifted(prev: u8, d: int) -> u8 {
    ((prev + d) % 256) as u8
}

/// `signed8` on the range that differences of two bytes, and of two wrapped
/// differences, fall into.
pub proof fn lemma_signed8(x: int)
    requires
        -384 <= x < 384,
    ensures
        -128 <= signed8(x) <= 127,
        x < -128 ==> signed8(x) == x + 256,
        -128 <= x <= 127 ==> signed8(x) == x,
        127 < x ==> signed8(x) == x - 256,
{
}

/// `shifted` on the range that the differences in chunks fall into.
pub proof fn lemma_shifted(prev: u8, d: int)
    requires
        -256 <= d <= 256,
    ensures
        prev + d < 0 ==> shifted(prev, d) == prev + d + 256,
        0 <= prev + d < 256 ==> shifted(prev, d) == prev + d,
        256 <= prev + d ==> shifted(prev, d) == prev + d - 256,
{
}

/// Moving a channel by its wrapped difference gives the current value back,
/// and the wrapped difference to a moved channel is what it was moved by.
pub proof fn lemma_shifted_delta(cur: u8, prev: u8, d: int)
    requires
        -128 <= d <= 127,
    ensures
        shifted(prev, delta(cur, prev)) == cur,
        delta(shifted(prev, d), prev) == d,
{
    lemma_signed8(cur - prev);
    lemma_shifted(prev, delta(cur, prev));
    lemma_shifted(prev, d);
    lemma_signed8(shifted(prev, d) - prev);
}

/// One chunk of the stream.
pub enum Chunk {
    /// `len` repetitions of the previous pixel.
    Run { len: int },
    /// The pixel held in cache bucket `bucket`.
    Index { bucket: int },
    /// Per-channel differences from the previous pixel; alpha unchanged.
    Diff { dr: int, dg: int, db: int },
    /// A green difference, and the red and blue differences relative to it;
    /// alpha unchanged.
    Luma { dg: int, dr_dg: int, db_dg: int },
    /// Three raw channels; alpha unchanged.
    RGB { r: u8, g: u8, b: u8 },
    /// Four raw channels.
    RGBA { r: u8, g: u8, b: u8, a: u8 },
}

impl Chunk {
    /// Every field lies in the range its bit field can hold.
    pub open spec fn wf(self) -> bool {
        match self {
            Chunk::Run { len } => 1 <= len <= 62,
            Chunk::Index { bucket } => 0 <= bucket < 64,
            Chunk::Diff { dr, dg, db } => -2 <= dr <= 1 && -2 <= dg <= 1 && -2 <= db <= 1,
            Chunk::Luma { dg, dr_dg, db_dg } => -32 <= dg <= 31 && -8 <= dr_dg <= 7 && -8 <= db_dg
                <= 7,
            Chunk::RGB { .. } => true,
            Chunk::RGBA { .. } => true,
        }
    }

    /// How many pixels the chunk stands for.
    pub open spec fn pixel_count(self) -> int {
        match self {
            Chunk::Run { len } => len,
            _ => 1,
        }
    }
}

/// Whether a Diff chunk can carry `color` after `previous`.
pub open spec fn diff_applies(color: RGBA, previous: RGBA) -> bool {
    &&& color.a == previous.a
    &&& -2 <= delta(color.r, previous.r) <= 1
    &&& -2 <= delta(color.g, previous.g) <= 1
    &&& -2 <= delta(color.b, previous.b) <= 1
}

/// The Diff chunk for `color` after `previous`.
pub open spec fn diff_chunk(color: RGBA, previous: RGBA) -> Chunk {
    Chunk::Diff {
        dr: delta(color.r, previous.r),
        dg: delta(color.g, previous.g),
        db: delta(color.b, previous.b),
    }
}

/// Whether a Luma chunk can carry `color` after `previous`.
pub open spec fn luma_applies(color: RGBA, previous: RGBA) -> bool {
    let dg = delta(color.g, previous.g);
    &&& color.a == previous.a
    &&& -32 <= dg <= 31
    &&& -8 <= signed8(delta(color.r, previous.r) - dg) <= 7
    &&& -8 <= signed8(delta(color.b, previous.b) - dg) <= 7
}

/// The Luma chunk for `color` after `previous`.
pub open spec fn luma_chunk(color: RGBA, previous: RGBA) -> Chunk {
    let dg = delta(color.g, previous.g);
    Chunk::Luma {
        dg,
        dr_dg: signed8(delta(color.r, previous.r) - dg),
        db_dg: signed8(delta(color.b, previous.b) - dg),
    }
}

/// The tag that opens a chunk: two bits, or a whole reserved byte.
#[derive(Debug, Clone, Copy, PartialEq, Eq, Structural)]
pub enum Tag {
    /// Two bits `11`: a run.
    B11,
    /// Two bits `00`: an index into the cache.
    B00,
    /// Two bits `01`: a small difference.
    B01,
    /// Two bits `10`: a difference led by green.
    B10,
    /// The byte `11111110`: raw red, green and blue.
    B11111110,
    /// The byte `11111111`: raw red, green, blue and alpha.
    B11111111,
}

/// A run of the previous pixel.
#[derive(Debug, Clone, Copy, PartialEq, Eq, Structural)]
pub struct QoiOpRun {
    /// 2-bit tag b11
    pub tag: Tag,
    /// run length repeating the previous pixel: 1..62
    pub run: u8,
}

/// A pixel found in the color cache.
#[derive(Debug, Clone, Copy, PartialEq, Eq, Structural)]
pub struct QoiOpIndex {
    /// 2-bit tag b00
    pub tag: Tag,
    /// 6-bit index into the color cache: 0..63
    pub index: u8,
}

/// A small difference from the previous pixel. Each field holds the
/// difference plus 2.
#[derive(Debug, Clone, Copy, PartialEq, Eq, Structural)]
pub struct QoiOpDiff {
    /// 2-bit tag b01
    pub tag: Tag,
    /// 2-bit red channel difference -2..1, stored as 0..3
    pub dr: u8,
    /// 2-bit green channel difference -2..1, stored as 0..3
    pub dg: u8,
    /// 2-bit blue channel difference -2..1, stored as 0..3
    pub db: u8,
}

/// A larger difference, led by green.
#[derive(Debug, Clone, Copy, PartialEq, Eq, Structural)]
pub struct QoiOpLuma {
    /// 2-bit tag b10
    pub tag: Tag,
    /// 6-bit green channel difference -32..31, stored as 0..63
    pub dg: u8,
    /// 4-bit red difference minus green difference -8..7, stored as 0..15
    pub dr_dg: u8,
    /// 4-bit blue difference minus green difference -8..7, stored as 0..15
    pub db_dg: u8,
}

/// Raw color channels; alpha stays as it was.
#[derive(Debug, Clone, Copy, PartialEq, Eq, Structural)]
pub struct QoiOpRGB {
    /// 8-bit tag b11111110
    pub tag: Tag,
    pub red: u8,
    pub green: u8,
    pub blue: u8,
}

/// All four raw channels.
#[derive(Debug, Clone, Copy, PartialEq, Eq, Structural)]
pub struct QoiOpRGBA {
    /// 8-bit tag b11111111
    pub tag: Tag,
    pub red: u8,
    pub green: u8,
    pub blue: u8,
    pub alpha: u8,
}

/// Any one of the six chunks.
#[derive(Debug, Clone, Copy, PartialEq, Eq, Structural)]
pub enum QoiOps {
    Run(QoiOpRun),
    Index(QoiOpIndex),
    Diff(QoiOpDiff),
    Luma(QoiOpLuma),
    RGB(QoiOpRGB),
    RGBA(QoiOpRGBA),
}

impl QoiOpRun {
    pub open spec fn wf(&self) -> bool {
        self.tag == Tag::B11 && 1 <= self.run <= 62
    }

    /// A run of one pixel.
    pub fn new() -> (op: Self)
        ensures
            op == (QoiOpRun { tag: Tag::B11, run: 1 }),
    {
        Self { tag: Tag::B11, run: 1 }
    }

    /// Makes the run one pixel longer.
    pub fn add_run(&mut self)
        requires
            old(self).run < MAX_RUN,
        ensures
            *final(self) == (QoiOpRun { tag: old(self).tag, run: (old(self).run + 1) as u8 }),
    {
        self.run += 1;
    }
}

impl QoiOpIndex {
    pub open spec fn wf(&self) -> bool {
        self.tag == Tag::B00 && self.index < 64
    }

    /// The chunk for bucket 0.
    pub fn new() -> (op: Self)
        ensures
            op == (QoiOpIndex { tag: Tag::B00, index: 0 }),
    {
        Self { tag: Tag::B00, index: 0 }
    }

    /// The chunk for the bucket of `color`.
    pub fn from_rgba(color: &RGBA) -> (op: Self)
        ensures
            op.tag == Tag::B00,
            op.index == spec_hash(*color),
            op.wf(),
    {
        Self { tag: Tag::B00, index: color.hash() }
    }
}

impl QoiOpDiff {
    pub open spec fn wf(&self) -> bool {
        self.tag == Tag::B01 && self.dr < 4 && self.dg < 4 && self.db < 4
    }

    /// The Diff chunk that turns `previous` into `color`, where there is one:
    /// alpha must be the same and each color channel must differ by -2..1.
    pub fn from_rgba(color: &RGBA, previous: &RGBA) -> (op: Option<Self>)
        ensures
            op is Some <==> diff_applies(*color, *previous),
            op matches Some(d) ==> d.wf() && (QoiOps::Diff(d))@ == diff_chunk(*color, *previous),
    {
        let dr = color.r.wrapping_sub(previous.r).wrapping_add(2);
        let dg = color.g.wrapping_sub(previous.g).wrapping_add(2);
        let db = color.b.wrapping_sub(previous.b).wrapping_add(2);
        proof {
            lemma_signed8(color.r - previous.r);
            lemma_signed8(color.g - previous.g);
            lemma_signed8(color.b - previous.b);
        }
        if color.a == previous.a && dr < 4 && dg < 4 && db < 4 {
            Some(Self { tag: Tag::B01, dr, dg, db })
        } else {
            None
        }
    }
}

impl QoiOpLuma {
    pub open spec fn wf(&self) -> bool {
        self.tag == Tag::B10 && self.dg < 64 && self.dr_dg < 16 && self.db_dg < 16
    }

    /// The Luma chunk that turns `previous` into `color`, where there is one:
    /// alpha must be the same, green must differ by -32..31, and red and blue
    /// must each differ from the green difference by -8..7.
    pub fn from_rgba(color: &RGBA, previous: &RGBA) -> (op: Option<Self>)
        ensures
            op is Some <==> luma_applies(*color, *previous),
            op matches Some(l) ==> l.wf() && (QoiOps::Luma(l))@ == luma_chunk(*color, *previous),
    {
        let vr = color.r.wrapping_sub(previous.r);
        let vg = color.g.wrapping_sub(previous.g);
        let vb = color.b.wrapping_sub(previous.b);
        let dg = vg.wrapping_add(32);
        let dr_dg = vr.wrapping_sub(vg).wrapping_add(8);
        let db_dg = vb.wrapping_sub(vg).wrapping_add(8);
        proof {
            lemma_signed8(color.r - previous.r);
            lemma_signed8(color.g - previous.g);
            lemma_signed8(color.b - previous.b);
            lemma_signed8(delta(color.r, previous.r) - delta(color.g, previous.g));
            lemma_signed8(delta(color.b, previous.b) - delta(color.g, previous.g));
        }
        if color.a == previous.a && dg < 64 && dr_dg < 16 && db_dg < 16 {
            Some(Self { tag: Tag::B10, dg, dr_dg, db_dg })
        } else {
            None
        }
    }
}

impl QoiOpRGB {
    pub open spec fn wf(&self) -> bool {
        self.tag == Tag::B11111110
    }

    /// The chunk that carries the color channels of `color`.
    pub fn from_rgba(color: &RGBA) -> (op: Self)
        ensures
            op == (QoiOpRGB {
                tag: Tag::B11111110,
                red: color.r,
                green: color.g,
                blue: color.b,
            }),
    {
        Self { tag: Tag::B11111110, red: color.r, green: color.g, blue: color.b }
    }
}

impl QoiOpRGBA {
    pub open spec fn wf(&self) -> bool {
        self.tag == Tag::B11111111
    }

    /// The chunk that carries `color` whole.
    pub fn from_rgba(color: &RGBA) -> (op: Self)
        ensures
            op == (QoiOpRGBA {
                tag: Tag::B11111111,
                red: color.r,
                green: color.g,
                blue: color.b,
                alpha: color.a,
            }),
    {
        Self { tag: Tag::B11111111, red: color.r, green: color.g, blue: color.b, alpha: color.a }
    }
}

impl View for QoiOps {
    type V = Chunk;

    /// The chunk that the fields stand for, biases removed.
    open spec fn view(&self) -> Chunk {
        match *self {
            QoiOps::Run(op) => Chunk::Run { len: op.run as int },
            QoiOps::Index(op) => Chunk::Index { bucket: op.index as int },
            QoiOps::Diff(op) => Chunk::Diff { dr: op.dr - 2, dg: op.dg - 2, db: op.db - 2 },
            QoiOps::Luma(op) => Chunk::Luma {
                dg: op.dg - 32,
                dr_dg: op.dr_dg - 8,
                db_dg: op.db_dg - 8,
            },
            QoiOps::RGB(op) => Chunk::RGB { r: op.red, g: op.green, b: op.blue },
            QoiOps::RGBA(op) => Chunk::RGBA { r: op.red, g: op.green, b: op.blue, a: op.alpha },
        }
    }
}

impl QoiOps {
    /// The tag fits the variant and every field fits its bit field.
    pub open spec fn wf(&self) -> bool {
        match *self {
            QoiOps::Run(op) => op.wf(),
            QoiOps::Index(op) => op.wf(),
            QoiOps::Diff(op) => op.wf(),
            QoiOps::Luma(op) => op.wf(),
            QoiOps::RGB(op) => op.wf(),
            QoiOps::RGBA(op) => op.wf(),
        }
    }

    /// Whether the chunk is well formed: its tag fits its kind, and every
    /// field fits its bit field.
    pub fn is_wf(&self) -> (ok: bool)
        ensures
            ok == self.wf(),
    {
        match self {
            QoiOps::Run(op) => op.tag == Tag::B11 && 1 <= op.run && op.run <= MAX_RUN,
            QoiOps::Index(op) => op.tag == Tag::B00 && op.index < 64,
            QoiOps::Diff(op) => op.tag == Tag::B01 && op.dr < 4 && op.dg < 4 && op.db < 4,
            QoiOps::Luma(op) => op.tag == Tag::B10 && op.dg < 64 && op.dr_dg < 16 && op.db_dg
                < 16,
            QoiOps::RGB(op) => op.tag == Tag::B11111110,
            QoiOps::RGBA(op) => op.tag == Tag::B11111111,
        }
    }
}

/// The chunks that a sequence of executable chunks stands for.
pub open spec fn views(ops: Seq<QoiOps>) -> Seq<Chunk> {
    ops.map_values(|op: QoiOps| op@)
}

/// Every chunk of the sequence is well formed.
pub open spec fn ops_wf(ops: Seq<QoiOps>) -> bool {
    forall|i: int| 0 <= i < ops.len() ==> (#[trigger] ops[i]).wf()
}

/// Every chunk of the sequence is well formed.
pub open spec fn all_wf(chunks: Seq<Chunk>) -> bool {
    forall|i: int| 0 <= i < chunks.len() ==> (#[trigger] chunks[i]).wf()
}

/// Well-formed executable chunks stand for well-formed chunks.
pub proof fn lemma_views_wf(ops: Seq<QoiOps>)
    requires
        ops_wf(ops),
    ensures
        all_wf(views(ops)),
{
    assert forall|i: int| 0 <= i < views(ops).len() implies (#[trigger] views(ops)[i]).wf() by {
        assert(ops[i].wf());
    }
}

/// The chunks of one image, in stream order.
#[derive(Debug, PartialEq, Eq)]
pub struct Chunks(pub Vec<QoiOps>);

impl View for Chunks {
    type V = Seq<Chunk>;

    open spec fn view(&self) -> Seq<Chunk> {
        views(self.0@)
    }
}

impl Chunks {
    /// Every chunk is well formed.
    pub open spec fn wf(&self) -> bool {
        ops_wf(self.0@)
    }

    /// Whether every chunk is well formed.
    pub fn is_wf(&self) -> (ok: bool)
        ensures
            ok == self.wf(),
    {
        let mut i: usize = 0;
        while i < self.0.len()
            invariant
                i <= self.0@.len(),
                forall|j: int| 0 <= j < i ==> (#[trigger] self.0@[j]).wf(),
            decreases self.0@.len() - i,
        {
            if !self.0[i].is_wf() {
                return false;
            }
            i += 1;
        }
        true
    }

    /// No chunks yet.
    pub fn new() -> (chunks: Self)
        ensures
            chunks.0@ == Seq::<QoiOps>::empty(),
    {
        Self(Vec::new())
    }

    /// The last chunk, for changing it in place; `None` where there is none.
    pub fn last_mut(&mut self) -> (last: Option<&mut QoiOps>)
        ensures
            old(self).0@.len() == 0 ==> last is None && final(self).0@ == old(self).0@,
            old(self).0@.len() > 0 ==> last is Some && *last->0 == old(self).0@.last()
                && final(self).0@ == old(self).0@.update(
                old(self).0@.len() - 1,
                *final(last->0),
            ),
    {
        let n = self.0.len();
        if n == 0 {
            None
        } else {
            Some(&mut self.0[n - 1])
        }
    }

    /// Appends a chunk.
    pub fn push(&mut self, op: QoiOps)
        ensures
            final(self).0@ == old(self).0@.push(op),
    {
        self.0.push(op)
    }
}

} // verus!

//! The chunk encoder: for each pixel, the smallest chunk that can carry it.
//!
//! A pixel equal to the previous one lengthens a run. Any other pixel is looked
//! up in the cache, and where the cache does not hold it, it is stored there and
//! written as the first of Diff, Luma, RGB and RGBA that fits.

use vstd::prelude::*;
use crate::chunk::{
    Chunk, Chunks, QoiOpDiff, QoiOpIndex, QoiOpLuma, QoiOpRGB, QoiOpRGBA, QoiOpRun, QoiOps,
    Tag, MAX_RUN, diff_applies, diff_chunk, luma_applies, luma_chunk, ops_wf, views,
};
use crate::error::QoiError;
use crate::header::{Channel, Colorspace, QoiHeader};
use crate::packer::{pack, stream_bytes};
use crate::pixel::{RGBA, spec_hash};
use crate::state::{CodecState, State};

verus! {

/// The chunk for a pixel that differs from the previous one: an Index chunk on
/// a cache hit, else the first of Diff, Luma, RGB and RGBA that can carry it.
pub open spec fn pixel_chunk(s: State, color: RGBA) -> Chunk {
    if s.holds(color) {
        Chunk::Index { bucket: spec_hash(color) }
    } else if diff_applies(color, s.prev) {
        diff_chunk(color, s.prev)
    } else if luma_applies(color, s.prev) {
        luma_chunk(color, s.prev)
    } else if color.a == s.prev.a {
        Chunk::RGB { r: color.r, g: color.g, b: color.b }
    } else {
        Chunk::RGBA { r: color.r, g: color.g, b: color.b, a: color.a }
    }
}

/// The state after a pixel that differs from the previous one: a pixel that
/// the cache holds leaves the cache alone, any other is stored.
pub open spec fn after_pixel(s: State, color: RGBA) -> State {
    if s.holds(color) {
        s.recall(color)
    } else {
        s.store(color)
    }
}

/// The chunk that ends a pending run of `run` pixels, if there is one.
pub open spec fn flush(run: nat) -> Seq<Chunk> {
    if run > 0 {
        seq![Chunk::Run { len: run as int }]
    } else {
        Seq::empty()
    }
}

/// Where the encoder stands after some pixels: its state, the length of the
/// run it is in, and the chunks it has written.
pub struct Progress {
    pub state: State,
    pub run: nat,
    pub chunks: Seq<Chunk>,
}

impl Progress {
    /// Before the first pixel.
    pub open spec fn start() -> Progress {
        Progress { state: State::start(), run: 0, chunks: Seq::empty() }
    }

    /// One pixel further. `last` says that the pixel is the final one of the
    /// image.
    pub open spec fn step(self, color: RGBA, last: bool) -> Progress {
        if color == self.state.prev {
            if self.run + 1 == 62 || last {
                Progress {
                    state: self.state,
                    run: 0,
                    chunks: self.chunks.push(Chunk::Run { len: self.run as int + 1 }),
                }
            } else {
                Progress { state: self.state, run: self.run + 1, chunks: self.chunks }
            }
        } else {
            Progress {
                state: after_pixel(self.state, color),
                run: 0,
                chunks: (self.chunks + flush(self.run)).push(pixel_chunk(self.state, color)),
            }
        }
    }
}

/// Where the encoder stands after the first `n` pixels of `pixels`.
pub open spec fn progress(pixels: Seq<RGBA>, n: nat) -> Progress
    decreases n,
{
    if n == 0 {
        Progress::start()
    } else {
        progress(pixels, (n - 1) as nat).step(pixels[n - 1], n == pixels.len())
    }
}

/// The chunks that encode `pixels`.
pub open spec fn spec_encode_chunks(pixels: Seq<RGBA>) -> Seq<Chunk> {
    progress(pixels, pixels.len()).chunks
}

/// Encodes one pixel that differs from the previous one, and moves the state
/// past it.
pub fn encode_pixel(state: &mut CodecState, color: &RGBA) -> (op: QoiOps)
    ensures
        op@ == pixel_chunk(old(state)@, *color),
        op.wf(),
        final(state)@ == after_pixel(old(state)@, *color),
        old(state).wf() ==> final(state).wf(),
{
    if state.encountered.contains(color) {
        state.recall(color);
        return QoiOps::Index(QoiOpIndex::from_rgba(color));
    }
    let previous = state.previous;
    state.store(color);
    if let Some(diff) = QoiOpDiff::from_rgba(color, &previous) {
        QoiOps::Diff(diff)
    } else if let Some(luma) = QoiOpLuma::from_rgba(color, &previous) {
        QoiOps::Luma(luma)
    } else if color.a == previous.a {
        QoiOps::RGB(QoiOpRGB::from_rgba(color))
    } else {
        QoiOps::RGBA(QoiOpRGBA::from_rgba(color))
    }
}

/// The chunks after one more repetition of the previous pixel: a run at the
/// end that is not full grows by one, and otherwise a run of one pixel is
/// appended.
pub open spec fn with_repeat(ops: Seq<QoiOps>) -> Seq<QoiOps> {
    if ops.len() > 0 && ops.last() is Run && ops.last()->Run_0.run < 62 {
        let run = ops.last()->Run_0;
        ops.update(ops.len() - 1, QoiOps::Run(QoiOpRun { tag: run.tag, run: (run.run + 1) as u8 }))
    } else {
        ops.push(QoiOps::Run(QoiOpRun { tag: Tag::B11, run: 1 }))
    }
}

/// Counts one more repetition of the previous pixel.
pub fn extend_run(chunks: &mut Chunks)
    ensures
        final(chunks).0@ == with_repeat(old(chunks).0@),
{
    match chunks.last_mut() {
        Some(QoiOps::Run(chunk)) => {
            if chunk.run < MAX_RUN {
                chunk.add_run();
                return ;
            }
        },
        _ => {},
    }
    chunks.push(QoiOps::Run(QoiOpRun::new()));
}

/// No run is left open at the end of `chunks`: they do not end in a run that
/// could still grow.
spec fn closed_off(chunks: Seq<Chunk>) -> bool {
    chunks.len() > 0 && chunks.last() is Run ==> chunks.last()->len == 62
}

/// What `with_repeat` does to the chunks that `ops` stand for, where those are
/// the chunks `written` and an open run of `run` pixels: the run grows by one.
proof fn lemma_with_repeat(ops: Seq<QoiOps>, written: Seq<Chunk>, run: nat)
    requires
        ops_wf(ops),
        views(ops) == written + flush(run),
        run < 62,
        run == 0 ==> closed_off(written),
    ensures
        ops_wf(with_repeat(ops)),
        views(with_repeat(ops)) == written.push(Chunk::Run { len: run as int + 1 }),
{
    let longer = with_repeat(ops);
    assert(ops.len() == written.len() + flush(run).len()) by {
        assert(views(ops).len() == ops.len());
        assert((written + flush(run)).len() == written.len() + flush(run).len());
    }
    if ops.len() > 0 {
        assert(views(ops).last() == ops.last()@);
        assert(ops.last().wf());
    }
    assert forall|j: int| 0 <= j < written.len() implies views(longer)[j] == written[j] by {
        assert(views(ops)[j] == ops[j]@);
        assert(longer[j] == ops[j]);
    }
    assert(views(longer) =~= written.push(Chunk::Run { len: run as int + 1 }));
}

/// Encodes an image, given as its pixels in order, into chunks.
pub fn encode_chunks(pixels: &[RGBA]) -> (chunks: Chunks)
    ensures
        chunks@ == spec_encode_chunks(pixels@),
        chunks.wf(),
{
    encode_pass(pixels).0
}

/// Encodes an image, given as its pixels in order, into chunks, and hands out
/// the state that the pass ended in beside them.
pub fn encode_pass(pixels: &[RGBA]) -> (done: (Chunks, CodecState))
    ensures
        done.0@ == spec_encode_chunks(pixels@),
        done.0.wf(),
        done.1@ == progress(pixels@, pixels@.len()).state,
        done.1.wf(),
{
    let mut chunks = Chunks::new();
    let mut state = CodecState::new();
    let mut i: usize = 0;
    while i < pixels.len()
        invariant
            i <= pixels.len(),
            state@ == progress(pixels@, i as nat).state,
            chunks@ == progress(pixels@, i as nat).chunks + flush(progress(pixels@, i as nat).run),
            chunks.wf(),
            state.wf(),
            progress(pixels@, i as nat).run < 62,
            i == pixels.len() ==> progress(pixels@, i as nat).run == 0,
            i < pixels.len() && progress(pixels@, i as nat).run == 0 ==> closed_off(
                progress(pixels@, i as nat).chunks,
            ),
        decreases pixels.len() - i,
    {
        let color = pixels[i];
        let ghost before = progress(pixels@, i as nat);
        let ghost after = progress(pixels@, (i + 1) as nat);
        assert(after == before.step(color, i + 1 == pixels.len()));
        if color == state.previous {
            proof {
                lemma_with_repeat(chunks.0@, before.chunks, before.run);
            }
            extend_run(&mut chunks);
        } else {
            let op = encode_pixel(&mut state, &color);
            chunks.push(op);
        }
        assert(chunks@ =~= after.chunks + flush(after.run));
        i += 1;
    }
    (chunks, state)
}

/// The stream for an image with the given header.
///
/// A header with a dimension of zero is a `MalformedHeader`; pixels that do not
/// number width times height are a `PixelCountMismatch`.
pub open spec fn spec_encode_image(header: QoiHeader, pixels: Seq<RGBA>) -> Result<
    Seq<u8>,
    QoiError,
> {
    if !header.wf() {
        Err(QoiError::MalformedHeader)
    } else if pixels.len() != header.pixel_count() {
        Err(QoiError::PixelCountMismatch)
    } else {
        Ok(stream_bytes(header, spec_encode_chunks(pixels)))
    }
}

/// The header that `encode` writes: four channels, sRGB.
pub open spec fn plain_header(width: u32, height: u32) -> QoiHeader {
    QoiHeader { width, height, channels: Channel::RGBA, colorspace: Colorspace::SRGB }
}

/// The stream for an image of the given size.
pub open spec fn spec_encode(pixels: Seq<RGBA>, width: u32, height: u32) -> Result<
    Seq<u8>,
    QoiError,
> {
    spec_encode_image(plain_header(width, height), pixels)
}

/// Encodes an image, given as its header and its pixels in order, row by row,
/// into a stream.
///
/// Fails with `MalformedHeader` where width or height is zero, and with
/// `PixelCountMismatch` where the pixels do not number width times height.
pub fn encode_image(header: &QoiHeader, pixels: &[RGBA]) -> (result: Result<Vec<u8>, QoiError>)
    ensures
        match spec_encode_image(*header, pixels@) {
            Ok(bytes) => result matches Ok(stream) && stream@ == bytes,
            Err(e) => result matches Err(f) && f == e,
        },
{
    if header.width == 0 || header.height == 0 {
        return Err(QoiError::MalformedHeader);
    }
    if pixels.len() as u64 != header.pixels() {
        return Err(QoiError::PixelCountMismatch);
    }
    let chunks = encode_chunks(pixels);
    Ok(pack(header, &chunks))
}

/// Encodes an image of `width` times `height` pixels, given in order, row by
/// row, into a stream. The header says four channels and sRGB.
///
/// Fails with `MalformedHeader` where width or height is zero, and with
/// `PixelCountMismatch` where the pixels do not number width times height.
pub fn encode(pixels: &[RGBA], width: u32, height: u32) -> (result: Result<Vec<u8>, QoiError>)
    ensures
        match spec_encode(pixels@, width, height) {
            Ok(bytes) => result matches Ok(stream) && stream@ == bytes,
            Err(e) => result matches Err(f) && f == e,
        },
{
    let header = QoiHeader { width, height, channels: Channel::RGBA, colorspace: Colorspace::SRGB };
    encode_image(&header, pixels)
}

} // verus!

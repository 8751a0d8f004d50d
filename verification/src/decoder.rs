//! The chunk decoder: from a stream back to the pixels.
//!
//! The decoder keeps the state that the encoder kept and changes it by the
//! same rules, so that each chunk means to it what it meant when it was
//! written.

use vstd::prelude::*;
use crate::chunk::{Chunk, QoiOps, all_wf, lemma_shifted, shifted};
use crate::error::QoiError;
use crate::header::{HEADER_LEN, QoiHeader, parse_header, read_header};
use crate::packer::{
    END_MARKER_LEN, chunk_bytes, chunks_bytes, ends_with_marker, has_end_marker,
    lemma_chunks_bytes_concat, lemma_parse_chunk_bytes, parse_chunk, read_chunk,
};
use crate::pixel::RGBA;
use crate::state::{CodecState, State};

verus! {

/// The pixel that a chunk stands for in state `s`. A run stands for the
/// previous pixel, as many times as it is long.
pub open spec fn chunk_pixel(s: State, c: Chunk) -> RGBA {
    match c {
        Chunk::Run { .. } => s.prev,
        Chunk::Index { bucket } => s.cache[bucket],
        Chunk::Diff { dr, dg, db } => RGBA {
            r: shifted(s.prev.r, dr),
            g: shifted(s.prev.g, dg),
            b: shifted(s.prev.b, db),
            a: s.prev.a,
        },
        Chunk::Luma { dg, dr_dg, db_dg } => RGBA {
            r: shifted(s.prev.r, dg + dr_dg),
            g: shifted(s.prev.g, dg),
            b: shifted(s.prev.b, dg + db_dg),
            a: s.prev.a,
        },
        Chunk::RGB { r, g, b } => RGBA { r, g, b, a: s.prev.a },
        Chunk::RGBA { r, g, b, a } => RGBA { r, g, b, a },
    }
}

/// The pixels that a chunk stands for in state `s`.
pub open spec fn chunk_pixels(s: State, c: Chunk) -> Seq<RGBA> {
    Seq::new(c.pixel_count() as nat, |i: int| chunk_pixel(s, c))
}

/// The state after a chunk. A run changes nothing; a pixel taken from the
/// cache leaves the cache alone; any other pixel is stored.
pub open spec fn after_chunk(s: State, c: Chunk) -> State {
    match c {
        Chunk::Run { .. } => s,
        Chunk::Index { .. } => s.recall(chunk_pixel(s, c)),
        _ => s.store(chunk_pixel(s, c)),
    }
}

/// `pixels` in front of what a pass gave, where it gave anything.
pub open spec fn after_pixels(pixels: Seq<RGBA>, rest: Result<Seq<RGBA>, QoiError>) -> Result<
    Seq<RGBA>,
    QoiError,
> {
    match rest {
        Ok(more) => Ok(pixels + more),
        Err(e) => Err(e),
    }
}

/// Decodes `want` pixels from the chunks in `body`, starting in state `s`.
///
/// The chunks must give exactly `want` pixels and leave no byte over. Chunks
/// that end early, or in the middle of a chunk, are a `TruncatedStream`;
/// a run that goes past `want`, or bytes left over after the last pixel, are a
/// `PixelCountMismatch`.
#[verifier::opaque]
pub open spec fn decode_chunks(body: Seq<u8>, s: State, want: nat) -> Result<Seq<RGBA>, QoiError>
    decreases body.len(),
{
    if want == 0 {
        if body.len() == 0 {
            Ok(Seq::empty())
        } else {
            Err(QoiError::PixelCountMismatch)
        }
    } else {
        match parse_chunk(body) {
            None => Err(QoiError::TruncatedStream),
            Some((chunk, len)) => if chunk.pixel_count() > want {
                Err(QoiError::PixelCountMismatch)
            } else {
                after_pixels(
                    chunk_pixels(s, chunk),
                    decode_chunks(
                        body.skip(len as int),
                        after_chunk(s, chunk),
                        (want - chunk.pixel_count()) as nat,
                    ),
                )
            },
        }
    }
}

/// The image that a stream holds: its header and its pixels.
///
/// The header is read first: a stream without a well-formed one is a
/// `MalformedHeader`. Then the end is looked at: a stream that does not end in
/// the end marker is a `MissingEndMarker`, whatever its chunks hold. What lies
/// between the two must decode to width times height pixels.
pub open spec fn spec_decode_image(bytes: Seq<u8>) -> Result<(QoiHeader, Seq<RGBA>), QoiError> {
    match parse_header(bytes) {
        None => Err(QoiError::MalformedHeader),
        Some(header) => if !has_end_marker(bytes) {
            Err(QoiError::MissingEndMarker)
        } else {
            match decode_chunks(
                bytes.subrange(14, bytes.len() - 8),
                State::start(),
                header.pixel_count(),
            ) {
                Ok(pixels) => Ok((header, pixels)),
                Err(e) => Err(e),
            }
        },
    }
}

/// The pixels of the image that a stream holds.
pub open spec fn spec_decode(bytes: Seq<u8>) -> Result<Seq<RGBA>, QoiError> {
    match spec_decode_image(bytes) {
        Ok((_, pixels)) => Ok(pixels),
        Err(e) => Err(e),
    }
}

impl QoiOps {
    /// How many pixels the chunk stands for: the length of a run, and 1 for
    /// every other chunk.
    pub fn pixel_count(&self) -> (n: u8)
        ensures
            n == self@.pixel_count(),
    {
        match self {
            QoiOps::Run(run) => run.run,
            _ => 1,
        }
    }
}

/// Decodes one chunk: appends its pixels to `pixels` and moves the state past
/// it.
pub fn decode_chunk(state: &mut CodecState, op: &QoiOps, pixels: &mut Vec<RGBA>)
    requires
        op.wf(),
    ensures
        final(pixels)@ == old(pixels)@ + chunk_pixels(old(state)@, op@),
        final(state)@ == after_chunk(old(state)@, op@),
        old(state).wf() ==> final(state).wf(),
{
    let previous = state.previous;
    let color = match op {
        QoiOps::Run(run) => {
            let mut k: u8 = 0;
            while k < run.run
                invariant
                    k <= run.run,
                    *state == *old(state),
                    previous == state.previous,
                    pixels@ == old(pixels)@ + Seq::new(k as nat, |i: int| previous),
                decreases run.run - k,
            {
                pixels.push(previous);
                k += 1;
                assert(pixels@ =~= old(pixels)@ + Seq::new(k as nat, |i: int| previous));
            }
            assert(pixels@ =~= old(pixels)@ + chunk_pixels(old(state)@, op@));
            return ;
        },
        QoiOps::Index(index) => {
            let color = state.encountered.get(index.index);
            state.recall(&color);
            pixels.push(color);
            assert(pixels@ =~= old(pixels)@ + chunk_pixels(old(state)@, op@));
            return ;
        },
        QoiOps::Diff(diff) => {
            proof {
                lemma_shifted(previous.r, diff.dr - 2);
                lemma_shifted(previous.g, diff.dg - 2);
                lemma_shifted(previous.b, diff.db - 2);
            }
            RGBA {
                r: previous.r.wrapping_add(diff.dr).wrapping_sub(2),
                g: previous.g.wrapping_add(diff.dg).wrapping_sub(2),
                b: previous.b.wrapping_add(diff.db).wrapping_sub(2),
                a: previous.a,
            }
        },
        QoiOps::Luma(luma) => {
            proof {
                lemma_shifted(previous.r, (luma.dg - 32) + (luma.dr_dg - 8));
                lemma_shifted(previous.g, luma.dg - 32);
                lemma_shifted(previous.b, (luma.dg - 32) + (luma.db_dg - 8));
            }
            let green = luma.dg.wrapping_sub(32);
            RGBA {
                r: previous.r.wrapping_add(green).wrapping_add(luma.dr_dg).wrapping_sub(8),
                g: previous.g.wrapping_add(green),
                b: previous.b.wrapping_add(green).wrapping_add(luma.db_dg).wrapping_sub(8),
                a: previous.a,
            }
        },
        QoiOps::RGB(rgb) => RGBA { r: rgb.red, g: rgb.green, b: rgb.blue, a: previous.a },
        QoiOps::RGBA(rgba) => RGBA { r: rgba.red, g: rgba.green, b: rgba.blue, a: rgba.alpha },
    };
    state.store(&color);
    pixels.push(color);
    assert(pixels@ =~= old(pixels)@ + chunk_pixels(old(state)@, op@));
}

/// One step of `decode_chunks`, with the pixels that came before it in front.
proof fn lemma_decode_step(before: Seq<RGBA>, body: Seq<u8>, s: State, want: nat)
    requires
        want > 0,
    ensures
        after_pixels(before, decode_chunks(body, s, want)) == match parse_chunk(body) {
            None => Err::<Seq<RGBA>, QoiError>(QoiError::TruncatedStream),
            Some((chunk, len)) => if chunk.pixel_count() > want {
                Err(QoiError::PixelCountMismatch)
            } else {
                after_pixels(
                    before + chunk_pixels(s, chunk),
                    decode_chunks(
                        body.skip(len as int),
                        after_chunk(s, chunk),
                        (want - chunk.pixel_count()) as nat,
                    ),
                )
            },
        },
{
    reveal(decode_chunks);
    if let Some((chunk, len)) = parse_chunk(body) {
        if chunk.pixel_count() <= want {
            let rest = decode_chunks(
                body.skip(len as int),
                after_chunk(s, chunk),
                (want - chunk.pixel_count()) as nat,
            );
            if let Ok(more) = rest {
                assert(before + (chunk_pixels(s, chunk) + more) =~= before + chunk_pixels(s, chunk)
                    + more);
            }
        }
    }
}

/// The state after a sequence of chunks, starting in state `s`.
pub open spec fn chunks_state(chunks: Seq<Chunk>, s: State) -> State
    decreases chunks.len(),
{
    if chunks.len() == 0 {
        s
    } else {
        after_chunk(chunks_state(chunks.drop_last(), s), chunks.last())
    }
}

/// The pixels that a sequence of chunks stands for, starting in state `s`.
pub open spec fn chunks_pixels(chunks: Seq<Chunk>, s: State) -> Seq<RGBA>
    decreases chunks.len(),
{
    if chunks.len() == 0 {
        Seq::empty()
    } else {
        chunks_pixels(chunks.drop_last(), s) + chunk_pixels(
            chunks_state(chunks.drop_last(), s),
            chunks.last(),
        )
    }
}

/// `lemma_decode_serialized`, from the `k`-th chunk on.
proof fn lemma_decode_suffix(chunks: Seq<Chunk>, k: int, s: State)
    requires
        all_wf(chunks),
        0 <= k <= chunks.len(),
    ensures
        chunks_pixels(chunks.take(k), s).len() <= chunks_pixels(chunks, s).len(),
        after_pixels(
            chunks_pixels(chunks.take(k), s),
            decode_chunks(
                chunks_bytes(chunks.skip(k)),
                chunks_state(chunks.take(k), s),
                (chunks_pixels(chunks, s).len() - chunks_pixels(chunks.take(k), s).len()) as nat,
            ),
        ) == Ok::<Seq<RGBA>, QoiError>(chunks_pixels(chunks, s)),
    decreases chunks.len() - k,
{
    let done = chunks_pixels(chunks.take(k), s);
    let all = chunks_pixels(chunks, s);
    if k == chunks.len() {
        reveal(decode_chunks);
        assert(chunks.take(k) =~= chunks);
        assert(chunks.skip(k) =~= Seq::<Chunk>::empty());
        assert(all + Seq::<RGBA>::empty() =~= all);
    } else {
        lemma_decode_suffix(chunks, k + 1, s);
        let c = chunks[k];
        let state = chunks_state(chunks.take(k), s);
        let later = chunks_bytes(chunks.skip(k + 1));
        assert(chunks.take(k + 1).drop_last() =~= chunks.take(k));
        assert(chunks.take(k + 1).last() == c);
        assert(chunks.skip(k) =~= seq![c] + chunks.skip(k + 1));
        lemma_chunks_bytes_concat(seq![c], chunks.skip(k + 1));
        assert(chunks_bytes(seq![c]) =~= chunk_bytes(c)) by {
            assert(seq![c].drop_last() =~= Seq::<Chunk>::empty());
            assert(chunks_bytes(seq![c].drop_last()) =~= Seq::<u8>::empty());
            assert(seq![c].last() == c);
        }
        lemma_parse_chunk_bytes(c, later);
        assert((chunk_bytes(c) + later).skip(chunk_bytes(c).len() as int) =~= later);
        lemma_decode_step(done, chunk_bytes(c) + later, state, (all.len() - done.len()) as nat);
    }
}

/// Decoding undoes packing: the bytes of well-formed chunks decode to the
/// pixels that the chunks stand for, where exactly that many are asked for.
pub proof fn lemma_decode_serialized(chunks: Seq<Chunk>, s: State)
    requires
        all_wf(chunks),
    ensures
        decode_chunks(chunks_bytes(chunks), s, chunks_pixels(chunks, s).len()) == Ok::<
            Seq<RGBA>,
            QoiError,
        >(chunks_pixels(chunks, s)),
{
    lemma_decode_suffix(chunks, 0, s);
    assert(chunks.take(0) =~= Seq::<Chunk>::empty());
    assert(chunks.skip(0) =~= chunks);
    let whole = decode_chunks(chunks_bytes(chunks), s, chunks_pixels(chunks, s).len());
    if let Ok(pixels) = whole {
        assert(Seq::<RGBA>::empty() + pixels =~= pixels);
    }
}

/// Decodes a stream into the pixels of its image, in order.
///
/// Fails as `decode_image` does.
pub fn decode(bytes: &[u8]) -> (result: Result<Vec<RGBA>, QoiError>)
    ensures
        match spec_decode(bytes@) {
            Ok(pixels) => result matches Ok(decoded) && decoded@ == pixels,
            Err(e) => result matches Err(f) && f == e,
        },
{
    match decode_image(bytes) {
        Ok((_, pixels)) => Ok(pixels),
        Err(e) => Err(e),
    }
}

/// Decodes a stream into the header and the pixels of its image, in order.
///
/// Fails with
/// - `MalformedHeader` where the stream does not open with a well-formed
///   header;
/// - `MissingEndMarker` where the header is well formed and the stream does not
///   end in the end marker;
/// - `TruncatedStream` where the chunks end, or one of them is cut off, before
///   width times height pixels are there;
/// - `PixelCountMismatch` where a run goes past the last pixel, or bytes are
///   left between the last pixel and the end marker.
pub fn decode_image(bytes: &[u8]) -> (result: Result<(QoiHeader, Vec<RGBA>), QoiError>)
    ensures
        match spec_decode_image(bytes@) {
            Ok((header, pixels)) => result matches Ok((h, decoded)) && h == header && decoded@
                == pixels,
            Err(e) => result matches Err(f) && f == e,
        },
{
    let header = match read_header(bytes) {
        Ok(header) => header,
        Err(e) => {
            return Err(e);
        },
    };
    if !ends_with_marker(bytes) {
        return Err(QoiError::MissingEndMarker);
    }
    let want: u64 = header.pixels();
    let end: usize = bytes.len() - END_MARKER_LEN;
    let mut pos: usize = HEADER_LEN;
    let mut state = CodecState::new();
    let mut pixels: Vec<RGBA> = Vec::new();
    let ghost body = bytes@.subrange(14, end as int);
    assert(decode_chunks(body, State::start(), want as nat) == after_pixels(
        pixels@,
        decode_chunks(body, State::start(), want as nat),
    )) by {
        let whole = decode_chunks(body, State::start(), want as nat);
        if let Ok(all) = whole {
            assert(pixels@ + all =~= all);
        }
    }
    while (pixels.len() as u64) < want
        invariant
            HEADER_LEN <= pos <= end,
            end == bytes@.len() - END_MARKER_LEN,
            pixels@.len() <= want,
            parse_header(bytes@) == Some(header),
            has_end_marker(bytes@),
            want == header.pixel_count(),
            body == bytes@.subrange(14, bytes@.len() - 8),
            decode_chunks(body, State::start(), want as nat) == after_pixels(
                pixels@,
                decode_chunks(
                    bytes@.subrange(pos as int, end as int),
                    state@,
                    (want - pixels@.len()) as nat,
                ),
            ),
        decreases end - pos,
    {
        let ghost rest = bytes@.subrange(pos as int, end as int);
        proof {
            lemma_decode_step(pixels@, rest, state@, (want - pixels@.len()) as nat);
        }
        match read_chunk(bytes, pos, end) {
            None => {
                return Err(QoiError::TruncatedStream);
            },
            Some((op, next)) => {
                if op.pixel_count() as u64 > want - pixels.len() as u64 {
                    return Err(QoiError::PixelCountMismatch);
                }
                decode_chunk(&mut state, &op, &mut pixels);
                assert(rest.skip(next - pos) =~= bytes@.subrange(next as int, end as int));
                pos = next;
            },
        }
    }
    proof {
        reveal(decode_chunks);
    }
    if pos != end {
        return Err(QoiError::PixelCountMismatch);
    }
    proof {
        assert(bytes@.subrange(pos as int, end as int).len() == 0);
        assert(pixels@ + Seq::<RGBA>::empty() =~= pixels@);
    }
    Ok((header, pixels))
}

} // verus!

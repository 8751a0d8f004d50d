//! What holds of the codec as a whole.
//!
//! - Round trip: what was encoded decodes to what it was
//!   ([`theorem_round_trip`], [`theorem_round_trip_image`],
//!   [`theorem_chunks_round_trip`]).
//! - Run bounding: a run of `n` pixels is written as the fewest runs of at most
//!   62 that sum to `n` ([`theorem_run_bounding`], [`theorem_run_chunks`]).
//! - Cache fidelity: a pixel that comes back is written as an Index chunk,
//!   unless another fell into its bucket meanwhile
//!   ([`theorem_cache_fidelity`]).
//! - Delta boundaries: which differences are written as Diff, which as Luma,
//!   and which as RGB ([`theorem_delta_boundaries`]).
//! - Alpha sensitivity: a change of alpha is written as RGBA
//!   ([`theorem_alpha_sensitivity`]).
//! - A stream without its end marker does not decode
//!   ([`theorem_missing_end_marker`]).

use vstd::prelude::*;
use crate::chunk::{
    Chunk, QoiOps, all_wf, delta, lemma_shifted, lemma_shifted_delta, lemma_signed8,
    lemma_views_wf, ops_wf, shifted, signed8, views,
};
use crate::decoder::{
    after_chunk, chunk_pixel, chunk_pixels, chunks_pixels, chunks_state, lemma_decode_serialized,
    spec_decode, spec_decode_image,
};
use crate::encoder::{
    after_pixel, flush, pixel_chunk, plain_header, progress, spec_encode, spec_encode_chunks,
    spec_encode_image,
};
use crate::error::QoiError;
use crate::header::{QoiHeader, be32, from_be32, header_bytes, magic, parse_header};
use crate::packer::{chunks_bytes, end_marker, has_end_marker, stream_bytes};
use crate::pixel::{RGBA, default_pixel, spec_hash};
use crate::state::State;

verus! {

/// `n` times the same pixel.
pub open spec fn repeated(color: RGBA, n: nat) -> Seq<RGBA> {
    Seq::new(n, |i: int| color)
}

/// The pixel before the `n`-th of an image: the default pixel before the
/// first.
pub open spec fn pixel_before(pixels: Seq<RGBA>, n: int) -> RGBA {
    if n == 0 {
        default_pixel()
    } else {
        pixels[n - 1]
    }
}

/// The chunk that the encoder picks for a pixel is well formed and stands for
/// that pixel, and after it the decoder is in the state that the encoder is in.
pub proof fn lemma_pixel_chunk_decodes(s: State, color: RGBA)
    ensures
        pixel_chunk(s, color).wf(),
        pixel_chunk(s, color).pixel_count() == 1,
        chunk_pixel(s, pixel_chunk(s, color)) == color,
        after_chunk(s, pixel_chunk(s, color)) == after_pixel(s, color),
{
    let dr = delta(color.r, s.prev.r);
    let dg = delta(color.g, s.prev.g);
    let db = delta(color.b, s.prev.b);
    lemma_shifted_delta(color.r, s.prev.r, 0);
    lemma_shifted_delta(color.g, s.prev.g, 0);
    lemma_shifted_delta(color.b, s.prev.b, 0);
    lemma_signed8(color.r - s.prev.r);
    lemma_signed8(color.g - s.prev.g);
    lemma_signed8(color.b - s.prev.b);
    lemma_signed8(dr - dg);
    lemma_signed8(db - dg);
    lemma_shifted(s.prev.r, dg + signed8(dr - dg));
    lemma_shifted(s.prev.b, dg + signed8(db - dg));
}

/// After each pixel the previous pixel is that pixel, and the cache holds it.
pub proof fn lemma_previous_is_held(pixels: Seq<RGBA>, n: nat)
    requires
        n <= pixels.len(),
    ensures
        progress(pixels, n).state.cache.len() == 64,
        progress(pixels, n).state.holds(progress(pixels, n).state.prev),
        progress(pixels, n).state.prev == pixel_before(pixels, n as int),
    decreases n,
{
    if n > 0 {
        lemma_previous_is_held(pixels, (n - 1) as nat);
    }
}

/// After a pixel that differs from the one before it, no run is open.
pub proof fn lemma_no_run_after_change(pixels: Seq<RGBA>, n: nat)
    requires
        0 < n <= pixels.len(),
        pixels[n - 1] != pixel_before(pixels, n - 1),
    ensures
        progress(pixels, n).run == 0,
{
    lemma_previous_is_held(pixels, (n - 1) as nat);
}

/// The chunks only grow: what is written after `n` pixels is still there, at
/// the front, after `m`.
pub proof fn lemma_chunks_grow(pixels: Seq<RGBA>, n: nat, m: nat)
    requires
        n <= m <= pixels.len(),
    ensures
        progress(pixels, n).chunks.is_prefix_of(progress(pixels, m).chunks),
    decreases m,
{
    let early = progress(pixels, n).chunks;
    if n < m {
        lemma_chunks_grow(pixels, n, (m - 1) as nat);
        let q = progress(pixels, (m - 1) as nat);
        let p = progress(pixels, m);
        assert(q.chunks =~= p.chunks.subrange(0, q.chunks.len() as int));
        assert(early =~= p.chunks.subrange(0, early.len() as int));
    } else {
        assert(early =~= early.subrange(0, early.len() as int));
    }
}

/// The chunks written for the first `n` pixels stand for those pixels, less
/// the run that is still open, and leave the decoder in the encoder's state.
pub proof fn lemma_progress_decodes(pixels: Seq<RGBA>, n: nat)
    requires
        n <= pixels.len(),
    ensures
        all_wf(progress(pixels, n).chunks),
        progress(pixels, n).run < 62,
        n == pixels.len() ==> progress(pixels, n).run == 0,
        chunks_state(progress(pixels, n).chunks, State::start()) == progress(pixels, n).state,
        chunks_pixels(progress(pixels, n).chunks, State::start()) + repeated(
            progress(pixels, n).state.prev,
            progress(pixels, n).run,
        ) == pixels.take(n as int),
    decreases n,
{
    let start = State::start();
    let p = progress(pixels, n);
    if n == 0 {
        assert(chunks_pixels(p.chunks, start) + repeated(p.state.prev, p.run) =~= pixels.take(0));
    } else {
        let q = progress(pixels, (n - 1) as nat);
        let color = pixels[n - 1];
        lemma_progress_decodes(pixels, (n - 1) as nat);
        let seen = chunks_pixels(q.chunks, start);
        assert(pixels.take(n as int) =~= pixels.take(n - 1).push(color));
        if color == q.state.prev {
            if q.run + 1 == 62 || n == pixels.len() {
                assert(p.chunks.drop_last() =~= q.chunks);
                assert(chunks_pixels(p.chunks, start) =~= seen + repeated(color, q.run + 1));
            }
            assert(chunks_pixels(p.chunks, start) + repeated(p.state.prev, p.run) =~= (seen
                + repeated(color, q.run)).push(color));
        } else {
            let ended = q.chunks + flush(q.run);
            let chunk = pixel_chunk(q.state, color);
            lemma_pixel_chunk_decodes(q.state, color);
            if q.run > 0 {
                assert(ended.drop_last() =~= q.chunks);
                assert(chunks_pixels(ended, start) =~= seen + repeated(q.state.prev, q.run));
            } else {
                assert(ended =~= q.chunks);
                assert(seen + repeated(q.state.prev, q.run) =~= seen);
            }
            assert(p.chunks.drop_last() =~= ended);
            assert(chunks_pixels(p.chunks, start) + repeated(p.state.prev, p.run)
                =~= pixels.take(n - 1).push(color));
        }
    }
}

/// Round trip, for chunks: the chunks of an image are well formed and stand
/// for the image.
pub proof fn theorem_chunks_round_trip(pixels: Seq<RGBA>)
    ensures
        all_wf(spec_encode_chunks(pixels)),
        chunks_pixels(spec_encode_chunks(pixels), State::start()) == pixels,
{
    lemma_progress_decodes(pixels, pixels.len());
    let p = progress(pixels, pixels.len());
    assert(chunks_pixels(p.chunks, State::start()) + repeated(p.state.prev, 0) =~= chunks_pixels(
        p.chunks,
        State::start(),
    ));
    assert(pixels.take(pixels.len() as int) =~= pixels);
}

/// Four bytes, the most significant first, spell the number they were made of.
pub proof fn lemma_be32_round_trip(v: u32)
    ensures
        from_be32(be32(v)[0], be32(v)[1], be32(v)[2], be32(v)[3]) == v,
{
}

/// A stream opens with its header and ends in the end marker, and its chunks
/// lie between the two.
pub proof fn lemma_stream_layout(header: QoiHeader, chunks: Seq<Chunk>)
    requires
        header.wf(),
    ensures
        parse_header(stream_bytes(header, chunks)) == Some(header),
        has_end_marker(stream_bytes(header, chunks)),
        stream_bytes(header, chunks).subrange(14, stream_bytes(header, chunks).len() - 8)
            == chunks_bytes(chunks),
{
    let bytes = stream_bytes(header, chunks);
    let head = header_bytes(header);
    assert forall|i: int| 0 <= i < 14 implies bytes[i] == head[i] by {}
    assert(bytes.subrange(0, 4) =~= magic());
    lemma_be32_round_trip(header.width);
    lemma_be32_round_trip(header.height);
    assert(bytes.subrange(bytes.len() - 8, bytes.len() as int) =~= end_marker());
    assert(bytes.subrange(14, bytes.len() - 8) =~= chunks_bytes(chunks));
}

/// Unpacking undoes packing: a stream packed from a well-formed header and
/// well-formed chunks that stand for width times height pixels decodes to that
/// header and those pixels.
pub proof fn theorem_pack_round_trip(header: QoiHeader, chunks: Seq<Chunk>)
    requires
        header.wf(),
        all_wf(chunks),
        chunks_pixels(chunks, State::start()).len() == header.pixel_count(),
    ensures
        spec_decode_image(stream_bytes(header, chunks)) == Ok::<(QoiHeader, Seq<RGBA>), QoiError>(
            (header, chunks_pixels(chunks, State::start())),
        ),
{
    lemma_stream_layout(header, chunks);
    lemma_decode_serialized(chunks, State::start());
}

/// Unpacking undoes packing, for the chunks as the packer takes them.
pub proof fn theorem_pack_round_trip_ops(header: QoiHeader, ops: Seq<QoiOps>)
    requires
        header.wf(),
        ops_wf(ops),
        chunks_pixels(views(ops), State::start()).len() == header.pixel_count(),
    ensures
        spec_decode_image(stream_bytes(header, views(ops))) == Ok::<
            (QoiHeader, Seq<RGBA>),
            QoiError,
        >((header, chunks_pixels(views(ops), State::start()))),
{
    lemma_views_wf(ops);
    theorem_pack_round_trip(header, views(ops));
}

/// Round trip, with the header: an image of width times height pixels, both
/// above zero, encodes to a stream, and the stream decodes to the header and
/// the pixels of the image.
pub proof fn theorem_round_trip_image(header: QoiHeader, pixels: Seq<RGBA>)
    requires
        header.wf(),
        pixels.len() == header.pixel_count(),
    ensures
        spec_encode_image(header, pixels) is Ok,
        spec_decode_image(spec_encode_image(header, pixels)->Ok_0) == Ok::<
            (QoiHeader, Seq<RGBA>),
            QoiError,
        >((header, pixels)),
        spec_decode(spec_encode_image(header, pixels)->Ok_0) == Ok::<Seq<RGBA>, QoiError>(pixels),
{
    theorem_chunks_round_trip(pixels);
    theorem_pack_round_trip(header, spec_encode_chunks(pixels));
}

/// Round trip: `decode(encode(pixels, width, height)) == pixels` for every
/// image of width times height pixels, both above zero.
pub proof fn theorem_round_trip(pixels: Seq<RGBA>, width: u32, height: u32)
    requires
        width > 0,
        height > 0,
        pixels.len() == width * height,
    ensures
        spec_encode(pixels, width, height) is Ok,
        spec_decode(spec_encode(pixels, width, height)->Ok_0) == Ok::<Seq<RGBA>, QoiError>(pixels),
{
    theorem_round_trip_image(plain_header(width, height), pixels);
}

/// The chunks for `len` repetitions of the previous pixel: runs of 62, and
/// then one run for what is left.
pub open spec fn run_chunks(len: nat) -> Seq<Chunk> {
    Seq::new(
        (len + 61) / 62,
        |i: int|
            Chunk::Run {
                len: if i < len / 62 {
                    62
                } else {
                    (len % 62) as int
                },
            },
    )
}

/// The number of pixels that a sequence of chunks stands for.
pub open spec fn pixel_total(chunks: Seq<Chunk>) -> int
    decreases chunks.len(),
{
    if chunks.len() == 0 {
        0
    } else {
        pixel_total(chunks.drop_last()) + chunks.last().pixel_count()
    }
}

/// The first `k` chunks of `run_chunks(len)` stand for 62 pixels each, but for
/// the last one where 62 does not divide `len`.
proof fn lemma_run_chunks_total(len: nat, k: nat)
    requires
        k <= run_chunks(len).len(),
    ensures
        pixel_total(run_chunks(len).take(k as int)) == if k <= len / 62 {
            62 * k as int
        } else {
            len as int
        },
    decreases k,
{
    if k > 0 {
        lemma_run_chunks_total(len, (k - 1) as nat);
        let chunks = run_chunks(len).take(k as int);
        assert(chunks.drop_last() =~= run_chunks(len).take(k - 1));
        assert(chunks.last() == run_chunks(len)[k - 1]);
    }
}

/// Run bounding, the chunks: `len` repetitions are written as
/// `ceil(len / 62)` runs, each of 1 to 62 pixels, which sum to `len`.
pub proof fn theorem_run_chunks(len: nat)
    ensures
        run_chunks(len).len() == (len + 61) / 62,
        forall|i: int|
            0 <= i < run_chunks(len).len() ==> (#[trigger] run_chunks(len)[i]) is Run && 1
                <= run_chunks(len)[i]->len <= 62,
        pixel_total(run_chunks(len)) == len,
{
    lemma_run_chunks_total(len, run_chunks(len).len());
    assert(run_chunks(len).take(run_chunks(len).len() as int) =~= run_chunks(len));
}

/// Run bounding, while the run lasts: after `len` repetitions of the previous
/// pixel, counted from where no run was open, the chunks written and the run
/// still open are together the chunks before, followed by `run_chunks(len)`.
pub proof fn lemma_run_progress(pixels: Seq<RGBA>, from: nat, len: nat)
    requires
        from + len <= pixels.len(),
        progress(pixels, from).run == 0,
        forall|k: int| from <= k < from + len ==> pixels[k] == pixel_before(pixels, from as int),
    ensures
        progress(pixels, from + len).state == progress(pixels, from).state,
        from + len < pixels.len() || len == 0 ==> progress(pixels, from + len).run == len % 62,
        from + len == pixels.len() ==> progress(pixels, from + len).run == 0,
        progress(pixels, from + len).chunks + flush(progress(pixels, from + len).run) == progress(
            pixels,
            from,
        ).chunks + run_chunks(len),
    decreases len,
{
    let before = progress(pixels, from).chunks;
    let p = progress(pixels, from + len);
    lemma_previous_is_held(pixels, from);
    if len == 0 {
        assert(p.chunks + flush(p.run) =~= before + run_chunks(len));
    } else {
        lemma_run_progress(pixels, from, (len - 1) as nat);
        let q = progress(pixels, (from + len - 1) as nat);
        assert(p == q.step(pixels[from + len - 1], from + len == pixels.len()));
        let shorter = before + run_chunks((len - 1) as nat);
        let longer = before + run_chunks(len);
        // one more pixel fills a run of 62 or lengthens the rest
        assert(len / 62 == (len - 1) / 62 + if (len - 1) % 62 == 61 {
            1int
        } else {
            0int
        });
        assert(len % 62 == if (len - 1) % 62 == 61 {
            0int
        } else {
            (len - 1) % 62 + 1
        });
        assert((q.chunks + flush(q.run)).len() == q.chunks.len() + flush(q.run).len());
        assert forall|i: int| 0 <= i < q.chunks.len() implies q.chunks[i] == shorter[i] by {
            assert((q.chunks + flush(q.run))[i] == q.chunks[i]);
        }
        assert forall|i: int| 0 <= i < q.chunks.len() implies shorter[i] == longer[i] by {
            if i >= before.len() {
                assert(shorter[i] == run_chunks((len - 1) as nat)[i - before.len()]);
                assert(longer[i] == run_chunks(len)[i - before.len()]);
            }
        }
        assert(p.chunks + flush(p.run) =~= longer);
    }
}

/// Run bounding: a run of `len` pixels that begins where no run is open, and
/// ends with the image or at a pixel that differs, is written as
/// `run_chunks(len)`, after the chunks of what came before it.
pub proof fn theorem_run_bounding(pixels: Seq<RGBA>, from: nat, len: nat)
    requires
        from + len <= pixels.len(),
        progress(pixels, from).run == 0,
        forall|k: int| from <= k < from + len ==> pixels[k] == pixel_before(pixels, from as int),
        from + len < pixels.len() ==> pixels[from as int + len] != pixel_before(
            pixels,
            from as int,
        ),
    ensures
        (progress(pixels, from).chunks + run_chunks(len)).is_prefix_of(spec_encode_chunks(pixels)),
{
    lemma_run_progress(pixels, from, len);
    lemma_previous_is_held(pixels, from);
    let before = progress(pixels, from).chunks;
    let p = progress(pixels, from + len);
    let all = spec_encode_chunks(pixels);
    let written = p.chunks + flush(p.run);
    if from + len == pixels.len() {
        assert(written =~= all);
        assert(written =~= all.subrange(0, written.len() as int));
    } else {
        let next = progress(pixels, from + len + 1);
        assert(next == p.step(pixels[from as int + len], from + len + 1 == pixels.len()));
        lemma_chunks_grow(pixels, from + len + 1, pixels.len());
        assert(written =~= next.chunks.subrange(0, written.len() as int));
        assert(written =~= all.subrange(0, written.len() as int)) by {
            assert(next.chunks =~= all.subrange(0, next.chunks.len() as int));
        }
    }
}

/// Where the chunk of the `j`-th pixel stands among the chunks of an image,
/// for a pixel that differs from the one before it.
pub open spec fn chunk_place(pixels: Seq<RGBA>, j: int) -> int {
    progress(pixels, (j + 1) as nat).chunks.len() - 1
}

/// A pixel that differs from the one before it is written as the chunk that
/// the encoder picks for it in the state it has reached.
pub proof fn lemma_chunk_place(pixels: Seq<RGBA>, j: int)
    requires
        0 <= j < pixels.len(),
        pixels[j] != pixel_before(pixels, j),
    ensures
        0 <= chunk_place(pixels, j) < spec_encode_chunks(pixels).len(),
        spec_encode_chunks(pixels)[chunk_place(pixels, j)] == pixel_chunk(
            progress(pixels, j as nat).state,
            pixels[j],
        ),
{
    lemma_previous_is_held(pixels, j as nat);
    lemma_chunks_grow(pixels, (j + 1) as nat, pixels.len());
    let p = progress(pixels, (j + 1) as nat);
    let all = spec_encode_chunks(pixels);
    assert(p.chunks[chunk_place(pixels, j)] == all.subrange(0, p.chunks.len() as int)[chunk_place(
        pixels,
        j,
    )]);
}

/// `theorem_cache_fidelity`, up to the `n`-th pixel.
proof fn lemma_still_held(pixels: Seq<RGBA>, i: int, n: int)
    requires
        0 <= i < n <= pixels.len(),
        forall|k: int|
            i < k < n && spec_hash(#[trigger] pixels[k]) == spec_hash(pixels[i]) ==> pixels[k]
                == pixels[i],
    ensures
        progress(pixels, n as nat).state.holds(pixels[i]),
    decreases n,
{
    lemma_previous_is_held(pixels, (n - 1) as nat);
    lemma_previous_is_held(pixels, n as nat);
    if n > i + 1 {
        lemma_still_held(pixels, i, n - 1);
    }
}

/// Cache fidelity: a pixel that comes back, after a pixel that differs from
/// it, is written as an Index chunk, where no pixel in between fell into its
/// bucket but the pixel itself.
pub proof fn theorem_cache_fidelity(pixels: Seq<RGBA>, i: int, j: int)
    requires
        0 <= i < j < pixels.len(),
        pixels[j] == pixels[i],
        pixels[j] != pixels[j - 1],
        forall|k: int|
            i < k < j && spec_hash(#[trigger] pixels[k]) == spec_hash(pixels[i]) ==> pixels[k]
                == pixels[i],
    ensures
        0 <= chunk_place(pixels, j) < spec_encode_chunks(pixels).len(),
        spec_encode_chunks(pixels)[chunk_place(pixels, j)] == (Chunk::Index {
            bucket: spec_hash(pixels[i]),
        }),
{
    lemma_still_held(pixels, i, j);
    lemma_chunk_place(pixels, j);
}

/// The pixel that differs from `previous` by `dr`, `dg` and `db`, each
/// wrapping, with the same alpha.
pub open spec fn moved(previous: RGBA, dr: int, dg: int, db: int) -> RGBA {
    RGBA {
        r: shifted(previous.r, dr),
        g: shifted(previous.g, dg),
        b: shifted(previous.b, db),
        a: previous.a,
    }
}

/// Delta boundaries: of a pixel that the cache does not hold and that differs
/// from the previous one by `dr`, `dg` and `db`, with the same alpha,
/// - differences of -2 to 1 each are written as a Diff chunk;
/// - otherwise a green difference of -32 to 31, with red and blue differences
///   of -8 to 7 relative to it, is written as a Luma chunk;
/// - everything beyond is written as an RGB chunk.
pub proof fn theorem_delta_boundaries(s: State, dr: int, dg: int, db: int)
    requires
        -128 <= dr <= 127,
        -128 <= dg <= 127,
        -128 <= db <= 127,
        !s.holds(moved(s.prev, dr, dg, db)),
    ensures
        ({
            let color = moved(s.prev, dr, dg, db);
            let small = -2 <= dr <= 1 && -2 <= dg <= 1 && -2 <= db <= 1;
            let medium = -32 <= dg <= 31 && -8 <= dr - dg <= 7 && -8 <= db - dg <= 7;
            pixel_chunk(s, color) == if small {
                Chunk::Diff { dr, dg, db }
            } else if medium {
                Chunk::Luma { dg, dr_dg: dr - dg, db_dg: db - dg }
            } else {
                Chunk::RGB { r: color.r, g: color.g, b: color.b }
            }
        }),
{
    lemma_shifted_delta(0, s.prev.r, dr);
    lemma_shifted_delta(0, s.prev.g, dg);
    lemma_shifted_delta(0, s.prev.b, db);
    lemma_signed8(dr - dg);
    lemma_signed8(db - dg);
}

/// Alpha sensitivity: a pixel that the cache does not hold and whose alpha
/// differs from the previous one is written as an RGBA chunk, whatever its
/// colors.
pub proof fn theorem_alpha_sensitivity(s: State, color: RGBA)
    requires
        color.a != s.prev.a,
        !s.holds(color),
    ensures
        pixel_chunk(s, color) == (Chunk::RGBA { r: color.r, g: color.g, b: color.b, a: color.a }),
{
}

/// A stream with a well-formed header that does not end in the end marker
/// fails with `MissingEndMarker`, whatever else it holds, and gives no pixels.
pub proof fn theorem_missing_end_marker(bytes: Seq<u8>)
    requires
        parse_header(bytes) is Some,
        !has_end_marker(bytes),
    ensures
        spec_decode_image(bytes) == Err::<(QoiHeader, Seq<RGBA>), QoiError>(
            QoiError::MissingEndMarker,
        ),
        spec_decode(bytes) == Err::<Seq<RGBA>, QoiError>(QoiError::MissingEndMarker),
{
}

} // verus!

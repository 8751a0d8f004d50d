use qoi::chunk::{QoiOpDiff, QoiOpIndex, QoiOpLuma, QoiOpRGB, QoiOpRGBA, QoiOpRun, QoiOps, Tag};
use qoi::decoder::{decode, decode_chunk};
use qoi::error::QoiError;
use qoi::pixel::RGBA;
use qoi::state::CodecState;

const END: [u8; 8] = [0, 0, 0, 0, 0, 0, 0, 1];

fn rgba(r: u8, g: u8, b: u8, a: u8) -> RGBA {
    RGBA { r, g, b, a }
}

/// A stream for an image of `width` by `height` with the given chunk bytes.
fn stream(width: u32, height: u32, chunks: &[u8]) -> Vec<u8> {
    let mut bytes = vec![0x71, 0x6f, 0x69, 0x66];
    bytes.extend_from_slice(&width.to_be_bytes());
    bytes.extend_from_slice(&height.to_be_bytes());
    bytes.push(4);
    bytes.push(0);
    bytes.extend_from_slice(chunks);
    bytes.extend_from_slice(&END);
    bytes
}

/// The state after `previous`, and what the chunk gives in it.
fn decoded_after(previous: RGBA, op: QoiOps) -> (Vec<RGBA>, CodecState) {
    let mut state = CodecState::new();
    state.store(&previous);
    let mut pixels = Vec::new();
    decode_chunk(&mut state, &op, &mut pixels);
    (pixels, state)
}

#[test]
fn a_run_repeats_the_previous_pixel() {
    let previous = rgba(1, 2, 3, 4);
    let (pixels, state) = decoded_after(previous, QoiOps::Run(QoiOpRun { tag: Tag::B11, run: 5 }));
    assert_eq!(pixels, vec![previous; 5]);
    assert_eq!(state.previous, previous);
}

#[test]
fn a_run_at_the_start_repeats_the_default_pixel() {
    let mut state = CodecState::new();
    let mut pixels = vec![rgba(9, 9, 9, 9)];
    decode_chunk(&mut state, &QoiOps::Run(QoiOpRun { tag: Tag::B11, run: 62 }), &mut pixels);
    assert_eq!(pixels.len(), 63);
    assert_eq!(pixels[0], rgba(9, 9, 9, 9));
    assert!(pixels[1..].iter().all(|p| *p == RGBA::new()));
}

#[test]
fn an_index_takes_the_pixel_from_the_cache() {
    let stored = rgba(1, 2, 3, 4);
    let mut state = CodecState::new();
    state.store(&stored);
    state.store(&rgba(50, 60, 70, 80));
    let mut pixels = Vec::new();
    decode_chunk(&mut state, &QoiOps::Index(QoiOpIndex { tag: Tag::B00, index: 14 }), &mut pixels);
    assert_eq!(pixels, vec![stored]);
    assert_eq!(state.previous, stored);
}

#[test]
fn an_index_into_an_untouched_bucket_gives_the_default_pixel() {
    let (pixels, state) =
        decoded_after(rgba(1, 2, 3, 4), QoiOps::Index(QoiOpIndex { tag: Tag::B00, index: 5 }));
    assert_eq!(pixels, vec![RGBA::new()]);
    assert_eq!(state.previous, RGBA::new());
    // an index chunk stores nothing
    assert_eq!(state.encountered.get(5), RGBA::new());
    assert_eq!(state.encountered.get(14), rgba(1, 2, 3, 4));
}

#[test]
fn a_diff_moves_each_channel_by_its_difference() {
    let (pixels, state) = decoded_after(
        rgba(10, 20, 30, 40),
        QoiOps::Diff(QoiOpDiff { tag: Tag::B01, dr: 0, dg: 3, db: 2 }),
    );
    assert_eq!(pixels, vec![rgba(8, 21, 30, 40)]);
    assert_eq!(state.previous, rgba(8, 21, 30, 40));
    assert!(state.encountered.contains(&rgba(8, 21, 30, 40)));
}

#[test]
fn a_diff_wraps_around() {
    let (pixels, _) = decoded_after(
        rgba(0, 255, 1, 40),
        QoiOps::Diff(QoiOpDiff { tag: Tag::B01, dr: 0, dg: 3, db: 0 }),
    );
    assert_eq!(pixels, vec![rgba(254, 0, 255, 40)]);
}

#[test]
fn a_luma_moves_red_and_blue_relative_to_green() {
    let (pixels, state) = decoded_after(
        rgba(100, 100, 100, 255),
        QoiOps::Luma(QoiOpLuma { tag: Tag::B10, dg: 63, dr_dg: 15, db_dg: 0 }),
    );
    assert_eq!(pixels, vec![rgba(138, 131, 123, 255)]);
    assert!(state.encountered.contains(&rgba(138, 131, 123, 255)));
    let (pixels, _) = decoded_after(
        rgba(100, 100, 100, 255),
        QoiOps::Luma(QoiOpLuma { tag: Tag::B10, dg: 0, dr_dg: 0, db_dg: 15 }),
    );
    assert_eq!(pixels, vec![rgba(60, 68, 75, 255)]);
}

#[test]
fn a_luma_wraps_around() {
    let (pixels, _) = decoded_after(
        rgba(250, 250, 250, 0),
        QoiOps::Luma(QoiOpLuma { tag: Tag::B10, dg: 42, dr_dg: 8, db_dg: 8 }),
    );
    assert_eq!(pixels, vec![rgba(4, 4, 4, 0)]);
    let (pixels, _) = decoded_after(
        rgba(5, 5, 5, 0),
        QoiOps::Luma(QoiOpLuma { tag: Tag::B10, dg: 0, dr_dg: 0, db_dg: 15 }),
    );
    // green -32, red -40, blue -25
    assert_eq!(pixels, vec![rgba(221, 229, 236, 0)]);
}

#[test]
fn an_rgb_chunk_keeps_the_alpha() {
    let (pixels, state) = decoded_after(
        rgba(1, 2, 3, 77),
        QoiOps::RGB(QoiOpRGB { tag: Tag::B11111110, red: 9, green: 8, blue: 7 }),
    );
    assert_eq!(pixels, vec![rgba(9, 8, 7, 77)]);
    assert!(state.encountered.contains(&rgba(9, 8, 7, 77)));
}

#[test]
fn an_rgba_chunk_sets_all_channels() {
    let (pixels, state) = decoded_after(
        rgba(1, 2, 3, 77),
        QoiOps::RGBA(QoiOpRGBA { tag: Tag::B11111111, red: 9, green: 8, blue: 7, alpha: 6 }),
    );
    assert_eq!(pixels, vec![rgba(9, 8, 7, 6)]);
    assert_eq!(state.previous, rgba(9, 8, 7, 6));
    assert!(state.encountered.contains(&rgba(9, 8, 7, 6)));
}

#[test]
fn the_example_stream_decodes_to_twelve_pixels() {
    let bytes = stream(12, 1, &[0xFE, 0xAF, 0xAF, 0xAF, 0xC1, 0xA0, 0x83, 0x36, 0xC6]);
    let a = rgba(0xAF, 0xAF, 0xAF, 0xFF);
    let b = rgba(0xAF, 0xAF, 0xAA, 0xFF);
    assert_eq!(decode(&bytes), Ok(vec![a, a, a, b, a, a, a, a, a, a, a, a]));
}

#[test]
fn a_stream_of_every_chunk_kind_decodes() {
    let bytes = stream(
        3,
        3,
        &[
            0xFF, 10, 20, 30, 40, // rgba
            0xC1, // run of 2
            0x40 | (3 << 4) | (2 << 2) | 0, // diff +1, 0, -2
            0x80 | 40, (9 << 4) | 6, // luma: green +8, red +9, blue +6
            0xFE, 1, 2, 3, // rgb
            0x00 | 12, // index: the bucket of the first pixel
            0xC1, // run of 2
        ],
    );
    let first = rgba(10, 20, 30, 40);
    assert_eq!(first.hash(), 12);
    assert_eq!(
        decode(&bytes),
        Ok(vec![
            first,
            first,
            first,
            rgba(11, 20, 28, 40),
            rgba(20, 28, 34, 40),
            rgba(1, 2, 3, 40),
            first,
            first,
            first,
        ])
    );
}

#[test]
fn an_empty_stream_has_a_malformed_header() {
    assert_eq!(decode(&[]), Err(QoiError::MalformedHeader));
}

#[test]
fn a_stream_with_a_wrong_magic_has_a_malformed_header() {
    let mut bytes = stream(1, 1, &[0xC0]);
    bytes[3] = b'g';
    assert_eq!(decode(&bytes), Err(QoiError::MalformedHeader));
}

#[test]
fn a_stream_with_a_dimension_of_zero_has_a_malformed_header() {
    assert_eq!(decode(&stream(0, 1, &[])), Err(QoiError::MalformedHeader));
    assert_eq!(decode(&stream(1, 0, &[])), Err(QoiError::MalformedHeader));
    assert_eq!(decode(&stream(0, 0, &[])), Err(QoiError::MalformedHeader));
}

#[test]
fn a_stream_with_an_unknown_channel_count_has_a_malformed_header() {
    let mut bytes = stream(1, 1, &[0xC0]);
    bytes[12] = 2;
    assert_eq!(decode(&bytes), Err(QoiError::MalformedHeader));
}

#[test]
fn a_stream_with_an_unknown_colorspace_has_a_malformed_header() {
    let mut bytes = stream(1, 1, &[0xC0]);
    bytes[13] = 2;
    assert_eq!(decode(&bytes), Err(QoiError::MalformedHeader));
}

#[test]
fn a_malformed_header_comes_before_a_missing_end_marker() {
    let mut bytes = stream(1, 1, &[0xC0]);
    bytes[0] = 0;
    let last = bytes.len() - 1;
    bytes[last] = 0;
    assert_eq!(decode(&bytes), Err(QoiError::MalformedHeader));
}

#[test]
fn a_wrong_end_marker_is_a_missing_end_marker() {
    let good = stream(12, 1, &[0xFE, 0xAF, 0xAF, 0xAF, 0xC1, 0xA0, 0x83, 0x36, 0xC6]);
    assert!(decode(&good).is_ok());
    for at in 0..8 {
        let mut bytes = good.clone();
        let i = bytes.len() - 8 + at;
        bytes[i] ^= 0x01;
        assert_eq!(decode(&bytes), Err(QoiError::MissingEndMarker));
    }
}

#[test]
fn a_stream_cut_short_is_a_missing_end_marker() {
    let good = stream(12, 1, &[0xFE, 0xAF, 0xAF, 0xAF, 0xC1, 0xA0, 0x83, 0x36, 0xC6]);
    for len in 14..good.len() {
        assert_eq!(decode(&good[..len]), Err(QoiError::MissingEndMarker));
    }
}

#[test]
fn a_header_alone_is_a_missing_end_marker() {
    let bytes = stream(1, 1, &[]);
    assert_eq!(decode(&bytes[..14]), Err(QoiError::MissingEndMarker));
}

#[test]
fn a_missing_end_marker_comes_before_the_chunks() {
    // the chunks are cut off too, and give too few pixels
    let mut bytes = stream(100, 100, &[0xFF, 1, 2]);
    let last = bytes.len() - 1;
    bytes[last] = 2;
    assert_eq!(decode(&bytes), Err(QoiError::MissingEndMarker));
}

#[test]
fn too_few_chunks_are_a_truncated_stream() {
    assert_eq!(decode(&stream(1, 1, &[])), Err(QoiError::TruncatedStream));
    assert_eq!(decode(&stream(12, 1, &[0xFE, 0xAF, 0xAF, 0xAF, 0xC1])), Err(QoiError::TruncatedStream));
    assert_eq!(decode(&stream(2, 2, &[0xC2])), Err(QoiError::TruncatedStream));
}

#[test]
fn a_chunk_cut_off_by_the_end_marker_is_a_truncated_stream() {
    assert_eq!(decode(&stream(1, 1, &[0xFF, 1, 2, 3])), Err(QoiError::TruncatedStream));
    assert_eq!(decode(&stream(1, 1, &[0xFE, 1, 2])), Err(QoiError::TruncatedStream));
    assert_eq!(decode(&stream(1, 1, &[0x80])), Err(QoiError::TruncatedStream));
    assert_eq!(decode(&stream(2, 1, &[0xC0, 0xFF])), Err(QoiError::TruncatedStream));
}

#[test]
fn a_run_past_the_last_pixel_is_a_pixel_count_mismatch() {
    assert_eq!(decode(&stream(1, 1, &[0xC1])), Err(QoiError::PixelCountMismatch));
    assert_eq!(decode(&stream(2, 2, &[0xC1, 0xC2])), Err(QoiError::PixelCountMismatch));
    assert_eq!(decode(&stream(61, 1, &[0xFD])), Err(QoiError::PixelCountMismatch));
}

#[test]
fn chunks_after_the_last_pixel_are_a_pixel_count_mismatch() {
    assert_eq!(decode(&stream(1, 1, &[0xC0, 0xC0])), Err(QoiError::PixelCountMismatch));
    assert_eq!(decode(&stream(1, 1, &[0xC0, 0x00])), Err(QoiError::PixelCountMismatch));
    assert_eq!(
        decode(&stream(2, 1, &[0xFE, 1, 2, 3, 0xC0, 0xFF, 1, 2, 3, 4])),
        Err(QoiError::PixelCountMismatch)
    );
}

#[test]
fn bytes_after_the_last_pixel_are_a_pixel_count_mismatch_even_if_cut_off() {
    assert_eq!(decode(&stream(1, 1, &[0xC0, 0xFF, 1])), Err(QoiError::PixelCountMismatch));
}

#[test]
fn decoding_stops_at_width_times_height() {
    assert_eq!(decode(&stream(62, 2, &[0xFD, 0xFD])), Ok(vec![RGBA::new(); 124]));
    assert_eq!(decode(&stream(2, 31, &[0xFD])), Ok(vec![RGBA::new(); 62]));
}

#[test]
fn a_header_that_asks_for_more_than_any_stream_could_hold_is_a_truncated_stream() {
    assert_eq!(decode(&stream(u32::MAX, u32::MAX, &[0xFD, 0xFD])), Err(QoiError::TruncatedStream));
}

#[test]
fn channel_count_and_colorspace_do_not_change_the_pixels() {
    let mut bytes = stream(2, 1, &[0xFF, 1, 2, 3, 4, 0xC0]);
    let expected = Ok(vec![rgba(1, 2, 3, 4), rgba(1, 2, 3, 4)]);
    assert_eq!(decode(&bytes), expected);
    bytes[12] = 3;
    assert_eq!(decode(&bytes), expected);
    bytes[13] = 1;
    assert_eq!(decode(&bytes), expected);
}

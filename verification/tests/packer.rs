use qoi::chunk::{
    Chunks, QoiOpDiff, QoiOpIndex, QoiOpLuma, QoiOpRGB, QoiOpRGBA, QoiOpRun, QoiOps, Tag,
};
use qoi::error::QoiError;
use qoi::header::{read_header, write_header, Channel, Colorspace, QoiHeader};
use qoi::packer::{ends_with_marker, pack, read_chunk, write_chunk};

const END: [u8; 8] = [0, 0, 0, 0, 0, 0, 0, 1];

fn header(width: u32, height: u32) -> QoiHeader {
    QoiHeader { width, height, channels: Channel::RGBA, colorspace: Colorspace::SRGB }
}

fn bytes_of(op: QoiOps) -> Vec<u8> {
    let mut out = Vec::new();
    write_chunk(&op, &mut out);
    out
}

fn run(len: u8) -> QoiOps {
    QoiOps::Run(QoiOpRun { tag: Tag::B11, run: len })
}

fn index(bucket: u8) -> QoiOps {
    QoiOps::Index(QoiOpIndex { tag: Tag::B00, index: bucket })
}

fn diff(dr: u8, dg: u8, db: u8) -> QoiOps {
    QoiOps::Diff(QoiOpDiff { tag: Tag::B01, dr, dg, db })
}

fn luma(dg: u8, dr_dg: u8, db_dg: u8) -> QoiOps {
    QoiOps::Luma(QoiOpLuma { tag: Tag::B10, dg, dr_dg, db_dg })
}

fn rgb(r: u8, g: u8, b: u8) -> QoiOps {
    QoiOps::RGB(QoiOpRGB { tag: Tag::B11111110, red: r, green: g, blue: b })
}

fn raw(r: u8, g: u8, b: u8, a: u8) -> QoiOps {
    QoiOps::RGBA(QoiOpRGBA { tag: Tag::B11111111, red: r, green: g, blue: b, alpha: a })
}

#[test]
fn tags_lead_their_chunks() {
    assert_eq!(Tag::B00.lead(), 0x00);
    assert_eq!(Tag::B01.lead(), 0x40);
    assert_eq!(Tag::B10.lead(), 0x80);
    assert_eq!(Tag::B11.lead(), 0xC0);
    assert_eq!(Tag::B11111110.lead(), 0xFE);
    assert_eq!(Tag::B11111111.lead(), 0xFF);
}

#[test]
fn tag_of_a_byte_goes_by_the_two_leading_bits() {
    assert_eq!(Tag::of(0x00), Tag::B00);
    assert_eq!(Tag::of(0x3F), Tag::B00);
    assert_eq!(Tag::of(0x40), Tag::B01);
    assert_eq!(Tag::of(0x7F), Tag::B01);
    assert_eq!(Tag::of(0x80), Tag::B10);
    assert_eq!(Tag::of(0xBF), Tag::B10);
    assert_eq!(Tag::of(0xC0), Tag::B11);
    assert_eq!(Tag::of(0xFD), Tag::B11);
}

#[test]
fn the_two_reserved_bytes_are_no_runs() {
    assert_eq!(Tag::of(0xFE), Tag::B11111110);
    assert_eq!(Tag::of(0xFF), Tag::B11111111);
}

#[test]
fn every_byte_has_the_tag_that_leads_it() {
    for byte in 0..=255u8 {
        let tag = Tag::of(byte);
        match tag {
            Tag::B11111110 | Tag::B11111111 => assert_eq!(tag.lead(), byte),
            _ => assert_eq!(tag.lead(), byte & 0xC0),
        }
    }
}

#[test]
fn a_run_is_stored_as_its_length_minus_one() {
    assert_eq!(bytes_of(run(1)), vec![0xC0]);
    assert_eq!(bytes_of(run(2)), vec![0xC1]);
    assert_eq!(bytes_of(run(62)), vec![0xFD]);
}

#[test]
fn an_index_is_stored_as_its_bucket() {
    assert_eq!(bytes_of(index(0)), vec![0x00]);
    assert_eq!(bytes_of(index(54)), vec![0x36]);
    assert_eq!(bytes_of(index(63)), vec![0x3F]);
}

#[test]
fn a_diff_packs_three_times_two_bits() {
    assert_eq!(bytes_of(diff(0, 0, 0)), vec![0b0100_0000]);
    assert_eq!(bytes_of(diff(3, 3, 3)), vec![0b0111_1111]);
    assert_eq!(bytes_of(diff(1, 2, 3)), vec![0b0101_1011]);
    assert_eq!(bytes_of(diff(3, 0, 0)), vec![0b0111_0000]);
}

#[test]
fn a_luma_packs_six_and_two_times_four_bits() {
    assert_eq!(bytes_of(luma(0, 0, 0)), vec![0x80, 0x00]);
    assert_eq!(bytes_of(luma(63, 15, 15)), vec![0xBF, 0xFF]);
    assert_eq!(bytes_of(luma(32, 8, 3)), vec![0xA0, 0x83]);
    assert_eq!(bytes_of(luma(1, 2, 3)), vec![0x81, 0x23]);
}

#[test]
fn raw_chunks_follow_their_reserved_byte() {
    assert_eq!(bytes_of(rgb(1, 2, 3)), vec![0xFE, 1, 2, 3]);
    assert_eq!(bytes_of(raw(1, 2, 3, 4)), vec![0xFF, 1, 2, 3, 4]);
    assert_eq!(bytes_of(raw(255, 254, 0, 255)), vec![0xFF, 255, 254, 0, 255]);
}

#[test]
fn write_chunk_appends() {
    let mut out = vec![9u8, 9];
    write_chunk(&index(5), &mut out);
    write_chunk(&rgb(1, 2, 3), &mut out);
    assert_eq!(out, vec![9, 9, 5, 0xFE, 1, 2, 3]);
}

#[test]
fn read_chunk_undoes_write_chunk() {
    let ops = [
        run(1),
        run(33),
        run(62),
        index(0),
        index(63),
        diff(0, 1, 2),
        diff(3, 3, 3),
        luma(0, 0, 0),
        luma(63, 15, 15),
        luma(17, 4, 11),
        rgb(0xFE, 0xFF, 0xC0),
        raw(0xFF, 0xFE, 0x80, 0x40),
    ];
    for op in ops {
        let mut bytes = vec![0xAAu8];
        write_chunk(&op, &mut bytes);
        let end = bytes.len();
        bytes.push(0x55);
        assert_eq!(read_chunk(&bytes, 1, end), Some((op, end)));
        assert_eq!(read_chunk(&bytes, 1, end + 1), Some((op, end)));
    }
}

#[test]
fn read_chunk_reads_every_leading_byte() {
    for lead in 0..=255u8 {
        let bytes = [lead, 1, 2, 3, 4];
        let (op, next) = read_chunk(&bytes, 0, 5).expect("five bytes hold any chunk");
        let mut back = Vec::new();
        write_chunk(&op, &mut back);
        assert_eq!(back, bytes[..next].to_vec());
    }
}

#[test]
fn read_chunk_finds_nothing_at_the_end() {
    assert_eq!(read_chunk(&[0xC0], 1, 1), None);
    assert_eq!(read_chunk(&[], 0, 0), None);
    assert_eq!(read_chunk(&[0xC0, 0xC0], 1, 1), None);
}

#[test]
fn read_chunk_refuses_a_chunk_that_is_cut_off() {
    assert_eq!(read_chunk(&[0xFF, 1, 2, 3], 0, 4), None);
    assert_eq!(read_chunk(&[0xFF, 1, 2, 3, 4], 0, 4), None);
    assert_eq!(read_chunk(&[0xFE, 1, 2], 0, 3), None);
    assert_eq!(read_chunk(&[0xFE, 1, 2, 3], 0, 3), None);
    assert_eq!(read_chunk(&[0x80], 0, 1), None);
    assert_eq!(read_chunk(&[0x80, 0x88], 0, 1), None);
    assert_eq!(read_chunk(&[0x80, 0x88], 0, 2), Some((luma(0, 8, 8), 2)));
}

#[test]
fn header_is_fourteen_bytes() {
    let mut out = Vec::new();
    write_header(&header(12, 1), &mut out);
    assert_eq!(out, vec![0x71, 0x6f, 0x69, 0x66, 0, 0, 0, 12, 0, 0, 0, 1, 4, 0]);
    assert_eq!(&out[..4], b"qoif");
}

#[test]
fn header_dimensions_are_big_endian() {
    let mut out = vec![7u8];
    let h = QoiHeader {
        width: 0x0102_0304,
        height: 0xFFFE_FDFC,
        channels: Channel::RGB,
        colorspace: Colorspace::Linear,
    };
    write_header(&h, &mut out);
    assert_eq!(
        out,
        vec![7, 0x71, 0x6f, 0x69, 0x66, 1, 2, 3, 4, 0xFF, 0xFE, 0xFD, 0xFC, 3, 1]
    );
    assert_eq!(read_header(&out[1..]), Ok(h));
}

#[test]
fn channel_and_colorspace_bytes() {
    assert_eq!(Channel::RGB.byte(), 3);
    assert_eq!(Channel::RGBA.byte(), 4);
    assert_eq!(Colorspace::SRGB.byte(), 0);
    assert_eq!(Colorspace::Linear.byte(), 1);
    assert_eq!(Channel::from_byte(3), Some(Channel::RGB));
    assert_eq!(Channel::from_byte(4), Some(Channel::RGBA));
    assert_eq!(Channel::from_byte(0), None);
    assert_eq!(Channel::from_byte(5), None);
    assert_eq!(Colorspace::from_byte(0), Some(Colorspace::SRGB));
    assert_eq!(Colorspace::from_byte(1), Some(Colorspace::Linear));
    assert_eq!(Colorspace::from_byte(2), None);
}

#[test]
fn pixel_count_is_width_times_height() {
    assert_eq!(header(12, 1).pixels(), 12);
    assert_eq!(header(640, 480).pixels(), 307_200);
    assert_eq!(header(u32::MAX, u32::MAX).pixels(), 0xFFFF_FFFE_0000_0001);
}

#[test]
fn read_header_reads_what_write_header_wrote() {
    for (w, h) in [(1u32, 1u32), (12, 1), (256, 65_536), (u32::MAX, 1), (1, u32::MAX)] {
        for channels in [Channel::RGB, Channel::RGBA] {
            for colorspace in [Colorspace::SRGB, Colorspace::Linear] {
                let header = QoiHeader { width: w, height: h, channels, colorspace };
                let mut out = Vec::new();
                write_header(&header, &mut out);
                assert_eq!(read_header(&out), Ok(header));
                out.extend_from_slice(&[1, 2, 3]);
                assert_eq!(read_header(&out), Ok(header));
            }
        }
    }
}

#[test]
fn a_short_header_is_malformed() {
    let mut out = Vec::new();
    write_header(&header(3, 3), &mut out);
    for len in 0..14 {
        assert_eq!(read_header(&out[..len]), Err(QoiError::MalformedHeader));
    }
}

#[test]
fn a_wrong_magic_is_malformed() {
    for at in 0..4 {
        let mut out = Vec::new();
        write_header(&header(3, 3), &mut out);
        out[at] ^= 0x20;
        assert_eq!(read_header(&out), Err(QoiError::MalformedHeader));
    }
}

#[test]
fn a_dimension_of_zero_is_malformed() {
    let mut out = Vec::new();
    write_header(&header(0, 3), &mut out);
    assert_eq!(read_header(&out), Err(QoiError::MalformedHeader));
    let mut out = Vec::new();
    write_header(&header(3, 0), &mut out);
    assert_eq!(read_header(&out), Err(QoiError::MalformedHeader));
}

#[test]
fn an_unknown_channel_count_is_malformed() {
    for byte in [0u8, 1, 2, 5, 255] {
        let mut out = Vec::new();
        write_header(&header(3, 3), &mut out);
        out[12] = byte;
        assert_eq!(read_header(&out), Err(QoiError::MalformedHeader));
    }
}

#[test]
fn an_unknown_colorspace_is_malformed() {
    for byte in [2u8, 3, 128, 255] {
        let mut out = Vec::new();
        write_header(&header(3, 3), &mut out);
        out[13] = byte;
        assert_eq!(read_header(&out), Err(QoiError::MalformedHeader));
    }
}

#[test]
fn the_end_marker_is_seven_zeros_and_a_one() {
    let mut stream = vec![0u8; 14];
    stream.extend_from_slice(&END);
    assert!(ends_with_marker(&stream));
    stream.insert(14, 0xC0);
    assert!(ends_with_marker(&stream));
}

#[test]
fn a_changed_end_marker_is_none() {
    for at in 0..8 {
        let mut stream = vec![0u8; 14];
        stream.extend_from_slice(&END);
        stream[14 + at] ^= 1;
        assert!(!ends_with_marker(&stream));
    }
}

#[test]
fn a_stream_too_short_for_header_and_marker_has_no_marker() {
    assert!(!ends_with_marker(&END));
    let mut stream = vec![0u8; 13];
    stream.extend_from_slice(&END);
    assert!(!ends_with_marker(&stream));
    assert!(!ends_with_marker(&[]));
}

#[test]
fn pack_writes_header_chunks_and_end_marker() {
    let mut chunks = Chunks::new();
    chunks.push(rgb(0xAF, 0xAF, 0xAF));
    chunks.push(run(2));
    chunks.push(luma(32, 8, 3));
    chunks.push(index(54));
    chunks.push(run(7));
    assert_eq!(
        pack(&header(12, 1), &chunks),
        vec![
            0x71, 0x6f, 0x69, 0x66, 0, 0, 0, 12, 0, 0, 0, 1, 4, 0, // header
            0xFE, 0xAF, 0xAF, 0xAF, // rgb
            0xC1, // run of 2
            0xA0, 0x83, // luma
            0x36, // index 54
            0xC6, // run of 7
            0, 0, 0, 0, 0, 0, 0, 1, // end marker
        ]
    );
}

#[test]
fn pack_of_no_chunks_is_header_and_end_marker() {
    let bytes = pack(&header(1, 1), &Chunks::new());
    assert_eq!(bytes.len(), 22);
    assert_eq!(&bytes[14..], &END);
}

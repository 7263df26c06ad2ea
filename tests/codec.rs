use png16::codec::{decode_png_bytes, encode_png_bytes};
use png16::container::{get_header, get_idat_payload, parse_ihdr, write_container, PNG, PNG_IHDR};
use png16::error::PngError;
use png16::filter::{
    apply_avg_filter, apply_none_filter, apply_paeth_filter, apply_sub_filter, apply_up_filter,
    avg_defilter, none_defilter, paeth_defilter, paeth_predictor, sub_defilter, up_defilter,
};
use png16::planes::{combine_samples, get_rgb_a, merge_planes, pack_samples};
use png16::scanline::{choose_filter, get_unfilterd_idat};
use png16::tags::{ChunkTag, MAX_IDAT_SIZE};
use std::io::{Read, Write};

fn crc_of(bytes: &[u8]) -> u32 {
    crc::Crc::<u32>::new(&crc::CRC_32_ISO_HDLC).checksum(bytes)
}

fn record(tag: &[u8; 4], payload: &[u8]) -> Vec<u8> {
    let mut out = Vec::new();
    out.extend_from_slice(&(payload.len() as u32).to_be_bytes());
    let mut checked = tag.to_vec();
    checked.extend_from_slice(payload);
    out.extend_from_slice(&checked);
    out.extend_from_slice(&crc_of(&checked).to_be_bytes());
    out
}

fn zlib(bytes: &[u8]) -> Vec<u8> {
    let mut e = flate2::write::ZlibEncoder::new(Vec::new(), flate2::Compression::default());
    e.write_all(bytes).unwrap();
    e.finish().unwrap()
}

fn inflate(bytes: &[u8]) -> Vec<u8> {
    let mut out = Vec::new();
    flate2::read::ZlibDecoder::new(bytes).read_to_end(&mut out).unwrap();
    out
}

fn header_bytes(width: u32, height: u32, fields: [u8; 5]) -> Vec<u8> {
    let mut out = vec![0x89, 0x50, 0x4E, 0x47, 0x0D, 0x0A, 0x1A, 0x0A];
    let mut body = Vec::new();
    body.extend_from_slice(&width.to_be_bytes());
    body.extend_from_slice(&height.to_be_bytes());
    body.extend_from_slice(&fields);
    out.extend_from_slice(&record(b"IHDR", &body));
    out
}

fn png_file(width: u32, height: u32, depth: u8, meta: &[u8], filtered: &[u8]) -> Vec<u8> {
    let mut out = header_bytes(width, height, [depth, 6, 0, 0, 0]);
    out.extend_from_slice(meta);
    out.extend_from_slice(&record(b"IDAT", &zlib(filtered)));
    out.extend_from_slice(&record(b"IEND", &[]));
    out
}

fn sample_image() -> Vec<u8> {
    // 3x2 at depth 16, rows filtered with Paeth and Average.
    let mut stream = vec![4u8];
    for i in 0..24u8 {
        stream.push(i.wrapping_mul(37).wrapping_add(5));
    }
    stream.push(3);
    for i in 0..24u8 {
        stream.push(i.wrapping_mul(11));
    }
    let meta = record(b"tEXt", b"Comment\0hello");
    png_file(3, 2, 16, &meta, &stream)
}

#[test]
fn white_2x2_decodes_to_full_planes() {
    let mut stream = Vec::new();
    for _ in 0..2 {
        stream.push(0);
        stream.extend_from_slice(&[0xFF; 16]);
    }
    let png = decode_png_bytes(&png_file(2, 2, 16, &[], &stream)).unwrap();
    assert_eq!(png.rgb, vec![65535u16; 12]);
    assert_eq!(png.alpha, vec![65535u16; 4]);
    assert_eq!(png.header, Vec::<u8>::new());
    assert_eq!(png.ihdr.width, 2);
    assert_eq!(png.ihdr.height, 2);
}

#[test]
fn one_pixel_image_decodes_and_reencodes() {
    for ft in 0..5u8 {
        let stream = vec![ft, 1, 2, 3, 4, 5, 6, 7, 8];
        let png = decode_png_bytes(&png_file(1, 1, 16, &[], &stream)).unwrap();
        // With no neighbours every prediction is zero.
        assert_eq!(png.rgb, vec![0x0102, 0x0304, 0x0506]);
        assert_eq!(png.alpha, vec![0x0708]);
        let out = encode_png_bytes(&png, 16).unwrap();
        let again = decode_png_bytes(&out).unwrap();
        assert_eq!(again.rgb, png.rgb);
        assert_eq!(again.alpha, png.alpha);
    }
}

#[test]
fn round_trip_at_depth_16_keeps_planes() {
    let first = decode_png_bytes(&sample_image()).unwrap();
    let out = encode_png_bytes(&first, 16).unwrap();
    let second = decode_png_bytes(&out).unwrap();
    assert_eq!(second.rgb, first.rgb);
    assert_eq!(second.alpha, first.alpha);
    assert_eq!(second.header, first.header);
    assert_eq!(second.ihdr, first.ihdr);
}

#[test]
fn metadata_is_carried_verbatim() {
    let meta = record(b"tEXt", b"Comment\0hello");
    let first = decode_png_bytes(&sample_image()).unwrap();
    assert_eq!(first.header, meta);
    let out = encode_png_bytes(&first, 16).unwrap();
    assert_eq!(&out[33..33 + meta.len()], &meta[..]);
}

#[test]
fn unknown_records_before_pixel_data_are_metadata() {
    let mut meta = record(b"zzZz", &[1, 2, 3]);
    meta.extend_from_slice(&record(b"gAMA", &[0, 0, 0xB1, 0x8F]));
    let stream = vec![0, 1, 2, 3, 4, 5, 6, 7, 8];
    let file = png_file(1, 1, 16, &meta, &stream);
    let (found, end) = get_header(&file, 33).unwrap();
    assert_eq!(found, meta);
    assert_eq!(end, 33 + meta.len());
}

#[test]
fn payload_just_over_one_segment_makes_two_records() {
    let payload: Vec<u8> = (0..MAX_IDAT_SIZE + 100).map(|i| (i % 251) as u8).collect();
    let out = write_container(1, 1, 16, &[], &payload);
    let first_len = u32::from_be_bytes([out[33], out[34], out[35], out[36]]) as usize;
    assert_eq!(&out[37..41], b"IDAT");
    let second = 33 + 12 + first_len;
    let second_len = u32::from_be_bytes([out[second], out[second + 1], out[second + 2], out[second + 3]]) as usize;
    assert_eq!(&out[second + 4..second + 8], b"IDAT");
    assert_eq!(first_len, MAX_IDAT_SIZE);
    assert_eq!(second_len, 100);
    assert_eq!(first_len + second_len, payload.len());
    let third = second + 12 + second_len;
    assert_eq!(&out[third..], &[0, 0, 0, 0, 0x49, 0x45, 0x4E, 0x44, 0xAE, 0x42, 0x60, 0x82]);
    assert_eq!(get_idat_payload(&out, 33).unwrap(), payload);
}

#[test]
fn container_checksums_are_crc32() {
    let out = write_container(2, 3, 16, &[], &[9, 8, 7]);
    assert_eq!(&out[0..8], &[0x89, 0x50, 0x4E, 0x47, 0x0D, 0x0A, 0x1A, 0x0A]);
    assert_eq!(&out[8..33], &record(b"IHDR", &[0, 0, 0, 2, 0, 0, 0, 3, 16, 6, 0, 0, 0])[..]);
    assert_eq!(&out[33..48], &record(b"IDAT", &[9, 8, 7])[..]);
    // The checksum of a known header record.
    assert_eq!(&out[29..33], &crc_of(&out[12..29]).to_be_bytes());
    assert_ne!(&out[29..33], &[0, 0, 0, 0]);
}

#[test]
fn dimension_limits() {
    for (w, h, ok) in [(0u32, 1u32, false), (1, 0, false), (65535, 1, false), (1, 65535, false), (65534, 65534, true), (1, 1, true)] {
        let r = parse_ihdr(&header_bytes(w, h, [16, 6, 0, 0, 0]));
        if ok {
            let ihdr = r.unwrap();
            assert_eq!(ihdr.width, w);
            assert_eq!(ihdr.height, h);
            assert_eq!(ihdr.total_bytes, 13);
        } else if w == 0 || w == 65535 {
            assert_eq!(r, Err(PngError::InvalidWidth));
        } else {
            assert_eq!(r, Err(PngError::InvalidHeight));
        }
    }
}

#[test]
fn fixed_fields_are_enforced() {
    let cases = [
        ([4u8, 6, 0, 0, 0], PngError::InvalidBitDepth),
        ([12, 6, 0, 0, 0], PngError::InvalidBitDepth),
        ([16, 2, 0, 0, 0], PngError::InvalidColorType),
        ([16, 6, 1, 0, 0], PngError::InvalidCompression),
        ([16, 6, 0, 1, 0], PngError::InvalidFilterMode),
        ([16, 6, 0, 0, 1], PngError::InterlaceNotSupported),
    ];
    for (fields, err) in cases {
        let r = parse_ihdr(&header_bytes(4, 4, fields));
        assert_eq!(r, Err(err));
        assert!(err.is_format_error());
    }
    assert_eq!(parse_ihdr(&header_bytes(4, 4, [8, 6, 0, 0, 0])).unwrap().depth, 8);
}

#[test]
fn framing_errors() {
    let good = header_bytes(1, 1, [16, 6, 0, 0, 0]);
    let mut bad_sig = good.clone();
    bad_sig[1] = b'Q';
    assert_eq!(parse_ihdr(&bad_sig), Err(PngError::InvalidSignature));
    let mut bad_count = good.clone();
    bad_count[11] = 14;
    assert_eq!(parse_ihdr(&bad_count), Err(PngError::InvalidByteCount));
    let mut bad_tag = good.clone();
    bad_tag[12] = b'J';
    assert_eq!(parse_ihdr(&bad_tag), Err(PngError::InvalidIhdrTag));
    assert_eq!(parse_ihdr(&good[..20]), Err(PngError::UnexpectedEof));
    // A mismatch is reported as soon as the field's own bytes are present.
    assert_eq!(parse_ihdr(&bad_sig[..10]), Err(PngError::InvalidSignature));
    assert_eq!(parse_ihdr(&bad_count[..14]), Err(PngError::InvalidByteCount));
    assert_eq!(parse_ihdr(&bad_tag[..18]), Err(PngError::InvalidIhdrTag));
    assert_eq!(parse_ihdr(&good[..5]), Err(PngError::UnexpectedEof));
    let mut zero_width = good.clone();
    zero_width[19] = 0;
    assert_eq!(parse_ihdr(&zero_width[..22]), Err(PngError::InvalidWidth));
    assert!(!PngError::UnexpectedEof.is_format_error());
    // A file that ends before any pixel data.
    assert_eq!(decode_png_bytes(&good).err(), Some(PngError::UnexpectedEof));
}

#[test]
fn pixel_stream_errors() {
    let bad_filter = vec![5, 1, 2, 3, 4, 5, 6, 7, 8];
    assert_eq!(decode_png_bytes(&png_file(1, 1, 16, &[], &bad_filter)).err(), Some(PngError::InvalidFilterType));
    let truncated = vec![0, 1, 2, 3];
    assert_eq!(decode_png_bytes(&png_file(1, 1, 16, &[], &truncated)).err(), Some(PngError::TruncatedScanline));
    let two_rows = vec![0, 1, 2, 3, 4, 5, 6, 7, 8, 0, 1, 2, 3, 4, 5, 6, 7, 8];
    assert_eq!(decode_png_bytes(&png_file(1, 1, 16, &[], &two_rows)).err(), Some(PngError::ImageSizeMismatch));
    let mut file = header_bytes(1, 1, [16, 6, 0, 0, 0]);
    file.extend_from_slice(&record(b"IDAT", &[1, 2, 3, 4]));
    file.extend_from_slice(&record(b"IEND", &[]));
    assert_eq!(decode_png_bytes(&file).err(), Some(PngError::Decompression));
}

#[test]
fn encode_rejects_invalid_requests() {
    let png = decode_png_bytes(&sample_image()).unwrap();
    assert_eq!(encode_png_bytes(&png, 12), Err(PngError::InvalidBitDepth));
    let mut narrow = PNG::default();
    narrow.ihdr = png.ihdr;
    narrow.ihdr.width = 0;
    assert_eq!(encode_png_bytes(&narrow, 16), Err(PngError::InvalidWidth));
    narrow.ihdr.width = 3;
    narrow.ihdr.height = 70000;
    assert_eq!(encode_png_bytes(&narrow, 16), Err(PngError::InvalidHeight));
    narrow.ihdr.height = 2;
    assert_eq!(encode_png_bytes(&narrow, 16), Err(PngError::ImageSizeMismatch));
}

#[test]
fn depth_8_widens_each_byte() {
    let stream = vec![0, 0x12, 0x34, 0x56, 0x78];
    let png = decode_png_bytes(&png_file(1, 1, 8, &[], &stream)).unwrap();
    assert_eq!(png.rgb, vec![0x1212, 0x3434, 0x5656]);
    assert_eq!(png.alpha, vec![0x7878]);
    let out = encode_png_bytes(&png, 8).unwrap();
    assert_eq!(out[24], 8);
    let again = decode_png_bytes(&out).unwrap();
    assert_eq!(again.rgb, png.rgb);
}

#[test]
fn encoding_valid_images_succeeds() {
    for depth in [8u8, 16] {
        let mut png = PNG::default();
        png.ihdr.width = 1;
        png.ihdr.height = 1;
        png.rgb = vec![0x1111, 0x2222, 0x3333];
        png.alpha = vec![0x4444];
        let out = encode_png_bytes(&png, depth).unwrap();
        assert_eq!(&out[8..12], &[0, 0, 0, 13]);
        assert_eq!(&out[12..16], b"IHDR");
        assert_eq!(&out[16..29], &[0, 0, 0, 1, 0, 0, 0, 1, depth, 6, 0, 0, 0]);
        let rows = inflate(&get_idat_payload(&out, 33).unwrap());
        assert_eq!(rows.len(), 1 + depth as usize / 2);
        assert!(rows[0] <= 4);
    }
}

#[test]
fn encoded_pixel_data_inflates_to_filtered_rows() {
    let png = decode_png_bytes(&png_file(1, 1, 16, &[], &[0, 1, 2, 3, 4, 5, 6, 7, 8])).unwrap();
    let out = encode_png_bytes(&png, 16).unwrap();
    let payload = get_idat_payload(&out, 33).unwrap();
    let rows = inflate(&payload);
    assert_eq!(rows.len(), 9);
    assert!(rows[0] <= 4);
    let decoded = get_unfilterd_idat(&rows, 1, 16).unwrap();
    assert_eq!(decoded, vec![0x0102, 0x0304, 0x0506, 0x0708]);
}

#[test]
fn paeth_of_equal_neighbours() {
    for v in 0..=255u8 {
        assert_eq!(paeth_predictor(v, v, v), v);
    }
    assert_eq!(paeth_predictor(10, 20, 5), 20);
    assert_eq!(paeth_predictor(10, 20, 15), 15);
    assert_eq!(paeth_predictor(10, 20, 30), 10);
    assert_eq!(paeth_predictor(100, 20, 90), 20);
    assert_eq!(paeth_predictor(50, 60, 200), 50);
}

#[test]
fn filters_and_defilters_invert() {
    let above: Vec<u8> = (0..16u8).map(|i| i.wrapping_mul(29).wrapping_add(200)).collect();
    let raw: Vec<u8> = (0..16u8).map(|i| i.wrapping_mul(71).wrapping_add(3)).collect();
    for first in [true, false] {
        let prev: Vec<u8> = if first { Vec::new() } else { above.clone() };
        let candidates = [
            apply_none_filter(&raw),
            apply_sub_filter(&raw, 16),
            apply_up_filter(&raw, &prev),
            apply_avg_filter(&raw, &prev, 16),
            apply_paeth_filter(&raw, &prev, 16),
        ];
        for (ft, cand) in candidates.iter().enumerate() {
            assert_eq!(cand[0], ft as u8);
            assert_eq!(cand.len(), 17);
            let mut decode = prev.clone();
            match ft {
                0 => none_defilter(cand, &mut decode),
                1 => sub_defilter(cand, 16, &mut decode),
                2 => up_defilter(cand, 2, 16, &mut decode),
                3 => avg_defilter(cand, 2, 16, &mut decode),
                _ => paeth_defilter(cand, 2, 16, &mut decode),
            }
            assert_eq!(&decode[prev.len()..], &raw[..]);
        }
    }
}

#[test]
fn filter_formulas() {
    let raw = [10u8, 20, 30, 40, 50, 60, 70, 80];
    let prev = [1u8, 2, 3, 4, 250, 6, 7, 8];
    assert_eq!(apply_none_filter(&raw), vec![0, 10, 20, 30, 40, 50, 60, 70, 80]);
    assert_eq!(apply_sub_filter(&raw, 8), vec![1, 10, 20, 30, 40, 40, 40, 40, 40]);
    assert_eq!(apply_up_filter(&raw, &prev), vec![2, 9, 18, 27, 36, 56, 54, 63, 72]);
    assert_eq!(apply_up_filter(&raw, &[]), vec![2, 10, 20, 30, 40, 50, 60, 70, 80]);
    // (10 + 250) / 2 = 130 and 50 - 130 wraps to 176.
    assert_eq!(apply_avg_filter(&raw, &prev, 8), vec![3, 10, 19, 29, 38, 176, 47, 52, 56]);
    assert_eq!(apply_avg_filter(&raw, &[], 8), vec![3, 10, 20, 30, 40, 45, 50, 55, 60]);
    assert_eq!(apply_paeth_filter(&raw, &[], 8), vec![4, 10, 20, 30, 40, 40, 40, 40, 40]);
    let mut decode = Vec::new();
    sub_defilter(&[1, 10, 20, 30, 40, 40, 40, 40, 40], 8, &mut decode);
    assert_eq!(decode, raw.to_vec());
}

#[test]
fn filter_choice_prefers_smallest_then_paeth() {
    assert_eq!(choose_filter(5, 5, 5, 5, 5), 4);
    assert_eq!(choose_filter(5, 5, 5, 4, 5), 3);
    assert_eq!(choose_filter(5, 5, 3, 3, 4), 3);
    assert_eq!(choose_filter(5, 5, 3, 4, 4), 2);
    assert_eq!(choose_filter(5, 2, 3, 4, 4), 1);
    assert_eq!(choose_filter(1, 2, 3, 4, 4), 0);
}

#[test]
fn planes_split_merge_and_pack() {
    let rgba: Vec<u16> = vec![1, 2, 3, 4, 5, 6, 7, 8];
    let mut rgb = Vec::new();
    let mut alpha = Vec::new();
    get_rgb_a(&rgba, &mut rgb, &mut alpha);
    assert_eq!(rgb, vec![1, 2, 3, 5, 6, 7]);
    assert_eq!(alpha, vec![4, 8]);
    assert_eq!(merge_planes(&rgb, &alpha), rgba);
    assert_eq!(pack_samples(&vec![0x1234, 0xABCD], 16), vec![0x12, 0x34, 0xAB, 0xCD]);
    assert_eq!(pack_samples(&vec![0x1234, 0xABCD], 8), vec![0x12, 0xAB]);
    assert_eq!(combine_samples(&vec![0x12, 0x34, 0xAB, 0xCD], 16), vec![0x1234, 0xABCD]);
    assert_eq!(combine_samples(&vec![0x12, 0xAB], 8), vec![0x1212, 0xABAB]);
}

#[test]
fn chunk_tags_and_defaults() {
    assert_eq!(ChunkTag::ImageHeader.value(), u32::from_be_bytes(*b"IHDR"));
    assert_eq!(ChunkTag::ImageData.value(), u32::from_be_bytes(*b"IDAT"));
    assert_eq!(ChunkTag::ImageEnd.value(), u32::from_be_bytes(*b"IEND"));
    assert_eq!(ChunkTag::TextualData.value(), u32::from_be_bytes(*b"tEXt"));
    assert_eq!(PNG_IHDR::default().width, 0);
    let png = PNG::default();
    assert!(png.rgb.is_empty() && png.alpha.is_empty() && png.header.is_empty());
}

//! Whole images: decoding a PNG held in memory into planes, and encoding
//! planes into a PNG.
use vstd::prelude::*;
use crate::adapters::{zlib_compress, zlib_compressed, zlib_decompress, zlib_inflated};
use crate::bytes::be32_bytes;
use crate::container::{
    chunk_record, ihdr_body, idat_records, image_end, lemma_be32_at_bytes, lemma_container_header, lemma_ihdr_accepted,
    lemma_idat_payload_of_records, lemma_metadata_end_of_run, lemma_metadata_is_record_run,
    record_run, signature,
    container_bytes, dimension_ok, lemma_metadata_end_bounds, get_header, get_idat_payload, idat_payload, ihdr_result,
    metadata_end, parse_ihdr, write_container, HEADER_END, PNG, PNG_IHDR,
};
use crate::error::PngError;
use crate::filter::{bytes_per_pixel, prior_row, valid_depth, zeros};
use crate::planes::{
    lemma_merged_len, lemma_packed16, lemma_samples_of_packed16, lemma_split_merged,
    alpha_plane, color_plane, get_rgb_a, merge_planes, merged, pack_samples, packed, samples_of,
};
use crate::tags::{ChunkTag, MAX_IDAT_SIZE};
use crate::scanline::{
    lemma_unfilter_selected,
    filter_scanlines, get_unfilterd_idat, row_bytes, selected_stream, unfiltered_stream,
    FINAL_LEVEL,
};

verus! {

/// The RGBA samples of the pixel-data records at `pos`: their payloads
/// inflated, every scanline reconstructed, and the bytes read as samples.
pub open spec fn rgba_result(d: Seq<u8>, pos: nat, width: u32, depth: u8) -> Result<Seq<u16>, PngError> {
    match idat_payload(d, pos, Seq::empty()) {
        Err(e) => Err(e),
        Ok(z) => match zlib_inflated(z) {
            None => Err(PngError::Decompression),
            Some(inflated) => match unfiltered_stream(
                inflated,
                row_bytes(width, depth),
                bytes_per_pixel(depth),
                Seq::empty(),
            ) {
                Err(e) => Err(e),
                Ok(bytes) => Ok(samples_of(bytes, depth)),
            },
        },
    }
}

/// The image that the bytes `d` hold: its header, its metadata bytes, its
/// color plane and its alpha plane; or the first error met.
pub open spec fn decode_result(d: Seq<u8>) -> Result<(PNG_IHDR, Seq<u8>, Seq<u16>, Seq<u16>), PngError> {
    match ihdr_result(d) {
        Err(e) => Err(e),
        Ok(h) => match metadata_end(d, HEADER_END as nat) {
            Err(e) => Err(e),
            Ok(end) => match rgba_result(d, end, h.width, h.depth) {
                Err(e) => Err(e),
                Ok(s) => if s.len() != 4 * (h.width * h.height) {
                    Err(PngError::ImageSizeMismatch)
                } else {
                    Ok((h, d.subrange(HEADER_END as int, end as int), color_plane(s), alpha_plane(s)))
                },
            },
        },
    }
}

/// The filtered pixel stream that the encoder compresses for planes
/// `rgb` and `alpha` of an image `width` pixels wide, at `depth` bits.
pub open spec fn filtered_image(rgb: Seq<u16>, alpha: Seq<u16>, width: u32, depth: u8) -> Seq<u8> {
    selected_stream(
        packed(merged(rgb, alpha), depth),
        row_bytes(width, depth),
        bytes_per_pixel(depth),
        Seq::empty(),
    )
}

/// The lengths of the two planes split from whole pixels.
pub proof fn lemma_plane_lengths(rgba: Seq<u16>)
    requires
        rgba.len() % 4 == 0,
    ensures
        color_plane(rgba).len() == 3 * (rgba.len() / 4),
        alpha_plane(rgba).len() == rgba.len() / 4,
    decreases rgba.len(),
{
    if rgba.len() >= 4 {
        lemma_plane_lengths(rgba.take(rgba.len() - 4));
    }
}

/// The pixel count of an image of supported size fits in 32 bits.
proof fn lemma_pixel_count(width: u32, height: u32)
    requires
        dimension_ok(width),
        dimension_ok(height),
    ensures
        width * height <= 0xffff_ffff,
{
    assert(width * height <= 65534 * 65534) by (nonlinear_arith)
        requires
            width <= 65534,
            height <= 65534,
    ;
}

/// Decoding the container that encoding writes at depth 16 gives back the
/// header's size, the metadata and both planes, for any compressed payload
/// that inflates to the filtered pixel stream.
pub proof fn lemma_decode_encoded(
    width: u32,
    height: u32,
    meta: Seq<u8>,
    rgb: Seq<u16>,
    alpha: Seq<u16>,
    z: Seq<u8>,
)
    requires
        dimension_ok(width),
        dimension_ok(height),
        alpha.len() == width * height,
        rgb.len() == 3 * alpha.len(),
        record_run(meta),
        z.len() > 0,
        zlib_inflated(z) == Some(filtered_image(rgb, alpha, width, 16)),
    ensures
        decode_result(container_bytes(width, height, 16, meta, z)) is Ok,
        decode_result(container_bytes(width, height, 16, meta, z))->Ok_0.0.width == width,
        decode_result(container_bytes(width, height, 16, meta, z))->Ok_0.0.height == height,
        decode_result(container_bytes(width, height, 16, meta, z))->Ok_0.0.depth == 16,
        decode_result(container_bytes(width, height, 16, meta, z))->Ok_0.1 == meta,
        decode_result(container_bytes(width, height, 16, meta, z))->Ok_0.2 == rgb,
        decode_result(container_bytes(width, height, 16, meta, z))->Ok_0.3 == alpha,
{
    let c = container_bytes(width, height, 16, meta, z);
    lemma_container_header(width, height, 16, meta, z);
    lemma_container_records(width, height, 16, meta, z);
    lemma_pixels_of_filtered_image(width, height, rgb, alpha);
    lemma_split_merged(rgb, alpha);
    let h = ihdr_result(c)->Ok_0;
    let end = (HEADER_END + meta.len()) as nat;
    assert(rgba_result(c, end, h.width, h.depth) == Ok::<Seq<u16>, PngError>(merged(rgb, alpha)));
}

/// The metadata run and the pixel-data records that encoding writes read
/// back as the metadata and the compressed payload.
proof fn lemma_container_records(width: u32, height: u32, depth: u8, meta: Seq<u8>, z: Seq<u8>)
    requires
        record_run(meta),
        z.len() > 0,
    ensures
        metadata_end(container_bytes(width, height, depth, meta, z), HEADER_END as nat) == Ok::<nat, PngError>(
            (HEADER_END + meta.len()) as nat,
        ),
        container_bytes(width, height, depth, meta, z).subrange(HEADER_END as int, HEADER_END + meta.len())
            == meta,
        idat_payload(
            container_bytes(width, height, depth, meta, z),
            (HEADER_END + meta.len()) as nat,
            Seq::empty(),
        ) == Ok::<Seq<u8>, PngError>(z),
{
    let c = container_bytes(width, height, depth, meta, z);
    let head = signature() + chunk_record(ChunkTag::ImageHeader.code(), ihdr_body(width, height, depth));
    let pre = head + meta;
    assert(c =~= pre + idat_records(z) + image_end());
    assert(head.len() == HEADER_END);
    assert(c.subrange(HEADER_END as int, HEADER_END + meta.len()) =~= meta);
    let m = if z.len() < MAX_IDAT_SIZE { z.len() as int } else { MAX_IDAT_SIZE as int };
    assert(idat_records(z) == chunk_record(ChunkTag::ImageData.code(), z.take(m)) + idat_records(z.skip(m)));
    let q = pre.len() as int;
    assert(c.subrange(q + 4, q + 8) =~= be32_bytes(ChunkTag::ImageData.code()));
    lemma_be32_at_bytes(c, q + 4, ChunkTag::ImageData.code());
    lemma_metadata_end_of_run(c, HEADER_END as nat, meta);
    lemma_idat_payload_of_records(pre, z, Seq::empty());
    assert(Seq::<u8>::empty() + z =~= z);
}

/// The filtered pixel stream of planes at depth 16 reconstructs to their
/// packed bytes, which read back as the interleaved samples.
proof fn lemma_pixels_of_filtered_image(width: u32, height: u32, rgb: Seq<u16>, alpha: Seq<u16>)
    requires
        dimension_ok(width),
        dimension_ok(height),
        alpha.len() == width * height,
        rgb.len() == 3 * alpha.len(),
    ensures
        unfiltered_stream(filtered_image(rgb, alpha, width, 16), row_bytes(width, 16), 8, Seq::empty())
            == Ok::<Seq<u8>, PngError>(packed(merged(rgb, alpha), 16)),
        samples_of(packed(merged(rgb, alpha), 16), 16) == merged(rgb, alpha),
        merged(rgb, alpha).len() == 4 * (width * height),
{
    let s = merged(rgb, alpha);
    lemma_merged_len(rgb, alpha);
    let p = packed(s, 16);
    lemma_packed16(s);
    let n = row_bytes(width, 16);
    assert(p.len() == height * n) by (nonlinear_arith)
        requires
            p.len() == 2 * s.len(),
            s.len() == 4 * alpha.len(),
            alpha.len() == width * height,
            n == width * 8,
    ;
    assert(prior_row(Seq::<u8>::empty(), n) == zeros(n));
    lemma_unfilter_selected(p, height as nat, n, 8, Seq::empty(), Seq::empty());
    assert(Seq::<u8>::empty() + p =~= p);
    lemma_samples_of_packed16(s);
}

/// Decoding a file, encoding the image at depth 16 and decoding the result
/// gives the same metadata and planes, for any compressed payload that
/// inflates to the filtered pixel stream of the first decode.
#[verifier::spinoff_prover]
#[verifier::rlimit(100)]
pub proof fn lemma_round_trip(file: Seq<u8>, z: Seq<u8>)
    requires
        decode_result(file) is Ok,
        z.len() > 0,
        zlib_inflated(z) == Some(
            filtered_image(
                decode_result(file)->Ok_0.2,
                decode_result(file)->Ok_0.3,
                decode_result(file)->Ok_0.0.width,
                16,
            ),
        ),
    ensures
        ({
            let (h, meta, rgb, alpha) = decode_result(file)->Ok_0;
            let again = decode_result(container_bytes(h.width, h.height, 16, meta, z));
            again is Ok && again->Ok_0.1 == meta && again->Ok_0.2 == rgb && again->Ok_0.3 == alpha
        }),
{
    let (h, meta, rgb, alpha) = decode_result(file)->Ok_0;
    assert(ihdr_result(file) is Ok && ihdr_result(file)->Ok_0 == h);
    lemma_ihdr_accepted(file);
    assert(metadata_end(file, HEADER_END as nat) is Ok);
    let end = metadata_end(file, HEADER_END as nat)->Ok_0;
    lemma_metadata_is_record_run(file, HEADER_END as nat);
    assert(rgba_result(file, end, h.width, h.depth) is Ok);
    let s = rgba_result(file, end, h.width, h.depth)->Ok_0;
    assert(s.len() == 4 * (h.width * h.height) && meta == file.subrange(HEADER_END as int, end as int)
        && rgb == color_plane(s) && alpha == alpha_plane(s));
    lemma_pixel_count(h.width, h.height);
    lemma_plane_lengths(s);
    lemma_decode_encoded(h.width, h.height, meta, rgb, alpha, z);
}

/// Collects the pixel-data records at `pos`, inflates them and
/// reconstructs the RGBA samples.
pub fn get_rgba(data: &[u8], pos: usize, width: u32, depth: u8) -> (r: Result<Vec<u16>, PngError>)
    requires
        pos <= data.len(),
        valid_depth(depth),
        dimension_ok(width),
    ensures
        match rgba_result(data@, pos as nat, width, depth) {
            Ok(s) => r is Ok && r->Ok_0@ == s,
            Err(e) => r is Err && r->Err_0 == e,
        },
{
    let compressed = match get_idat_payload(data, pos) {
        Ok(z) => z,
        Err(e) => return Err(e),
    };
    let inflated = match zlib_decompress(compressed.as_slice()) {
        Ok(b) => b,
        Err(e) => return Err(e),
    };
    get_unfilterd_idat(inflated.as_slice(), width, depth)
}

/// Decodes a whole PNG held in memory. Checksums are read, not checked.
#[verifier::rlimit(40)]
pub fn decode_png_bytes(data: &[u8]) -> (r: Result<PNG, PngError>)
    ensures
        match decode_result(data@) {
            Ok((h, meta, rgb, alpha)) => {
                &&& r is Ok
                &&& r->Ok_0.ihdr == h
                &&& r->Ok_0.header@ == meta
                &&& r->Ok_0.rgb@ == rgb
                &&& r->Ok_0.alpha@ == alpha
                &&& r->Ok_0.planes_fit()
                &&& record_run(meta)
            },
            Err(e) => r is Err && r->Err_0 == e,
        },
{
    let ihdr = match parse_ihdr(data) {
        Ok(h) => h,
        Err(e) => return Err(e),
    };
    proof {
        lemma_ihdr_accepted(data@);
    }
    let (header, end) = match get_header(data, HEADER_END) {
        Ok(found) => found,
        Err(e) => return Err(e),
    };
    proof {
        lemma_metadata_end_bounds(data@, HEADER_END as nat);
    }
    let rgba = match get_rgba(data, end, ihdr.width, ihdr.depth) {
        Ok(s) => s,
        Err(e) => return Err(e),
    };
    proof {
        lemma_pixel_count(ihdr.width, ihdr.height);
    }
    let pixels = ihdr.width as u64 * ihdr.height as u64;
    if rgba.len() as u64 != 4 * pixels {
        return Err(PngError::ImageSizeMismatch);
    }
    let mut rgb: Vec<u16> = Vec::new();
    let mut alpha: Vec<u16> = Vec::new();
    get_rgb_a(&rgba, &mut rgb, &mut alpha);
    proof {
        lemma_metadata_is_record_run(data@, HEADER_END as nat);
        lemma_plane_lengths(rgba@);
        assert(rgb@ =~= color_plane(rgba@));
        assert(alpha@ =~= alpha_plane(rgba@));
    }
    Ok(PNG { ihdr, header, rgb, alpha })
}

/// Packs the planes at `depth` bits and filters each scanline with the
/// filter whose candidate compresses smallest.
pub fn filter_rgba(png: &PNG, depth: u8) -> (r: Result<Vec<u8>, PngError>)
    requires
        valid_depth(depth),
        dimension_ok(png.ihdr.width),
        png.rgb@.len() == 3 * png.alpha@.len(),
    ensures
        r is Ok,
        r is Ok ==> r->Ok_0@ == filtered_image(png.rgb@, png.alpha@, png.ihdr.width, depth),
{
    let rgba = merge_planes(&png.rgb, &png.alpha);
    let bytes = pack_samples(&rgba, depth);
    filter_scanlines(bytes.as_slice(), png.ihdr.width, depth)
}

/// Encodes an image at `depth` bits per channel: header, the image's
/// metadata bytes unchanged, the filtered and compressed pixel data in
/// records, and the image-end record. The header's fixed fields are
/// written with their required values.
#[verifier::spinoff_prover]
#[verifier::rlimit(60)]
pub fn encode_png_bytes(png: &PNG, depth: u8) -> (r: Result<Vec<u8>, PngError>)
    ensures
        !valid_depth(depth) ==> r is Err && r->Err_0 == PngError::InvalidBitDepth,
        valid_depth(depth) && !dimension_ok(png.ihdr.width) ==> r is Err && r->Err_0
            == PngError::InvalidWidth,
        valid_depth(depth) && dimension_ok(png.ihdr.width) && !dimension_ok(png.ihdr.height) ==> r is Err
            && r->Err_0 == PngError::InvalidHeight,
        valid_depth(depth) && dimension_ok(png.ihdr.width) && dimension_ok(png.ihdr.height)
            && !png.planes_fit() ==> r is Err && r->Err_0 == PngError::ImageSizeMismatch,
        valid_depth(depth) && dimension_ok(png.ihdr.width) && dimension_ok(png.ihdr.height)
            && png.planes_fit() ==> r is Ok,
        r is Ok ==> r->Ok_0@ == container_bytes(
            png.ihdr.width,
            png.ihdr.height,
            depth,
            png.header@,
            zlib_compressed(
                filtered_image(png.rgb@, png.alpha@, png.ihdr.width, depth),
                FINAL_LEVEL,
            ),
        ),
        r is Ok ==> r->Ok_0@.subrange(HEADER_END as int, HEADER_END + png.header@.len()) == png.header@,
        r is Ok && depth == 16 && record_run(png.header@) ==> {
            let back = decode_result(r->Ok_0@);
            &&& back is Ok
            &&& back->Ok_0.0.width == png.ihdr.width
            &&& back->Ok_0.0.height == png.ihdr.height
            &&& back->Ok_0.1 == png.header@
            &&& back->Ok_0.2 == png.rgb@
            &&& back->Ok_0.3 == png.alpha@
        },
{
    if depth != 8 && depth != 16 {
        return Err(PngError::InvalidBitDepth);
    }
    let width = png.ihdr.width;
    let height = png.ihdr.height;
    if width == 0 || width > crate::scanline::MAX_DIMENSION {
        return Err(PngError::InvalidWidth);
    }
    if height == 0 || height > crate::scanline::MAX_DIMENSION {
        return Err(PngError::InvalidHeight);
    }
    proof {
        lemma_pixel_count(width, height);
    }
    let pixels = width as u64 * height as u64;
    if png.alpha.len() as u64 != pixels || png.rgb.len() as u64 != 3 * pixels {
        return Err(PngError::ImageSizeMismatch);
    }
    let filtered = match filter_rgba(png, depth) {
        Ok(f) => f,
        Err(e) => return Err(e),
    };
    let compressed = match zlib_compress(filtered.as_slice(), FINAL_LEVEL) {
        Ok(z) => z,
        Err(e) => return Err(e),
    };
    let out = write_container(width, height, depth, png.header.as_slice(), compressed.as_slice());
    proof {
        if depth == 16 && record_run(png.header@) {
            lemma_decode_encoded(width, height, png.header@, png.rgb@, png.alpha@, compressed@);
        }
    }
    assert(out@.subrange(HEADER_END as int, HEADER_END + png.header@.len()) =~= png.header@);
    Ok(out)
}

} // verus!

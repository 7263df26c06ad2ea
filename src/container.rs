//! The chunked container: the signature, the header record, the opaque
//! metadata records and the pixel-data records, read from and written to
//! bytes.
use vstd::prelude::*;
use crate::adapters::{crc32, crc32_of};
use crate::bytes::{be32_at, be32_bytes, lemma_be32_round_trip, push_u32_be, read_u32_be};
use crate::error::PngError;
use crate::scanline::MAX_DIMENSION;
use crate::tags::{ChunkTag, IEND_CHECKSUM, MAX_IDAT_SIZE, SIGNATURE_HIGH, SIGNATURE_LOW};

verus! {

/// The length field of the header record.
pub const IHDR_LENGTH: u32 = 13;

/// The color type of truecolor with alpha.
pub const COLOR_TYPE_RGBA: u8 = 6;

/// Where the header record ends and the metadata records begin.
pub const HEADER_END: usize = 33;

/// The fields of the header record.
#[derive(Debug, Clone, Copy, PartialEq, Eq, Structural)]
pub struct PNG_IHDR {
    pub total_bytes: u32,
    pub width: u32,
    pub height: u32,
    pub depth: u8,
    pub color_type: u8,
    pub compression: u8,
    pub filter: u8,
    pub interlace: u8,
    pub crc: u32,
}

impl Default for PNG_IHDR {
    fn default() -> (r: PNG_IHDR)
        ensures
            r == (PNG_IHDR {
                total_bytes: 0,
                width: 0,
                height: 0,
                depth: 0,
                color_type: 0,
                compression: 0,
                filter: 0,
                interlace: 0,
                crc: 0,
            }),
    {
        PNG_IHDR {
            total_bytes: 0,
            width: 0,
            height: 0,
            depth: 0,
            color_type: 0,
            compression: 0,
            filter: 0,
            interlace: 0,
            crc: 0,
        }
    }
}

/// A decoded image: its header, the metadata records between the header
/// and the pixel data (kept as raw bytes), and the color plane (three
/// samples per pixel) and alpha plane (one per pixel), row-major.
pub struct PNG {
    pub ihdr: PNG_IHDR,
    pub header: Vec<u8>,
    pub rgb: Vec<u16>,
    pub alpha: Vec<u16>,
}

impl PNG {
    /// The planes hold `width x height` pixels.
    pub open spec fn planes_fit(&self) -> bool {
        &&& self.rgb@.len() == 3 * (self.ihdr.width * self.ihdr.height)
        &&& self.alpha@.len() == self.ihdr.width * self.ihdr.height
    }
}

impl Default for PNG {
    fn default() -> (r: PNG)
        ensures
            r.ihdr == (PNG_IHDR {
                total_bytes: 0,
                width: 0,
                height: 0,
                depth: 0,
                color_type: 0,
                compression: 0,
                filter: 0,
                interlace: 0,
                crc: 0,
            }),
            r.header@.len() == 0,
            r.rgb@.len() == 0,
            r.alpha@.len() == 0,
    {
        PNG { ihdr: PNG_IHDR::default(), header: Vec::new(), rgb: Vec::new(), alpha: Vec::new() }
    }
}

/// Whether a width or a height lies in the supported range.
pub open spec fn dimension_ok(x: u32) -> bool {
    1 <= x <= MAX_DIMENSION
}

/// The header record read from the start of `d`, field by field in file
/// order: the first field that does not hold its required value gives its
/// format error, and data that ends before a field's own bytes gives
/// `UnexpectedEof`.
#[verifier::opaque]
pub open spec fn ihdr_result(d: Seq<u8>) -> Result<PNG_IHDR, PngError> {
    if d.len() < 8 {
        Err(PngError::UnexpectedEof)
    } else if be32_at(d, 0) != SIGNATURE_HIGH || be32_at(d, 4) != SIGNATURE_LOW {
        Err(PngError::InvalidSignature)
    } else if d.len() < 12 {
        Err(PngError::UnexpectedEof)
    } else if be32_at(d, 8) != IHDR_LENGTH {
        Err(PngError::InvalidByteCount)
    } else if d.len() < 16 {
        Err(PngError::UnexpectedEof)
    } else if be32_at(d, 12) != ChunkTag::ImageHeader.code() {
        Err(PngError::InvalidIhdrTag)
    } else if d.len() < 20 {
        Err(PngError::UnexpectedEof)
    } else if !dimension_ok(be32_at(d, 16)) {
        Err(PngError::InvalidWidth)
    } else if d.len() < 24 {
        Err(PngError::UnexpectedEof)
    } else if !dimension_ok(be32_at(d, 20)) {
        Err(PngError::InvalidHeight)
    } else if d.len() < 25 {
        Err(PngError::UnexpectedEof)
    } else if d[24] != 8 && d[24] != 16 {
        Err(PngError::InvalidBitDepth)
    } else if d.len() < 26 {
        Err(PngError::UnexpectedEof)
    } else if d[25] != COLOR_TYPE_RGBA {
        Err(PngError::InvalidColorType)
    } else if d.len() < 27 {
        Err(PngError::UnexpectedEof)
    } else if d[26] != 0 {
        Err(PngError::InvalidCompression)
    } else if d.len() < 28 {
        Err(PngError::UnexpectedEof)
    } else if d[27] != 0 {
        Err(PngError::InvalidFilterMode)
    } else if d.len() < 29 {
        Err(PngError::UnexpectedEof)
    } else if d[28] != 0 {
        Err(PngError::InterlaceNotSupported)
    } else if d.len() < HEADER_END {
        Err(PngError::UnexpectedEof)
    } else {
        Ok(
            PNG_IHDR {
                total_bytes: IHDR_LENGTH,
                width: be32_at(d, 16),
                height: be32_at(d, 20),
                depth: d[24],
                color_type: COLOR_TYPE_RGBA,
                compression: 0,
                filter: 0,
                interlace: 0,
                crc: be32_at(d, 29),
            },
        )
    }
}

/// Reads and validates the signature and the header record at the start
/// of `data`. The header's checksum is read, not checked.
pub fn parse_ihdr(data: &[u8]) -> (r: Result<PNG_IHDR, PngError>)
    ensures
        r == ihdr_result(data@),
{
    reveal(ihdr_result);
    let eof = Err(PngError::UnexpectedEof);
    if data.len() < 8 {
        return eof;
    }
    if read_u32_be(data, 0) != SIGNATURE_HIGH || read_u32_be(data, 4) != SIGNATURE_LOW {
        return Err(PngError::InvalidSignature);
    }
    if data.len() < 12 {
        return eof;
    }
    if read_u32_be(data, 8) != IHDR_LENGTH {
        return Err(PngError::InvalidByteCount);
    }
    if data.len() < 16 {
        return eof;
    }
    if read_u32_be(data, 12) != ChunkTag::ImageHeader.value() {
        return Err(PngError::InvalidIhdrTag);
    }
    if data.len() < 20 {
        return eof;
    }
    let width = read_u32_be(data, 16);
    if width == 0 || width > MAX_DIMENSION {
        return Err(PngError::InvalidWidth);
    }
    if data.len() < 24 {
        return eof;
    }
    let height = read_u32_be(data, 20);
    if height == 0 || height > MAX_DIMENSION {
        return Err(PngError::InvalidHeight);
    }
    if data.len() < 25 {
        return eof;
    }
    let depth = data[24];
    if depth != 8 && depth != 16 {
        return Err(PngError::InvalidBitDepth);
    }
    if data.len() < 26 {
        return eof;
    }
    if data[25] != COLOR_TYPE_RGBA {
        return Err(PngError::InvalidColorType);
    }
    if data.len() < 27 {
        return eof;
    }
    if data[26] != 0 {
        return Err(PngError::InvalidCompression);
    }
    if data.len() < 28 {
        return eof;
    }
    if data[27] != 0 {
        return Err(PngError::InvalidFilterMode);
    }
    if data.len() < 29 {
        return eof;
    }
    if data[28] != 0 {
        return Err(PngError::InterlaceNotSupported);
    }
    if data.len() < HEADER_END {
        return eof;
    }
    Ok(
        PNG_IHDR {
            total_bytes: IHDR_LENGTH,
            width,
            height,
            depth,
            color_type: COLOR_TYPE_RGBA,
            compression: 0,
            filter: 0,
            interlace: 0,
            crc: read_u32_be(data, 29),
        },
    )
}

/// Where the run of records from `pos` reaches the first pixel-data
/// record; an error where the data ends first.
pub open spec fn metadata_end(d: Seq<u8>, pos: nat) -> Result<nat, PngError>
    decreases d.len() - pos,
{
    if pos + 8 > d.len() {
        Err(PngError::UnexpectedEof)
    } else if be32_at(d, pos + 4 as int) == ChunkTag::ImageData.code() {
        Ok(pos)
    } else if pos + 12 + be32_at(d, pos as int) > d.len() {
        Err(PngError::UnexpectedEof)
    } else {
        metadata_end(d, (pos + 12 + be32_at(d, pos as int)) as nat)
    }
}

/// The first pixel-data record lies within the data, at or after `pos`.
pub proof fn lemma_metadata_end_bounds(d: Seq<u8>, pos: nat)
    ensures
        metadata_end(d, pos) is Ok ==> pos <= metadata_end(d, pos)->Ok_0 && metadata_end(d, pos)->Ok_0 + 8
            <= d.len(),
    decreases d.len() - pos,
{
    if pos + 8 <= d.len() && be32_at(d, pos + 4 as int) != ChunkTag::ImageData.code() && pos + 12 + be32_at(
        d,
        pos as int,
    ) <= d.len() {
        lemma_metadata_end_bounds(d, (pos + 12 + be32_at(d, pos as int)) as nat);
    }
}

/// Copies every record from `pos` up to the first pixel-data record,
/// unparsed, and returns those bytes with the position of that record.
pub fn get_header(data: &[u8], pos: usize) -> (r: Result<(Vec<u8>, usize), PngError>)
    requires
        pos <= data.len(),
    ensures
        match metadata_end(data@, pos as nat) {
            Ok(end) => r is Ok && r->Ok_0.1 == end && r->Ok_0.0@ == data@.subrange(pos as int, end as int),
            Err(e) => r is Err && r->Err_0 == e,
        },
{
    let mut p = pos;
    loop
        invariant
            pos <= p <= data.len(),
            metadata_end(data@, pos as nat) == metadata_end(data@, p as nat),
        decreases data.len() - p,
    {
        if data.len() - p < 8 {
            return Err(PngError::UnexpectedEof);
        }
        let len = read_u32_be(data, p);
        if read_u32_be(data, p + 4) == ChunkTag::ImageData.value() {
            let mut meta: Vec<u8> = Vec::new();
            meta.extend_from_slice(&data[pos..p]);
            return Ok((meta, p));
        }
        if data.len() - p < 12 || data.len() - p - 12 < len as usize {
            return Err(PngError::UnexpectedEof);
        }
        p = p + 12 + len as usize;
    }
}

/// The payloads of the run of pixel-data records from `pos`, concatenated
/// after `acc`; an error where the data ends inside the run or before a
/// record that ends it.
pub open spec fn idat_payload(d: Seq<u8>, pos: nat, acc: Seq<u8>) -> Result<Seq<u8>, PngError>
    decreases d.len() - pos,
{
    if pos + 8 > d.len() {
        Err(PngError::UnexpectedEof)
    } else if be32_at(d, pos + 4 as int) != ChunkTag::ImageData.code() {
        Ok(acc)
    } else if pos + 12 + be32_at(d, pos as int) > d.len() {
        Err(PngError::UnexpectedEof)
    } else {
        idat_payload(
            d,
            (pos + 12 + be32_at(d, pos as int)) as nat,
            acc + d.subrange(pos + 8 as int, pos + 8 + be32_at(d, pos as int)),
        )
    }
}

/// Concatenates the payloads of the run of pixel-data records at `pos`.
/// Their checksums are read past, not checked.
pub fn get_idat_payload(data: &[u8], pos: usize) -> (r: Result<Vec<u8>, PngError>)
    requires
        pos <= data.len(),
    ensures
        match idat_payload(data@, pos as nat, Seq::empty()) {
            Ok(z) => r is Ok && r->Ok_0@ == z,
            Err(e) => r is Err && r->Err_0 == e,
        },
{
    let mut out: Vec<u8> = Vec::new();
    let mut p = pos;
    loop
        invariant
            pos <= p <= data.len(),
            idat_payload(data@, pos as nat, Seq::empty()) == idat_payload(data@, p as nat, out@),
        decreases data.len() - p,
    {
        if data.len() - p < 8 {
            return Err(PngError::UnexpectedEof);
        }
        let len = read_u32_be(data, p);
        if read_u32_be(data, p + 4) != ChunkTag::ImageData.value() {
            return Ok(out);
        }
        if data.len() - p < 12 || data.len() - p - 12 < len as usize {
            return Err(PngError::UnexpectedEof);
        }
        let ghost before = out@;
        out.extend_from_slice(&data[p + 8..p + 8 + len as usize]);
        assert(out@ =~= before + data@.subrange(p + 8, p + 8 + len));
        p = p + 12 + len as usize;
    }
}

/// The bytes of a record: payload length, tag, payload, and the checksum
/// of tag and payload.
pub open spec fn chunk_record(tag: u32, payload: Seq<u8>) -> Seq<u8> {
    be32_bytes(payload.len() as u32) + be32_bytes(tag) + payload + be32_bytes(
        crc32_of(be32_bytes(tag) + payload),
    )
}

/// The payload of the header record.
pub open spec fn ihdr_body(width: u32, height: u32, depth: u8) -> Seq<u8> {
    be32_bytes(width) + be32_bytes(height) + seq![depth, COLOR_TYPE_RGBA, 0u8, 0u8, 0u8]
}

/// The pixel-data records that carry `payload`: consecutive segments of
/// `MAX_IDAT_SIZE` bytes, the last one shorter where the size does not
/// divide evenly.
pub open spec fn idat_records(payload: Seq<u8>) -> Seq<u8>
    decreases payload.len(),
{
    if payload.len() == 0 {
        Seq::empty()
    } else {
        let m = if payload.len() < MAX_IDAT_SIZE { payload.len() as int } else { MAX_IDAT_SIZE as int };
        chunk_record(ChunkTag::ImageData.code(), payload.take(m)) + idat_records(payload.skip(m))
    }
}

/// The eight signature bytes.
pub open spec fn signature() -> Seq<u8> {
    be32_bytes(SIGNATURE_HIGH) + be32_bytes(SIGNATURE_LOW)
}

/// The closing image-end record: length 0, its tag, and its fixed checksum.
pub open spec fn image_end() -> Seq<u8> {
    be32_bytes(0) + be32_bytes(ChunkTag::ImageEnd.code()) + be32_bytes(IEND_CHECKSUM)
}

/// The whole container: signature, header record, the metadata bytes
/// verbatim, the pixel-data records, and the image-end record.
pub open spec fn container_bytes(width: u32, height: u32, depth: u8, meta: Seq<u8>, compressed: Seq<u8>) -> Seq<u8> {
    signature() + chunk_record(ChunkTag::ImageHeader.code(), ihdr_body(width, height, depth)) + meta
        + idat_records(compressed) + image_end()
}

/// Appends one record with a freshly computed checksum.
fn push_record(out: &mut Vec<u8>, tag: u32, payload: &[u8])
    requires
        payload.len() <= u32::MAX,
    ensures
        final(out)@ == old(out)@ + chunk_record(tag, payload@),
{
    push_u32_be(out, payload.len() as u32);
    let mut checked: Vec<u8> = Vec::new();
    push_u32_be(&mut checked, tag);
    checked.extend_from_slice(payload);
    assert(checked@ =~= be32_bytes(tag) + payload@);
    out.extend_from_slice(checked.as_slice());
    push_u32_be(out, crc32(checked.as_slice()));
    assert(out@ =~= old(out)@ + chunk_record(tag, payload@));
}

/// Writes the container of an image whose filtered pixel stream
/// compressed to `compressed`, carrying `meta` unchanged.
pub fn write_container(width: u32, height: u32, depth: u8, meta: &[u8], compressed: &[u8]) -> (r: Vec<u8>)
    ensures
        r@ == container_bytes(width, height, depth, meta@, compressed@),
{
    let mut out: Vec<u8> = Vec::new();
    push_u32_be(&mut out, SIGNATURE_HIGH);
    push_u32_be(&mut out, SIGNATURE_LOW);
    let mut body: Vec<u8> = Vec::new();
    push_u32_be(&mut body, width);
    push_u32_be(&mut body, height);
    body.push(depth);
    body.push(COLOR_TYPE_RGBA);
    body.push(0);
    body.push(0);
    body.push(0);
    assert(body@ =~= ihdr_body(width, height, depth));
    push_record(&mut out, ChunkTag::ImageHeader.value(), body.as_slice());
    out.extend_from_slice(meta);
    let ghost head = out@;
    assert(head =~= signature() + chunk_record(ChunkTag::ImageHeader.code(), ihdr_body(width, height, depth)) + meta@);
    let mut pos: usize = 0;
    assert(compressed@.skip(0) =~= compressed@);
    while pos < compressed.len()
        invariant
            pos <= compressed.len(),
            head + idat_records(compressed@) == out@ + idat_records(compressed@.skip(pos as int)),
        decreases compressed.len() - pos,
    {
        let ghost rest = compressed@.skip(pos as int);
        let m = if compressed.len() - pos < MAX_IDAT_SIZE { compressed.len() - pos } else { MAX_IDAT_SIZE };
        let segment = &compressed[pos..pos + m];
        proof {
            assert(rest.take(m as int) =~= segment@);
            assert(rest.skip(m as int) =~= compressed@.skip(pos + m));
        }
        push_record(&mut out, ChunkTag::ImageData.value(), segment);
        pos = pos + m;
        proof {
            assert(head + idat_records(compressed@) =~= out@ + idat_records(compressed@.skip(pos as int)));
        }
    }
    assert(compressed@.skip(pos as int) =~= Seq::<u8>::empty());
    assert(out@ + idat_records(compressed@.skip(pos as int)) =~= out@);
    push_u32_be(&mut out, 0);
    push_u32_be(&mut out, ChunkTag::ImageEnd.value());
    push_u32_be(&mut out, IEND_CHECKSUM);
    assert(out@ =~= container_bytes(width, height, depth, meta@, compressed@));
    out
}

/// A payload just over one segment long goes out in exactly two
/// pixel-data records, whose payloads are a full segment and the rest,
/// add up to the whole, and are each at most one segment long.
pub proof fn lemma_two_idat_records(payload: Seq<u8>)
    requires
        MAX_IDAT_SIZE < payload.len() <= 2 * MAX_IDAT_SIZE,
    ensures
        idat_records(payload) == chunk_record(ChunkTag::ImageData.code(), payload.take(MAX_IDAT_SIZE as int))
            + chunk_record(ChunkTag::ImageData.code(), payload.skip(MAX_IDAT_SIZE as int)),
        payload.take(MAX_IDAT_SIZE as int).len() + payload.skip(MAX_IDAT_SIZE as int).len() == payload.len(),
        payload.take(MAX_IDAT_SIZE as int).len() <= MAX_IDAT_SIZE,
        payload.skip(MAX_IDAT_SIZE as int).len() <= MAX_IDAT_SIZE,
{
    let rest = payload.skip(MAX_IDAT_SIZE as int);
    assert(rest.take(rest.len() as int) =~= rest);
    assert(rest.skip(rest.len() as int) =~= Seq::<u8>::empty());
    assert(idat_records(rest.skip(rest.len() as int)) == Seq::<u8>::empty());
    assert(idat_records(rest) =~= chunk_record(ChunkTag::ImageData.code(), rest));
}

/// A big-endian field reads as the value whose bytes it holds.
pub proof fn lemma_be32_at_bytes(d: Seq<u8>, p: int, x: u32)
    requires
        0 <= p,
        p + 4 <= d.len(),
        d.subrange(p, p + 4) == be32_bytes(x),
    ensures
        be32_at(d, p) == x,
{
    lemma_be32_round_trip(x);
    let b = be32_bytes(x);
    assert(d[p] == b[0] && d[p + 1] == b[1] && d[p + 2] == b[2] && d[p + 3] == b[3]) by {
        assert(d.subrange(p, p + 4)[0] == d[p]);
        assert(d.subrange(p, p + 4)[1] == d[p + 1]);
        assert(d.subrange(p, p + 4)[2] == d[p + 2]);
        assert(d.subrange(p, p + 4)[3] == d[p + 3]);
    }
}

/// Whether `m` is a run of whole records, none of them pixel data: the
/// shape of the metadata that decoding captures.
pub open spec fn record_run(m: Seq<u8>) -> bool
    decreases m.len(),
{
    if m.len() == 0 {
        true
    } else if m.len() < 12 || be32_at(m, 4) == ChunkTag::ImageData.code() || 12 + be32_at(m, 0) > m.len() {
        false
    } else {
        record_run(m.skip(12 + be32_at(m, 0)))
    }
}

/// The metadata that the record walk passes over is a run of whole records.
pub proof fn lemma_metadata_is_record_run(d: Seq<u8>, pos: nat)
    requires
        metadata_end(d, pos) is Ok,
    ensures
        record_run(d.subrange(pos as int, metadata_end(d, pos)->Ok_0 as int)),
    decreases d.len() - pos,
{
    let e = metadata_end(d, pos)->Ok_0;
    let m = d.subrange(pos as int, e as int);
    if be32_at(d, pos + 4 as int) == ChunkTag::ImageData.code() {
        assert(m.len() == 0);
    } else {
        let len = be32_at(d, pos as int);
        let next = (pos + 12 + len) as nat;
        lemma_metadata_is_record_run(d, next);
        lemma_metadata_end_bounds(d, next);
        assert(be32_at(m, 4) == be32_at(d, pos + 4 as int));
        assert(be32_at(m, 0) == len);
        assert(m.skip(12 + len) =~= d.subrange(next as int, e as int));
    }
}

/// The record walk passes over a run of whole records to the pixel-data
/// record that follows it, wherever the run stands.
pub proof fn lemma_metadata_end_of_run(d: Seq<u8>, q: nat, m: Seq<u8>)
    requires
        record_run(m),
        q + m.len() + 8 <= d.len(),
        d.subrange(q as int, (q + m.len()) as int) == m,
        be32_at(d, (q + m.len() + 4) as int) == ChunkTag::ImageData.code(),
    ensures
        metadata_end(d, q) == Ok::<nat, PngError>(q + m.len()),
    decreases m.len(),
{
    if m.len() > 0 {
        let len = be32_at(m, 0);
        let qi = q as int;
        assert(m[0] == d[qi] && m[1] == d[qi + 1] && m[2] == d[qi + 2] && m[3] == d[qi + 3]);
        assert(m[4] == d[qi + 4] && m[5] == d[qi + 5] && m[6] == d[qi + 6] && m[7] == d[qi + 7]);
        assert(be32_at(d, q as int) == len);
        assert(be32_at(d, q + 4 as int) == be32_at(m, 4));
        let rest = m.skip(12 + len);
        let next = (q + 12 + len) as nat;
        assert(d.subrange(next as int, (next + rest.len()) as int) =~= rest);
        lemma_metadata_end_of_run(d, next, rest);
    }
}

/// The record walk over pixel-data records that encoding wrote collects
/// the whole payload, and stops at the image-end record.
pub proof fn lemma_idat_payload_of_records(pre: Seq<u8>, z: Seq<u8>, acc: Seq<u8>)
    ensures
        idat_payload(pre + idat_records(z) + image_end(), pre.len(), acc) == Ok::<Seq<u8>, PngError>(
            acc + z,
        ),
    decreases z.len(),
{
    let x = pre + idat_records(z) + image_end();
    let p = pre.len() as int;
    if z.len() == 0 {
        assert(x =~= pre + image_end());
        assert(x.subrange(p + 4, p + 8) =~= be32_bytes(ChunkTag::ImageEnd.code()));
        lemma_be32_at_bytes(x, p + 4, ChunkTag::ImageEnd.code());
        assert(acc + z =~= acc);
    } else {
        let m = if z.len() < MAX_IDAT_SIZE { z.len() as int } else { MAX_IDAT_SIZE as int };
        let seg = z.take(m);
        let rec = chunk_record(ChunkTag::ImageData.code(), seg);
        let pre2 = pre + rec;
        assert(x =~= pre2 + idat_records(z.skip(m)) + image_end());
        assert(x.subrange(p, p + 4) =~= be32_bytes(m as u32));
        lemma_be32_at_bytes(x, p, m as u32);
        assert(x.subrange(p + 4, p + 8) =~= be32_bytes(ChunkTag::ImageData.code()));
        lemma_be32_at_bytes(x, p + 4, ChunkTag::ImageData.code());
        assert(x.subrange(p + 8, p + 8 + m) =~= seg);
        lemma_idat_payload_of_records(pre2, z.skip(m), acc + seg);
        assert(acc + seg + z.skip(m) =~= acc + z);
    }
}

/// The header record that encoding writes reads back with the same
/// width, height and depth.
#[verifier::spinoff_prover]
#[verifier::rlimit(100)]
pub proof fn lemma_container_header(width: u32, height: u32, depth: u8, meta: Seq<u8>, z: Seq<u8>)
    requires
        dimension_ok(width),
        dimension_ok(height),
        depth == 8 || depth == 16,
    ensures
        ihdr_result(container_bytes(width, height, depth, meta, z)) is Ok,
        ihdr_result(container_bytes(width, height, depth, meta, z))->Ok_0.width == width,
        ihdr_result(container_bytes(width, height, depth, meta, z))->Ok_0.height == height,
        ihdr_result(container_bytes(width, height, depth, meta, z))->Ok_0.depth == depth,
{
    let c = container_bytes(width, height, depth, meta, z);
    let body = ihdr_body(width, height, depth);
    let rec = chunk_record(ChunkTag::ImageHeader.code(), body);
    let head = signature() + rec;
    let tail = meta + idat_records(z) + image_end();
    assert(c =~= head + tail);
    assert(head.len() == 33);
    assert forall|i: int| 0 <= i < 33 implies c[i] == head[i] by {}
    assert(head.subrange(0, 4) =~= be32_bytes(SIGNATURE_HIGH));
    assert(c.subrange(0, 4) =~= head.subrange(0, 4));
    lemma_be32_at_bytes(c, 0, SIGNATURE_HIGH);
    assert(head.subrange(4, 8) =~= be32_bytes(SIGNATURE_LOW));
    assert(c.subrange(4, 8) =~= head.subrange(4, 8));
    lemma_be32_at_bytes(c, 4, SIGNATURE_LOW);
    assert(head.subrange(8, 12) =~= be32_bytes(IHDR_LENGTH));
    assert(c.subrange(8, 12) =~= head.subrange(8, 12));
    lemma_be32_at_bytes(c, 8, IHDR_LENGTH);
    assert(head.subrange(12, 16) =~= be32_bytes(ChunkTag::ImageHeader.code()));
    assert(c.subrange(12, 16) =~= head.subrange(12, 16));
    lemma_be32_at_bytes(c, 12, ChunkTag::ImageHeader.code());
    assert(head.subrange(16, 20) =~= be32_bytes(width));
    assert(c.subrange(16, 20) =~= head.subrange(16, 20));
    lemma_be32_at_bytes(c, 16, width);
    assert(head.subrange(20, 24) =~= be32_bytes(height));
    assert(c.subrange(20, 24) =~= head.subrange(20, 24));
    lemma_be32_at_bytes(c, 20, height);
    assert(head[24] == depth && head[25] == COLOR_TYPE_RGBA && head[26] == 0 && head[27] == 0 && head[28] == 0);
    assert(c[24] == depth && c[25] == COLOR_TYPE_RGBA && c[26] == 0 && c[27] == 0 && c[28] == 0);
    assert(c[24] == head[24] && c[25] == head[25] && c[26] == head[26] && c[27] == head[27] && c[28] == head[28]);
    lemma_dimension_limits(c);
}

/// Whether the signature, the header's length field and its tag are right.
pub open spec fn framing_ok(d: Seq<u8>) -> bool {
    &&& d.len() >= HEADER_END
    &&& be32_at(d, 0) == SIGNATURE_HIGH
    &&& be32_at(d, 4) == SIGNATURE_LOW
    &&& be32_at(d, 8) == IHDR_LENGTH
    &&& be32_at(d, 12) == ChunkTag::ImageHeader.code()
}

/// Whether the depth, color type, compression, filter and interlace
/// fields hold their supported values.
pub open spec fn fixed_fields_ok(d: Seq<u8>) -> bool {
    &&& d[24] == 8 || d[24] == 16
    &&& d[25] == COLOR_TYPE_RGBA
    &&& d[26] == 0
    &&& d[27] == 0
    &&& d[28] == 0
}

/// What a header accepted by `ihdr_result` guarantees of the data and of
/// its fields.
pub proof fn lemma_ihdr_accepted(d: Seq<u8>)
    requires
        ihdr_result(d) is Ok,
    ensures
        d.len() >= HEADER_END,
        dimension_ok(ihdr_result(d)->Ok_0.width),
        dimension_ok(ihdr_result(d)->Ok_0.height),
        ihdr_result(d)->Ok_0.depth == 8 || ihdr_result(d)->Ok_0.depth == 16,
{
    reveal(ihdr_result);
}

/// A width or height of 0, or of 65535 and above, is rejected with a
/// format error; every width and height from 1 to 65534 (65534 x 65534
/// included) is accepted when the other fields are valid.
pub proof fn lemma_dimension_limits(d: Seq<u8>)
    requires
        d.len() >= HEADER_END,
    ensures
        be32_at(d, 16) == 0 || be32_at(d, 16) >= 65535 || be32_at(d, 20) == 0 || be32_at(d, 20) >= 65535
            ==> ihdr_result(d) is Err && ihdr_result(d)->Err_0.is_format(),
        framing_ok(d) && fixed_fields_ok(d) && 1 <= be32_at(d, 16) <= 65534 && 1 <= be32_at(d, 20) <= 65534
            ==> ihdr_result(d) is Ok && ihdr_result(d)->Ok_0.width == be32_at(d, 16)
            && ihdr_result(d)->Ok_0.height == be32_at(d, 20) && ihdr_result(d)->Ok_0.depth == d[24],
{
    reveal(ihdr_result);
}

/// A depth other than 8 or 16, a color type other than truecolor with
/// alpha, or a non-zero compression, filter or interlace field is
/// rejected with a format error.
pub proof fn lemma_fixed_fields_enforced(d: Seq<u8>)
    requires
        d.len() >= HEADER_END,
    ensures
        !fixed_fields_ok(d) ==> ihdr_result(d) is Err && ihdr_result(d)->Err_0.is_format(),
        framing_ok(d) && dimension_ok(be32_at(d, 16)) && dimension_ok(be32_at(d, 20)) && !fixed_fields_ok(d)
            ==> ihdr_result(d) is Err && (ihdr_result(d)->Err_0 == PngError::InvalidBitDepth
            || ihdr_result(d)->Err_0 == PngError::InvalidColorType || ihdr_result(d)->Err_0
            == PngError::InvalidCompression || ihdr_result(d)->Err_0 == PngError::InvalidFilterMode
            || ihdr_result(d)->Err_0 == PngError::InterlaceNotSupported),
{
    reveal(ihdr_result);
}

} // verus!

//! The five scanline filters: prediction from the left, upper and
//! upper-left neighbours, applied forward when encoding and undone when
//! decoding, all in modulo-256 byte arithmetic.
use vstd::prelude::*;

verus! {

/// Filter-type tag: the bytes are stored as they are.
pub const FILTER_NONE: u8 = 0;

/// Filter-type tag: each byte is predicted by the byte one pixel to the left.
pub const FILTER_SUB: u8 = 1;

/// Filter-type tag: each byte is predicted by the byte above it.
pub const FILTER_UP: u8 = 2;

/// Filter-type tag: each byte is predicted by the mean of left and above.
pub const FILTER_AVERAGE: u8 = 3;

/// Filter-type tag: each byte is predicted by the Paeth predictor.
pub const FILTER_PAETH: u8 = 4;

pub open spec fn abs_diff(x: int, y: int) -> int {
    if x >= y { x - y } else { y - x }
}

/// The Paeth predictor: whichever of `a` (left), `b` (up) and `c`
/// (upper left) is closest to `a + b - c`, preferring `a`, then `b`.
pub open spec fn paeth_spec(a: u8, b: u8, c: u8) -> u8 {
    let p = a as int + b as int - c as int;
    let pa = abs_diff(p, a as int);
    let pb = abs_diff(p, b as int);
    let pc = abs_diff(p, c as int);
    if pa <= pb && pa <= pc {
        a
    } else if pb <= pc {
        b
    } else {
        c
    }
}

/// The value that filter `ft` predicts for a byte from its left (`a`),
/// upper (`b`) and upper-left (`c`) neighbours.
pub open spec fn predictor(ft: u8, a: u8, b: u8, c: u8) -> u8 {
    if ft == FILTER_SUB {
        a
    } else if ft == FILTER_UP {
        b
    } else if ft == FILTER_AVERAGE {
        ((a as int + b as int) / 2) as u8
    } else if ft == FILTER_PAETH {
        paeth_spec(a, b, c)
    } else {
        0
    }
}

/// The byte `bpp` positions to the left of index `i` in `row`, or 0 in
/// the first pixel.
pub open spec fn left_of(row: Seq<u8>, i: int, bpp: nat) -> u8 {
    if i >= bpp { row[i - bpp] } else { 0 }
}

/// The row of `n` zero bytes that stands above the first scanline.
pub open spec fn zeros(n: nat) -> Seq<u8> {
    Seq::new(n, |i: int| 0u8)
}

/// The byte that filter `ft` stores at index `i` of the raw row `raw`
/// below the raw row `prev`.
pub open spec fn filtered_byte(ft: u8, raw: Seq<u8>, prev: Seq<u8>, i: int, bpp: nat) -> u8 {
    raw[i].wrapping_sub(predictor(ft, left_of(raw, i, bpp), prev[i], left_of(prev, i, bpp)))
}

/// Filter `ft` applied to the raw row `raw` below the raw row `prev`
/// (without the filter-type tag).
pub open spec fn filtered(ft: u8, raw: Seq<u8>, prev: Seq<u8>, bpp: nat) -> Seq<u8> {
    Seq::new(raw.len(), |i: int| filtered_byte(ft, raw, prev, i, bpp))
}

/// Filter `ft` undone on the filtered bytes `filt` below the
/// reconstructed row `prev`: each byte adds its prediction from the bytes
/// already reconstructed.
pub open spec fn reconstructed(ft: u8, filt: Seq<u8>, prev: Seq<u8>, bpp: nat) -> Seq<u8>
    decreases filt.len(),
{
    if filt.len() == 0 {
        Seq::empty()
    } else {
        let i = filt.len() - 1;
        let r = reconstructed(ft, filt.drop_last(), prev, bpp);
        r.push(filt[i].wrapping_add(predictor(ft, left_of(r, i, bpp), prev[i], left_of(prev, i, bpp))))
    }
}

/// The reconstructed row that stands above a scanline of `n` bytes,
/// given everything reconstructed so far: its last `n` bytes, or zeros
/// where there is no such row yet.
pub open spec fn prior_row(decoded: Seq<u8>, n: nat) -> Seq<u8> {
    if decoded.len() < n {
        zeros(n)
    } else {
        decoded.subrange(decoded.len() - n, decoded.len() as int)
    }
}

/// Bytes per pixel at a given bit depth: four channels of `depth / 8` bytes.
pub open spec fn bytes_per_pixel(depth: u8) -> nat {
    (depth / 2) as nat
}

pub open spec fn valid_depth(depth: u8) -> bool {
    depth == 8 || depth == 16
}

pub proof fn lemma_reconstructed_len(ft: u8, filt: Seq<u8>, prev: Seq<u8>, bpp: nat)
    ensures
        reconstructed(ft, filt, prev, bpp).len() == filt.len(),
    decreases filt.len(),
{
    if filt.len() > 0 {
        lemma_reconstructed_len(ft, filt.drop_last(), prev, bpp);
    }
}

/// Undoing a filter inverts it: for every filter type, every raw row and
/// every row above it (the zero row included), reconstructing the filtered
/// row gives the raw row back.
pub proof fn lemma_reconstruct_inverts_filter(ft: u8, raw: Seq<u8>, prev: Seq<u8>, bpp: nat)
    requires
        prev.len() >= raw.len(),
        bpp > 0,
    ensures
        reconstructed(ft, filtered(ft, raw, prev, bpp), prev, bpp) == raw,
    decreases raw.len(),
{
    if raw.len() > 0 {
        let f = filtered(ft, raw, prev, bpp);
        let shorter = raw.drop_last();
        assert(filtered(ft, shorter, prev, bpp) =~= f.drop_last());
        lemma_reconstruct_inverts_filter(ft, shorter, prev, bpp);
        let i = raw.len() - 1;
        assert(left_of(shorter, i, bpp) == left_of(raw, i, bpp));
        assert(reconstructed(ft, f, prev, bpp) =~= raw);
    }
}

/// The Paeth predictor of three equal neighbours is that value.
pub proof fn lemma_paeth_of_equal(v: u8)
    ensures
        paeth_spec(v, v, v) == v,
{
}

/// The Paeth predictor (see `paeth_spec`).
pub fn paeth_predictor(a: u8, b: u8, c: u8) -> (r: u8)
    ensures
        r == paeth_spec(a, b, c),
{
    let p: i32 = a as i32 + b as i32 - c as i32;
    let pa: i32 = if p >= a as i32 { p - a as i32 } else { a as i32 - p };
    let pb: i32 = if p >= b as i32 { p - b as i32 } else { b as i32 - p };
    let pc: i32 = if p >= c as i32 { p - c as i32 } else { c as i32 - p };
    if pa <= pb && pa <= pc {
        a
    } else if pb <= pc {
        b
    } else {
        c
    }
}

/// The prediction of filter `ft` (see `predictor`).
pub fn predict(ft: u8, a: u8, b: u8, c: u8) -> (r: u8)
    ensures
        r == predictor(ft, a, b, c),
{
    if ft == FILTER_SUB {
        a
    } else if ft == FILTER_UP {
        b
    } else if ft == FILTER_AVERAGE {
        ((a as u16 + b as u16) / 2) as u8
    } else if ft == FILTER_PAETH {
        paeth_predictor(a, b, c)
    } else {
        0
    }
}

/// The row above a raw scanline `raw` as the encoder holds it: `prev`
/// where it is a whole row of the same width, otherwise (first scanline)
/// the zero row.
pub open spec fn above_row(raw: Seq<u8>, prev: Seq<u8>) -> Seq<u8> {
    if prev.len() == raw.len() {
        prev
    } else {
        zeros(raw.len())
    }
}

/// The None filter leaves bytes unchanged, so undoing it does too.
pub proof fn lemma_reconstructed_none(filt: Seq<u8>, prev: Seq<u8>, bpp: nat)
    ensures
        reconstructed(FILTER_NONE, filt, prev, bpp) == filt,
    decreases filt.len(),
{
    if filt.len() > 0 {
        lemma_reconstructed_none(filt.drop_last(), prev, bpp);
        assert(reconstructed(FILTER_NONE, filt, prev, bpp) =~= filt);
    }
}

/// What an `apply_*_filter` call stores for a scanline, the matching
/// `*_defilter` call rebuilds: the decoder's row above (`prior_row` of what
/// it has decoded) is the encoder's row above (`above_row` of the previous
/// raw scanline), the zero row on the first scanline included.
pub proof fn lemma_defilter_inverts_apply(ft: u8, raw: Seq<u8>, prev: Seq<u8>, decoded: Seq<u8>, bpp: nat)
    requires
        bpp > 0,
        prior_row(decoded, raw.len()) == above_row(raw, prev),
    ensures
        reconstructed(ft, filtered(ft, raw, above_row(raw, prev), bpp), prior_row(decoded, raw.len()), bpp)
            == raw,
{
    lemma_reconstruct_inverts_filter(ft, raw, above_row(raw, prev), bpp);
}

/// Appends to `decode` the scanline `chunk` (filter-type byte first) with
/// filter `ft` undone, below the row that `prior_row` picks from `decode`.
fn unfilter_into(ft: u8, chunk: &[u8], bpp: usize, decode: &mut Vec<u8>)
    requires
        chunk.len() >= 1,
        bpp > 0,
        old(decode).len() + chunk.len() <= usize::MAX,
    ensures
        final(decode)@ == old(decode)@ + reconstructed(
            ft,
            chunk@.drop_first(),
            prior_row(old(decode)@, (chunk.len() - 1) as nat),
            bpp as nat,
        ),
{
    let n = chunk.len() - 1;
    let start = decode.len();
    let first = start < n;
    let ghost prev = prior_row(old(decode)@, n as nat);
    let ghost filt = chunk@.drop_first();
    let mut i: usize = 0;
    while i < n
        invariant
            n == chunk.len() - 1,
            start == old(decode).len(),
            start + chunk.len() <= usize::MAX,
            first == (start < n),
            bpp > 0,
            i <= n,
            prev == prior_row(old(decode)@, n as nat),
            filt == chunk@.drop_first(),
            decode@ == old(decode)@ + reconstructed(ft, filt.take(i as int), prev, bpp as nat),
        decreases n - i,
    {
        let ghost r = reconstructed(ft, filt.take(i as int), prev, bpp as nat);
        proof {
            lemma_reconstructed_len(ft, filt.take(i as int), prev, bpp as nat);
        }
        let up = if first { 0 } else { decode[start - n + i] };
        let left = if i >= bpp { decode[start + i - bpp] } else { 0 };
        let upleft = if i >= bpp && !first { decode[start - n + i - bpp] } else { 0 };
        let x = chunk[i + 1].wrapping_add(predict(ft, left, up, upleft));
        proof {
            assert(filt.take(i + 1).drop_last() =~= filt.take(i as int));
            assert(up == prev[i as int]);
            assert(left == left_of(r, i as int, bpp as nat));
            assert(upleft == left_of(prev, i as int, bpp as nat));
            assert(x == filt.take(i + 1)[i as int].wrapping_add(
                predictor(ft, left_of(r, i as int, bpp as nat), prev[i as int], left_of(prev, i as int, bpp as nat)),
            ));
        }
        decode.push(x);
        i += 1;
        proof {
            assert(decode@ =~= old(decode)@ + reconstructed(ft, filt.take(i as int), prev, bpp as nat));
        }
    }
    assert(filt.take(n as int) =~= filt);
}

/// Undoes the None filter: appends the scanline's bytes after its
/// filter-type byte unchanged.
pub fn none_defilter(chunk: &[u8], decode: &mut Vec<u8>)
    requires
        chunk.len() >= 1,
        old(decode).len() + chunk.len() <= usize::MAX,
    ensures
        final(decode)@ == old(decode)@ + chunk@.drop_first(),
{
    unfilter_into(FILTER_NONE, chunk, 1, decode);
    proof {
        lemma_reconstructed_none(chunk@.drop_first(), prior_row(old(decode)@, (chunk.len() - 1) as nat), 1);
    }
}

/// Undoes the Sub filter: each byte adds the reconstructed byte one pixel
/// to its left.
pub fn sub_defilter(chunk: &[u8], depth: u8, decode: &mut Vec<u8>)
    requires
        chunk.len() >= 1,
        valid_depth(depth),
        old(decode).len() + chunk.len() <= usize::MAX,
    ensures
        final(decode)@ == old(decode)@ + reconstructed(
            FILTER_SUB,
            chunk@.drop_first(),
            prior_row(old(decode)@, (chunk.len() - 1) as nat),
            bytes_per_pixel(depth),
        ),
{
    unfilter_into(FILTER_SUB, chunk, (depth / 2) as usize, decode);
}

/// Undoes the Up filter: each byte adds the reconstructed byte above it
/// (zero in the first scanline).
pub fn up_defilter(chunk: &[u8], width: u32, depth: u8, decode: &mut Vec<u8>)
    requires
        valid_depth(depth),
        chunk.len() == width * bytes_per_pixel(depth) + 1,
        old(decode).len() + chunk.len() <= usize::MAX,
    ensures
        final(decode)@ == old(decode)@ + reconstructed(
            FILTER_UP,
            chunk@.drop_first(),
            prior_row(old(decode)@, (chunk.len() - 1) as nat),
            bytes_per_pixel(depth),
        ),
{
    unfilter_into(FILTER_UP, chunk, (depth / 2) as usize, decode);
}

/// Undoes the Average filter: each byte adds the floor of the mean of the
/// reconstructed bytes to its left and above it.
pub fn avg_defilter(chunk: &[u8], width: u32, depth: u8, decode: &mut Vec<u8>)
    requires
        valid_depth(depth),
        chunk.len() == width * bytes_per_pixel(depth) + 1,
        old(decode).len() + chunk.len() <= usize::MAX,
    ensures
        final(decode)@ == old(decode)@ + reconstructed(
            FILTER_AVERAGE,
            chunk@.drop_first(),
            prior_row(old(decode)@, (chunk.len() - 1) as nat),
            bytes_per_pixel(depth),
        ),
{
    unfilter_into(FILTER_AVERAGE, chunk, (depth / 2) as usize, decode);
}

/// Undoes the Paeth filter: each byte adds the Paeth prediction from the
/// reconstructed bytes to its left, above it and above-left.
pub fn paeth_defilter(chunk: &[u8], width: u32, depth: u8, decode: &mut Vec<u8>)
    requires
        valid_depth(depth),
        chunk.len() == width * bytes_per_pixel(depth) + 1,
        old(decode).len() + chunk.len() <= usize::MAX,
    ensures
        final(decode)@ == old(decode)@ + reconstructed(
            FILTER_PAETH,
            chunk@.drop_first(),
            prior_row(old(decode)@, (chunk.len() - 1) as nat),
            bytes_per_pixel(depth),
        ),
{
    unfilter_into(FILTER_PAETH, chunk, (depth / 2) as usize, decode);
}

/// Filter `ft` applied to the raw scanline `raw` below the raw scanline
/// `prev`, prefixed with the filter-type byte.
fn filter_into(ft: u8, raw: &[u8], prev: &[u8], bpp: usize) -> (r: Vec<u8>)
    requires
        bpp > 0,
    ensures
        r@ == seq![ft] + filtered(ft, raw@, above_row(raw@, prev@), bpp as nat),
{
    let n = raw.len();
    let first = prev.len() != n;
    let ghost above = above_row(raw@, prev@);
    let ghost f = filtered(ft, raw@, above, bpp as nat);
    let mut out: Vec<u8> = Vec::new();
    out.push(ft);
    let mut i: usize = 0;
    while i < n
        invariant
            n == raw.len(),
            first == (prev.len() != n),
            bpp > 0,
            i <= n,
            above == above_row(raw@, prev@),
            f == filtered(ft, raw@, above, bpp as nat),
            out@ == seq![ft] + f.take(i as int),
        decreases n - i,
    {
        let up = if first { 0 } else { prev[i] };
        let left = if i >= bpp { raw[i - bpp] } else { 0 };
        let upleft = if i >= bpp && !first { prev[i - bpp] } else { 0 };
        let x = raw[i].wrapping_sub(predict(ft, left, up, upleft));
        proof {
            assert(up == above[i as int]);
            assert(upleft == left_of(above, i as int, bpp as nat));
            assert(x == f[i as int]);
        }
        out.push(x);
        i += 1;
        proof {
            assert(out@ =~= seq![ft] + f.take(i as int));
        }
    }
    assert(f.take(n as int) =~= f);
    out
}

/// The None filter: the filter-type byte, then the scanline unchanged.
pub fn apply_none_filter(chunk: &[u8]) -> (r: Vec<u8>)
    ensures
        r@ == seq![FILTER_NONE] + chunk@,
{
    let r = filter_into(FILTER_NONE, chunk, chunk, 1);
    assert(filtered(FILTER_NONE, chunk@, above_row(chunk@, chunk@), 1) =~= chunk@);
    r
}

/// The Sub filter: each byte less the byte one pixel to its left.
pub fn apply_sub_filter(chunk: &[u8], depth: u8) -> (r: Vec<u8>)
    requires
        valid_depth(depth),
    ensures
        r@ == seq![FILTER_SUB] + filtered(FILTER_SUB, chunk@, zeros(chunk@.len()), bytes_per_pixel(depth)),
{
    let r = filter_into(FILTER_SUB, chunk, chunk, (depth / 2) as usize);
    assert(filtered(FILTER_SUB, chunk@, above_row(chunk@, chunk@), bytes_per_pixel(depth))
        =~= filtered(FILTER_SUB, chunk@, zeros(chunk@.len()), bytes_per_pixel(depth)));
    r
}

/// The Up filter: each byte less the byte above it, `b_chunk` being the
/// raw scanline above (any other length stands for the zero row).
pub fn apply_up_filter(a_chunk: &[u8], b_chunk: &[u8]) -> (r: Vec<u8>)
    ensures
        r@ == seq![FILTER_UP] + Seq::new(
            a_chunk@.len(),
            |i: int| a_chunk@[i].wrapping_sub(above_row(a_chunk@, b_chunk@)[i]),
        ),
{
    let r = filter_into(FILTER_UP, a_chunk, b_chunk, 1);
    assert(filtered(FILTER_UP, a_chunk@, above_row(a_chunk@, b_chunk@), 1) =~= Seq::new(
        a_chunk@.len(),
        |i: int| a_chunk@[i].wrapping_sub(above_row(a_chunk@, b_chunk@)[i]),
    ));
    r
}

/// The Average filter: each byte less the floor of the mean of the bytes
/// to its left and above it.
pub fn apply_avg_filter(a_chunk: &[u8], b_chunk: &[u8], depth: u8) -> (r: Vec<u8>)
    requires
        valid_depth(depth),
    ensures
        r@ == seq![FILTER_AVERAGE] + filtered(
            FILTER_AVERAGE,
            a_chunk@,
            above_row(a_chunk@, b_chunk@),
            bytes_per_pixel(depth),
        ),
{
    filter_into(FILTER_AVERAGE, a_chunk, b_chunk, (depth / 2) as usize)
}

/// The Paeth filter: each byte less the Paeth prediction from the bytes
/// to its left, above it and above-left.
pub fn apply_paeth_filter(a_chunk: &[u8], b_chunk: &[u8], depth: u8) -> (r: Vec<u8>)
    requires
        valid_depth(depth),
    ensures
        r@ == seq![FILTER_PAETH] + filtered(
            FILTER_PAETH,
            a_chunk@,
            above_row(a_chunk@, b_chunk@),
            bytes_per_pixel(depth),
        ),
{
    filter_into(FILTER_PAETH, a_chunk, b_chunk, (depth / 2) as usize)
}

} // verus!

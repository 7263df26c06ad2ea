//! Whole pixel streams: reconstruction of every scanline on decode, and the
//! per-scanline choice of filter on encode.
use vstd::prelude::*;
use crate::adapters::{zlib_compress, zlib_compressed};
use crate::error::PngError;
use crate::filter::{
    above_row, apply_avg_filter, lemma_reconstruct_inverts_filter, zeros, apply_none_filter, apply_paeth_filter, apply_sub_filter,
    apply_up_filter, avg_defilter, bytes_per_pixel, filtered, lemma_reconstructed_len,
    lemma_reconstructed_none, none_defilter, paeth_defilter, prior_row, reconstructed,
    sub_defilter, up_defilter, valid_depth, FILTER_AVERAGE, FILTER_NONE, FILTER_PAETH,
    FILTER_SUB, FILTER_UP,
};
use crate::planes::{combine_samples, samples_of};

verus! {

/// The largest width and height accepted.
pub const MAX_DIMENSION: u32 = 65534;

/// The zlib effort used to measure each candidate scanline.
pub const TRIAL_LEVEL: u32 = 1;

/// The zlib effort used for the whole filtered stream.
pub const FINAL_LEVEL: u32 = 6;

/// The inflated pixel stream `data` with every scanline of `n` payload
/// bytes reconstructed and appended to `acc`; an error where the stream
/// ends inside a scanline or a scanline has an unknown filter type.
pub open spec fn unfiltered_stream(data: Seq<u8>, n: nat, bpp: nat, acc: Seq<u8>) -> Result<Seq<u8>, PngError>
    decreases data.len(),
{
    if data.len() == 0 {
        Ok(acc)
    } else if data.len() < n + 1 {
        Err(PngError::TruncatedScanline)
    } else if data[0] > FILTER_PAETH {
        Err(PngError::InvalidFilterType)
    } else {
        unfiltered_stream(
            data.subrange(n + 1 as int, data.len() as int),
            n,
            bpp,
            acc + reconstructed(data[0], data.subrange(1, n + 1 as int), prior_row(acc, n), bpp),
        )
    }
}

/// The bytes of one scanline of `width` pixels at `depth` bits.
pub open spec fn row_bytes(width: u32, depth: u8) -> nat {
    (width * bytes_per_pixel(depth)) as nat
}

/// Reconstructs every scanline of an inflated pixel stream and reads the
/// result as 16-bit RGBA samples.
pub fn get_unfilterd_idat(inflated: &[u8], width: u32, depth: u8) -> (r: Result<Vec<u16>, PngError>)
    requires
        valid_depth(depth),
        1 <= width <= MAX_DIMENSION,
    ensures
        match unfiltered_stream(inflated@, row_bytes(width, depth), bytes_per_pixel(depth), Seq::empty()) {
            Ok(bytes) => r is Ok && r->Ok_0@ == samples_of(bytes, depth),
            Err(e) => r is Err && r->Err_0 == e,
        },
{
    let bpp = (depth / 2) as usize;
    let n = width as usize * bpp;
    let ghost whole = unfiltered_stream(inflated@, n as nat, bpp as nat, Seq::empty());
    let mut decode: Vec<u8> = Vec::new();
    let mut pos: usize = 0;
    assert(inflated@.subrange(0, inflated.len() as int) =~= inflated@);
    while pos < inflated.len()
        invariant
            valid_depth(depth),
            bpp == bytes_per_pixel(depth),
            n == row_bytes(width, depth),
            pos <= inflated.len(),
            decode.len() <= pos,
            whole == unfiltered_stream(inflated@, n as nat, bpp as nat, Seq::empty()),
            whole == unfiltered_stream(inflated@.subrange(pos as int, inflated.len() as int), n as nat, bpp as nat, decode@),
        decreases inflated.len() - pos,
    {
        let ghost rest = inflated@.subrange(pos as int, inflated.len() as int);
        if inflated.len() - pos < n + 1 {
            return Err(PngError::TruncatedScanline);
        }
        let chunk = &inflated[pos..pos + n + 1];
        let ghost before = decode@;
        proof {
            assert(chunk@.drop_first() =~= rest.subrange(1, n + 1));
            assert(rest.subrange(n + 1, rest.len() as int) =~= inflated@.subrange(pos + n + 1, inflated.len() as int));
            lemma_reconstructed_len(chunk[0], chunk@.drop_first(), prior_row(before, n as nat), bpp as nat);
        }
        match chunk[0] {
            0 => none_defilter(chunk, &mut decode),
            1 => sub_defilter(chunk, depth, &mut decode),
            2 => up_defilter(chunk, width, depth, &mut decode),
            3 => avg_defilter(chunk, width, depth, &mut decode),
            4 => paeth_defilter(chunk, width, depth, &mut decode),
            _ => return Err(PngError::InvalidFilterType),
        }
        proof {
            if chunk[0] == FILTER_NONE {
                lemma_reconstructed_none(chunk@.drop_first(), prior_row(before, n as nat), bpp as nat);
            }
        }
        pos = pos + n + 1;
    }
    assert(inflated@.subrange(pos as int, inflated.len() as int).len() == 0);
    Ok(combine_samples(&decode, depth))
}

/// Which filter the encoder keeps, given the compressed size of each
/// candidate: the smallest, ties going to Paeth, then Average, Up, Sub.
pub open spec fn chosen_filter(none: nat, sub: nat, up: nat, avg: nat, paeth: nat) -> u8 {
    if paeth <= avg && paeth <= up && paeth <= sub && paeth <= none {
        FILTER_PAETH
    } else if avg <= up && avg <= sub && avg <= none {
        FILTER_AVERAGE
    } else if up <= sub && up <= none {
        FILTER_UP
    } else if sub <= none {
        FILTER_SUB
    } else {
        FILTER_NONE
    }
}

/// See `chosen_filter`.
pub fn choose_filter(none: usize, sub: usize, up: usize, avg: usize, paeth: usize) -> (r: u8)
    ensures
        r == chosen_filter(none as nat, sub as nat, up as nat, avg as nat, paeth as nat),
{
    if paeth <= avg && paeth <= up && paeth <= sub && paeth <= none {
        FILTER_PAETH
    } else if avg <= up && avg <= sub && avg <= none {
        FILTER_AVERAGE
    } else if up <= sub && up <= none {
        FILTER_UP
    } else if sub <= none {
        FILTER_SUB
    } else {
        FILTER_NONE
    }
}

/// The filter that `chosen_filter` keeps is one of the five, and no
/// candidate compresses smaller than it.
pub proof fn lemma_chosen_filter_is_smallest(none: nat, sub: nat, up: nat, avg: nat, paeth: nat)
    ensures
        ({
            let ft = chosen_filter(none, sub, up, avg, paeth);
            let size = if ft == FILTER_PAETH {
                paeth
            } else if ft == FILTER_AVERAGE {
                avg
            } else if ft == FILTER_UP {
                up
            } else if ft == FILTER_SUB {
                sub
            } else {
                none
            };
            ft <= FILTER_PAETH && size <= none && size <= sub && size <= up && size <= avg && size <= paeth
        }),
{
}

/// Scanline `raw`, below the raw scanline `prev`, under filter `ft` and
/// prefixed with its filter-type byte.
pub open spec fn candidate(ft: u8, raw: Seq<u8>, prev: Seq<u8>, bpp: nat) -> Seq<u8> {
    seq![ft] + filtered(ft, raw, above_row(raw, prev), bpp)
}

/// The compressed size by which the encoder measures a candidate.
pub open spec fn trial_size(ft: u8, raw: Seq<u8>, prev: Seq<u8>, bpp: nat) -> nat {
    zlib_compressed(candidate(ft, raw, prev, bpp), TRIAL_LEVEL).len()
}

/// The candidate that the encoder keeps for scanline `raw` below `prev`.
pub open spec fn best_candidate(raw: Seq<u8>, prev: Seq<u8>, bpp: nat) -> Seq<u8> {
    candidate(
        chosen_filter(
            trial_size(FILTER_NONE, raw, prev, bpp),
            trial_size(FILTER_SUB, raw, prev, bpp),
            trial_size(FILTER_UP, raw, prev, bpp),
            trial_size(FILTER_AVERAGE, raw, prev, bpp),
            trial_size(FILTER_PAETH, raw, prev, bpp),
        ),
        raw,
        prev,
        bpp,
    )
}

/// The filtered stream of the packed rows in `data`, each `n` bytes long
/// and below the raw row `prev` (any row of another length standing for
/// the zero row); bytes short of a whole row at the end are not rows.
pub open spec fn selected_stream(data: Seq<u8>, n: nat, bpp: nat, prev: Seq<u8>) -> Seq<u8>
    decreases data.len(),
{
    if n == 0 || data.len() < n {
        Seq::empty()
    } else {
        best_candidate(data.take(n as int), prev, bpp) + selected_stream(
            data.skip(n as int),
            n,
            bpp,
            data.take(n as int),
        )
    }
}

/// The compressed size of one candidate, or the compressor's failure.
fn trial(candidate: &Vec<u8>) -> (r: Result<usize, PngError>)
    ensures
        r is Ok,
        r is Ok ==> r->Ok_0 == zlib_compressed(candidate@, TRIAL_LEVEL).len(),
{
    match zlib_compress(candidate.as_slice(), TRIAL_LEVEL) {
        Ok(z) => Ok(z.len()),
        Err(e) => Err(e),
    }
}

/// Filters every whole row of `width` pixels of the packed bytes, each
/// with the filter whose candidate compresses smallest.
pub fn filter_scanlines(packed: &[u8], width: u32, depth: u8) -> (r: Result<Vec<u8>, PngError>)
    requires
        valid_depth(depth),
        1 <= width <= MAX_DIMENSION,
    ensures
        r is Ok,
        r is Ok ==> r->Ok_0@ == selected_stream(
            packed@,
            row_bytes(width, depth),
            bytes_per_pixel(depth),
            Seq::empty(),
        ),
{
    let bpp = (depth / 2) as usize;
    let n = width as usize * bpp;
    let ghost whole = selected_stream(packed@, n as nat, bpp as nat, Seq::empty());
    let mut out: Vec<u8> = Vec::new();
    let mut prev: Vec<u8> = Vec::new();
    let mut pos: usize = 0;
    assert(packed@.skip(0) =~= packed@);
    assert(out@ + whole =~= whole);
    while n <= packed.len() - pos
        invariant
            valid_depth(depth),
            bpp == bytes_per_pixel(depth),
            n == row_bytes(width, depth),
            n > 0,
            pos <= packed.len(),
            whole == selected_stream(packed@, n as nat, bpp as nat, Seq::empty()),
            whole == out@ + selected_stream(packed@.skip(pos as int), n as nat, bpp as nat, prev@),
        decreases packed.len() - pos,
    {
        let row = &packed[pos..pos + n];
        let none = apply_none_filter(row);
        let sub = apply_sub_filter(row, depth);
        let up = apply_up_filter(row, prev.as_slice());
        let avg = apply_avg_filter(row, prev.as_slice(), depth);
        let paeth = apply_paeth_filter(row, prev.as_slice(), depth);
        proof {
            assert(none@ =~= candidate(FILTER_NONE, row@, prev@, bpp as nat));
            assert(sub@ =~= candidate(FILTER_SUB, row@, prev@, bpp as nat));
            assert(up@ =~= candidate(FILTER_UP, row@, prev@, bpp as nat));
        }
        let none_size = match trial(&none) { Ok(s) => s, Err(e) => return Err(e) };
        let sub_size = match trial(&sub) { Ok(s) => s, Err(e) => return Err(e) };
        let up_size = match trial(&up) { Ok(s) => s, Err(e) => return Err(e) };
        let avg_size = match trial(&avg) { Ok(s) => s, Err(e) => return Err(e) };
        let paeth_size = match trial(&paeth) { Ok(s) => s, Err(e) => return Err(e) };
        let ft = choose_filter(none_size, sub_size, up_size, avg_size, paeth_size);
        let chosen = if ft == FILTER_PAETH {
            paeth
        } else if ft == FILTER_AVERAGE {
            avg
        } else if ft == FILTER_UP {
            up
        } else if ft == FILTER_SUB {
            sub
        } else {
            none
        };
        proof {
            let rest = packed@.skip(pos as int);
            assert(rest.take(n as int) =~= row@);
            assert(rest.skip(n as int) =~= packed@.skip(pos + n));
            assert(chosen@ == best_candidate(row@, prev@, bpp as nat));
        }
        out.extend_from_slice(chosen.as_slice());
        prev = Vec::new();
        prev.extend_from_slice(row);
        pos = pos + n;
        proof {
            assert(prev@ =~= row@);
        }
    }
    proof {
        assert(out@ + selected_stream(packed@.skip(pos as int), n as nat, bpp as nat, prev@) =~= out@);
    }
    Ok(out)
}

/// Reconstructing the stream that the encoder filtered gives back the raw
/// rows, whichever filter each row was given, when the decoder starts from
/// the row above that the encoder used.
pub proof fn lemma_unfilter_selected(data: Seq<u8>, k: nat, n: nat, bpp: nat, prev: Seq<u8>, acc: Seq<u8>)
    requires
        n > 0,
        bpp > 0,
        data.len() == k * n,
        prior_row(acc, n) == (if prev.len() == n { prev } else { zeros(n) }),
    ensures
        unfiltered_stream(selected_stream(data, n, bpp, prev), n, bpp, acc) == Ok::<Seq<u8>, PngError>(
            acc + data,
        ),
    decreases k,
{
    if k == 0 {
        assert(data.len() == 0) by (nonlinear_arith)
            requires
                data.len() == k * n,
                k == 0,
        ;
        assert(acc + data =~= acc);
    } else {
        assert(data.len() >= n && data.len() - n == (k - 1) * n) by (nonlinear_arith)
            requires
                data.len() == k * n,
                k >= 1,
        ;
        let row = data.take(n as int);
        let rest = data.skip(n as int);
        let above = above_row(row, prev);
        let ft = chosen_filter(
            trial_size(FILTER_NONE, row, prev, bpp),
            trial_size(FILTER_SUB, row, prev, bpp),
            trial_size(FILTER_UP, row, prev, bpp),
            trial_size(FILTER_AVERAGE, row, prev, bpp),
            trial_size(FILTER_PAETH, row, prev, bpp),
        );
        lemma_chosen_filter_is_smallest(
            trial_size(FILTER_NONE, row, prev, bpp),
            trial_size(FILTER_SUB, row, prev, bpp),
            trial_size(FILTER_UP, row, prev, bpp),
            trial_size(FILTER_AVERAGE, row, prev, bpp),
            trial_size(FILTER_PAETH, row, prev, bpp),
        );
        let f = filtered(ft, row, above, bpp);
        let sel = selected_stream(data, n, bpp, prev);
        let tail = selected_stream(rest, n, bpp, row);
        assert(sel == seq![ft] + f + tail);
        assert(sel[0] == ft);
        assert(sel.subrange(1, n + 1 as int) =~= f);
        assert(sel.subrange(n + 1 as int, sel.len() as int) =~= tail);
        lemma_reconstruct_inverts_filter(ft, row, above, bpp);
        let acc2 = acc + row;
        assert(prior_row(acc2, n) =~= row);
        lemma_unfilter_selected(rest, (k - 1) as nat, n, bpp, row, acc2);
        assert(acc2 + rest =~= acc + data);
    }
}

} // verus!

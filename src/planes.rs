//! Conversions between interleaved RGBA samples, separate color and alpha
//! planes, and packed sample bytes.
use vstd::prelude::*;

verus! {

/// The color plane of interleaved RGBA samples: the first three samples
/// of each pixel, in order.
pub open spec fn color_plane(rgba: Seq<u16>) -> Seq<u16>
    decreases rgba.len(),
{
    if rgba.len() < 4 {
        Seq::empty()
    } else {
        let n = rgba.len() as int;
        color_plane(rgba.take(n - 4)) + rgba.subrange(n - 4, n - 1)
    }
}

/// The alpha plane of interleaved RGBA samples: the fourth sample of each
/// pixel, in order.
pub open spec fn alpha_plane(rgba: Seq<u16>) -> Seq<u16>
    decreases rgba.len(),
{
    if rgba.len() < 4 {
        Seq::empty()
    } else {
        let n = rgba.len() as int;
        alpha_plane(rgba.take(n - 4)).push(rgba[n - 1])
    }
}

/// The interleaved RGBA samples of a color plane and an alpha plane: for
/// each pixel its three color samples, then its alpha sample.
pub open spec fn merged(rgb: Seq<u16>, alpha: Seq<u16>) -> Seq<u16>
    decreases alpha.len(),
{
    if alpha.len() == 0 {
        Seq::empty()
    } else {
        let j = alpha.len() - 1;
        merged(rgb.take(3 * j), alpha.drop_last()) + seq![
            rgb[3 * j],
            rgb[3 * j + 1],
            rgb[3 * j + 2],
            alpha[j],
        ]
    }
}

/// The bytes that one sample packs into at `depth` bits: its high byte,
/// then at depth 16 its low byte. Narrowing to 8 bits keeps the high byte.
pub open spec fn sample_bytes(v: u16, depth: u8) -> Seq<u8> {
    if depth == 16 {
        seq![(v / 256) as u8, (v % 256) as u8]
    } else {
        seq![(v / 256) as u8]
    }
}

/// Samples packed into bytes at `depth` bits, in order.
pub open spec fn packed(samples: Seq<u16>, depth: u8) -> Seq<u8>
    decreases samples.len(),
{
    if samples.len() == 0 {
        Seq::empty()
    } else {
        packed(samples.drop_last(), depth) + sample_bytes(samples.last(), depth)
    }
}

/// Sample bytes read back as 16-bit samples. At depth 16 each pair of
/// bytes is one big-endian sample (a trailing odd byte is dropped); at
/// depth 8 each byte `b` widens to `b * 257`, whose high byte is `b`.
pub open spec fn samples_of(bytes: Seq<u8>, depth: u8) -> Seq<u16> {
    if depth == 16 {
        Seq::new(bytes.len() / 2, |k: int| (bytes[2 * k] * 256 + bytes[2 * k + 1]) as u16)
    } else {
        Seq::new(bytes.len(), |k: int| (bytes[k] * 257) as u16)
    }
}

/// Splits interleaved RGBA samples into a color plane, appended to `rgb`,
/// and an alpha plane, appended to `alpha`.
pub fn get_rgb_a(rgba: &Vec<u16>, rgb: &mut Vec<u16>, alpha: &mut Vec<u16>)
    requires
        rgba.len() % 4 == 0,
    ensures
        final(rgb)@ == old(rgb)@ + color_plane(rgba@),
        final(alpha)@ == old(alpha)@ + alpha_plane(rgba@),
{
    let mut i: usize = 0;
    while i < rgba.len()
        invariant
            rgba.len() % 4 == 0,
            i % 4 == 0,
            i <= rgba.len(),
            rgb@ == old(rgb)@ + color_plane(rgba@.take(i as int)),
            alpha@ == old(alpha)@ + alpha_plane(rgba@.take(i as int)),
        decreases rgba.len() - i,
    {
        let ghost s = rgba@.take(i + 4);
        proof {
            assert(s.take(i as int) =~= rgba@.take(i as int));
            assert(s.subrange(i as int, i + 3) =~= seq![rgba[i as int], rgba[i + 1], rgba[i + 2]]);
        }
        rgb.push(rgba[i]);
        rgb.push(rgba[i + 1]);
        rgb.push(rgba[i + 2]);
        alpha.push(rgba[i + 3]);
        i += 4;
        proof {
            assert(rgb@ =~= old(rgb)@ + color_plane(rgba@.take(i as int)));
            assert(alpha@ =~= old(alpha)@ + alpha_plane(rgba@.take(i as int)));
        }
    }
    assert(rgba@.take(i as int) =~= rgba@);
}

/// Interleaves a color plane and an alpha plane into RGBA samples.
pub fn merge_planes(rgb: &Vec<u16>, alpha: &Vec<u16>) -> (r: Vec<u16>)
    requires
        rgb.len() == 3 * alpha.len(),
    ensures
        r@ == merged(rgb@, alpha@),
{
    let mut out: Vec<u16> = Vec::new();
    let mut j: usize = 0;
    while j < alpha.len()
        invariant
            rgb.len() == 3 * alpha.len(),
            j <= alpha.len(),
            out@ == merged(rgb@.take(3 * j), alpha@.take(j as int)),
        decreases alpha.len() - j,
    {
        proof {
            assert(rgb@.take(3 * j + 3).take(3 * j) =~= rgb@.take(3 * j));
            assert(alpha@.take(j + 1).drop_last() =~= alpha@.take(j as int));
        }
        out.push(rgb[3 * j]);
        out.push(rgb[3 * j + 1]);
        out.push(rgb[3 * j + 2]);
        out.push(alpha[j]);
        j += 1;
        proof {
            assert(out@ =~= merged(rgb@.take(3 * j), alpha@.take(j as int)));
        }
    }
    assert(rgb@.take(3 * j) =~= rgb@);
    assert(alpha@.take(j as int) =~= alpha@);
    out
}

/// Packs samples into bytes at `depth` bits (see `sample_bytes`).
pub fn pack_samples(samples: &Vec<u16>, depth: u8) -> (r: Vec<u8>)
    requires
        depth == 8 || depth == 16,
    ensures
        r@ == packed(samples@, depth),
{
    let mut out: Vec<u8> = Vec::new();
    let mut k: usize = 0;
    while k < samples.len()
        invariant
            depth == 8 || depth == 16,
            k <= samples.len(),
            out@ == packed(samples@.take(k as int), depth),
        decreases samples.len() - k,
    {
        proof {
            assert(samples@.take(k + 1).drop_last() =~= samples@.take(k as int));
        }
        let v = samples[k];
        out.push((v / 256) as u8);
        if depth == 16 {
            out.push((v % 256) as u8);
        }
        k += 1;
        proof {
            assert(out@ =~= packed(samples@.take(k as int), depth));
        }
    }
    assert(samples@.take(k as int) =~= samples@);
    out
}

/// Reads sample bytes back as 16-bit samples (see `samples_of`).
pub fn combine_samples(bytes: &Vec<u8>, depth: u8) -> (r: Vec<u16>)
    ensures
        r@ == samples_of(bytes@, depth),
{
    let mut out: Vec<u16> = Vec::new();
    if depth == 16 {
        let count = bytes.len() / 2;
        let mut k: usize = 0;
        while k < count
            invariant
                count == bytes.len() / 2,
                k <= count,
                out.len() == k,
                forall|j: int| 0 <= j < k ==> out@[j] == (bytes@[2 * j] * 256 + bytes@[2 * j + 1]) as u16,
            decreases count - k,
        {
            out.push(bytes[2 * k] as u16 * 256 + bytes[2 * k + 1] as u16);
            k += 1;
        }
    } else {
        let mut k: usize = 0;
        while k < bytes.len()
            invariant
                k <= bytes.len(),
                out.len() == k,
                forall|j: int| 0 <= j < k ==> out@[j] == (bytes@[j] * 257) as u16,
            decreases bytes.len() - k,
        {
            out.push(bytes[k] as u16 * 257);
            k += 1;
        }
    }
    assert(out@ =~= samples_of(bytes@, depth));
    out
}

/// Interleaving `n` pixels gives `4 n` samples.
pub proof fn lemma_merged_len(rgb: Seq<u16>, alpha: Seq<u16>)
    requires
        rgb.len() >= 3 * alpha.len(),
    ensures
        merged(rgb, alpha).len() == 4 * alpha.len(),
    decreases alpha.len(),
{
    if alpha.len() > 0 {
        lemma_merged_len(rgb.take(3 * (alpha.len() - 1)), alpha.drop_last());
    }
}

/// Splitting interleaved planes gives the planes back.
pub proof fn lemma_split_merged(rgb: Seq<u16>, alpha: Seq<u16>)
    requires
        rgb.len() == 3 * alpha.len(),
    ensures
        color_plane(merged(rgb, alpha)) == rgb,
        alpha_plane(merged(rgb, alpha)) == alpha,
    decreases alpha.len(),
{
    let s = merged(rgb, alpha);
    if alpha.len() == 0 {
        assert(rgb =~= Seq::<u16>::empty());
        assert(alpha =~= Seq::<u16>::empty());
    } else {
        let j = alpha.len() - 1;
        let r0 = rgb.take(3 * j);
        let a0 = alpha.drop_last();
        lemma_split_merged(r0, a0);
        lemma_merged_len(r0, a0);
        assert(s.take(s.len() - 4) =~= merged(r0, a0));
        assert(color_plane(s) =~= rgb);
        assert(alpha_plane(s) =~= alpha);
    }
}

/// Each sample packs at depth 16 into its high byte, then its low byte.
pub proof fn lemma_packed16(s: Seq<u16>)
    ensures
        packed(s, 16).len() == 2 * s.len(),
        forall|k: int|
            0 <= k < s.len() ==> packed(s, 16)[2 * k] == (s[k] / 256) as u8 && packed(s, 16)[2 * k + 1]
                == (s[k] % 256) as u8,
    decreases s.len(),
{
    if s.len() > 0 {
        let q = s.drop_last();
        lemma_packed16(q);
        let p = packed(s, 16);
        assert forall|k: int| 0 <= k < s.len() implies p[2 * k] == (s[k] / 256) as u8 && p[2 * k + 1] == (
        s[k] % 256) as u8 by {
            if k < s.len() - 1 {
                assert(q[k] == s[k]);
            }
        }
    }
}

/// Reading 16-bit samples back from their packed bytes gives the samples.
pub proof fn lemma_samples_of_packed16(s: Seq<u16>)
    ensures
        samples_of(packed(s, 16), 16) == s,
{
    lemma_packed16(s);
    let p = packed(s, 16);
    assert forall|k: int| 0 <= k < s.len() implies (p[2 * k] * 256 + p[2 * k + 1]) as u16 == s[k] by {
        let v = s[k];
        assert((v / 256) * 256 + v % 256 == v);
    }
    assert(samples_of(p, 16) =~= s);
}

} // verus!

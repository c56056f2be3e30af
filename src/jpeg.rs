use vstd::prelude::*;
use crate::error::Error;
use crate::primitives::{decode_jpeg, inflate, jpeg_decoded, zlib_inflated};

verus! {

/// Whether the erroneous header `FF D9 FF D8`, which encoders before version 8
/// of the container format could emit, starts at position `n` of `s`.
pub open spec fn erroneous_header_at(s: Seq<u8>, n: int) -> bool {
    &&& 0 <= n
    &&& n + 4 <= s.len()
    &&& s[n] == 0xFF
    &&& s[n + 1] == 0xD9
    &&& s[n + 2] == 0xFF
    &&& s[n + 3] == 0xD8
}

/// The first position at or after `from` where an erroneous header starts with
/// at least one byte after it; `s.len()` when there is none.
pub open spec fn first_inner_header(s: Seq<u8>, from: int) -> int
    decreases s.len() - from,
{
    if from < 0 || from + 4 >= s.len() {
        s.len() as int
    } else if erroneous_header_at(s, from) {
        from
    } else {
        first_inner_header(s, from + 1)
    }
}

/// `s` without an erroneous header at its start.
pub open spec fn without_leading_header(s: Seq<u8>) -> Seq<u8> {
    if erroneous_header_at(s, 0) {
        s.skip(4)
    } else {
        s
    }
}

/// The repaired stream: a leading erroneous header dropped, then the first
/// erroneous header that has a byte after it cut out.
pub open spec fn repaired_jpeg(s: Seq<u8>) -> Seq<u8> {
    let t = without_leading_header(s);
    let p = first_inner_header(t, 0);
    if p < t.len() {
        t.take(p) + t.skip(p + 4)
    } else {
        t
    }
}

/// A stream that the repair leaves alone.
pub open spec fn is_clean_jpeg(s: Seq<u8>) -> bool {
    !erroneous_header_at(s, 0) && first_inner_header(s, 0) == s.len()
}

/// `tables` without its trailing EOI marker, then `data` without its leading SOI marker.
pub open spec fn glued_jpeg(tables: Seq<u8>, data: Seq<u8>) -> Seq<u8> {
    tables.take(tables.len() - 2) + data.skip(2)
}

fn push_range(out: &mut Vec<u8>, data: &[u8], from: usize, to: usize)
    requires
        from <= to <= data@.len(),
    ensures
        final(out)@ == old(out)@ + data@.subrange(from as int, to as int),
{
    let mut i = from;
    while i < to
        invariant
            from <= i <= to <= data@.len(),
            out@ == old(out)@ + data@.subrange(from as int, i as int),
        decreases to - i,
    {
        out.push(data[i]);
        assert(data@.subrange(from as int, i + 1) == data@.subrange(from as int, i as int).push(
            data@[i as int],
        ));
        i = i + 1;
    }
}

/// Joins a shared JPEG tables stream with the stream of one image.
pub fn glue_swf_jpeg_to_tables(jpeg_tables: &[u8], jpeg_data: &[u8]) -> (r: Vec<u8>)
    requires
        jpeg_tables@.len() >= 2,
        jpeg_data@.len() >= 2,
    ensures
        r@ == glued_jpeg(jpeg_tables@, jpeg_data@),
{
    let mut full_jpeg: Vec<u8> = Vec::new();
    push_range(&mut full_jpeg, jpeg_tables, 0, jpeg_tables.len() - 2);
    push_range(&mut full_jpeg, jpeg_data, 2, jpeg_data.len());
    assert(full_jpeg@ =~= glued_jpeg(jpeg_tables@, jpeg_data@));
    full_jpeg
}

fn header_at(data: &[u8], n: usize) -> (r: bool)
    ensures
        r == erroneous_header_at(data@, n as int),
{
    n <= data.len() && data.len() - n >= 4 && data[n] == 0xFF && data[n + 1] == 0xD9 && data[n + 2]
        == 0xFF && data[n + 3] == 0xD8
}

/// Removes the erroneous headers that legacy encoders put into JPEG streams.
///
/// A stream that starts with `FF D9 FF D8` loses those four bytes; then the
/// first later occurrence that has at least one byte after it is cut out.
/// The result borrows the input when nothing is cut out, and is a copy
/// exactly when something is.
pub fn remove_invalid_jpeg_data(data: &[u8]) -> (r: std::borrow::Cow<[u8]>)
    ensures
        r@ == repaired_jpeg(data@),
        r is Borrowed <==> first_inner_header(without_leading_header(data@), 0)
            == without_leading_header(data@).len(),
{
    let start: usize = if header_at(data, 0) {
        4
    } else {
        0
    };
    let ghost t = without_leading_header(data@);
    assert(t =~= data@.subrange(start as int, data@.len() as int));
    let mut n: usize = start;
    let mut found = false;
    while data.len() - n > 4
        invariant_except_break
            !found,
        invariant
            start <= n <= data@.len(),
            t == data@.subrange(start as int, data@.len() as int),
            first_inner_header(t, 0) == first_inner_header(t, n - start),
        ensures
            start <= n <= data@.len(),
            found ==> first_inner_header(t, 0) == n - start && n + 4 < data@.len(),
            !found ==> first_inner_header(t, 0) == t.len(),
        decreases data@.len() - n,
    {
        assert(erroneous_header_at(data@, n as int) == erroneous_header_at(t, n - start));
        if header_at(data, n) {
            found = true;
            break;
        }
        n = n + 1;
    }
    if found {
        let len = data.len();
        let mut out: Vec<u8> = Vec::new();
        push_range(&mut out, data, start, n);
        push_range(&mut out, data, n + 4, len);
        assert(out@ =~= repaired_jpeg(data@));
        std::borrow::Cow::Owned(out)
    } else {
        std::borrow::Cow::Borrowed(vstd::slice::slice_subrange(data, start, data.len()))
    }
}

proof fn lemma_first_inner_header(s: Seq<u8>, from: int)
    requires
        0 <= from,
    ensures
        first_inner_header(s, from) == s.len() || (from <= first_inner_header(s, from)
            && first_inner_header(s, from) + 4 < s.len() && erroneous_header_at(
            s,
            first_inner_header(s, from),
        )),
    decreases s.len() - from,
{
    if from + 4 < s.len() && !erroneous_header_at(s, from) {
        lemma_first_inner_header(s, from + 1);
    }
}

proof fn lemma_repair_shortens(s: Seq<u8>)
    ensures
        is_clean_jpeg(s) ==> repaired_jpeg(s) == s,
        !is_clean_jpeg(s) ==> repaired_jpeg(s).len() < s.len(),
{
    let t = without_leading_header(s);
    lemma_first_inner_header(s, 0);
    lemma_first_inner_header(t, 0);
}

/// Repairing a second time changes nothing exactly when the first repair
/// left a clean stream: no erroneous header at the start, and none later
/// with a byte after it. A clean stream passes through unchanged.
pub proof fn lemma_repair_idempotent(s: Seq<u8>)
    ensures
        repaired_jpeg(repaired_jpeg(s)) == repaired_jpeg(s) <==> is_clean_jpeg(repaired_jpeg(s)),
        is_clean_jpeg(s) ==> repaired_jpeg(s) == s,
{
    lemma_repair_shortens(s);
    lemma_repair_shortens(repaired_jpeg(s));
}

/// RGBA bytes of the first `n` pixels: pixel `i` takes its red, green and blue
/// from `rgb[3i..3i+3]` and its alpha from `alpha[i]`.
pub open spec fn rgba_pixels(rgb: Seq<u8>, alpha: Seq<u8>, n: nat) -> Seq<u8>
    decreases n,
{
    if n == 0 {
        Seq::empty()
    } else {
        let i = n - 1;
        rgba_pixels(rgb, alpha, (n - 1) as nat) + seq![
            rgb[3 * i],
            rgb[3 * i + 1],
            rgb[3 * i + 2],
            alpha[i],
        ]
    }
}

/// The merged image holds four bytes for each of its `width * height` pixels.
pub proof fn lemma_rgba_pixels_len(rgb: Seq<u8>, alpha: Seq<u8>, n: nat)
    ensures
        rgba_pixels(rgb, alpha, n).len() == 4 * n,
    decreases n,
{
    if n > 0 {
        lemma_rgba_pixels_len(rgb, alpha, (n - 1) as nat);
    }
}

/// A decoded `width` x `height` RGB image merged with an inflated alpha plane.
pub open spec fn merged_rgba(width: u16, height: u16, rgb: Seq<u8>, alpha: Seq<u8>) -> Result<
    Seq<u8>,
    Error,
> {
    let n = width * height;
    if rgb.len() != 3 * n || alpha.len() < n {
        Err(Error::SizeMismatch)
    } else {
        Ok(rgba_pixels(rgb, alpha, n as nat))
    }
}

/// What a JPEG stream with a compressed alpha plane decodes to: width,
/// height and RGBA bytes. A stream that the decoder rejects, or whose frame
/// uses the lossless process, is a `DecodeError`.
pub open spec fn jpeg_to_rgba(jpeg_data: Seq<u8>, alpha_data: Seq<u8>) -> Result<
    (u32, u32, Seq<u8>),
    Error,
> {
    match jpeg_decoded(repaired_jpeg(jpeg_data)) {
        None => Err(Error::DecodeError),
        Some(image) => match zlib_inflated(alpha_data) {
            None => Err(Error::InflateError),
            Some(alpha) => match merged_rgba(image.0, image.1, image.2, alpha) {
                Ok(rgba) => Ok((image.0 as u32, image.1 as u32, rgba)),
                Err(e) => Err(e),
            },
        },
    }
}

/// Merges the RGB pixels of a decoded `width` x `height` image with an alpha
/// plane into RGBA. Fails with `SizeMismatch` unless `rgb` holds exactly three
/// bytes per pixel and `alpha` at least one per pixel.
pub fn rgb_with_alpha(width: u16, height: u16, rgb: &[u8], alpha: &[u8]) -> (r: Result<
    Vec<u8>,
    Error,
>)
    ensures
        r matches Ok(v) ==> merged_rgba(width, height, rgb@, alpha@) == Ok::<Seq<u8>, Error>(v@),
        r matches Err(e) ==> merged_rgba(width, height, rgb@, alpha@) == Err::<Seq<u8>, Error>(e),
        r matches Ok(v) ==> v@.len() == 4 * (width * height),
{
    proof {
        lemma_rgba_pixels_len(rgb@, alpha@, (width * height) as nat);
    }
    assert((width as u64) * (height as u64) <= 0xffff * 0xffff) by (nonlinear_arith)
        requires
            width <= 0xffff,
            height <= 0xffff,
    ;
    let n: u64 = (width as u64) * (height as u64);
    let rgb_len = rgb.len();
    if (rgb_len as u64) % 3 != 0 || (rgb_len as u64) / 3 != n || (alpha.len() as u64) < n {
        return Err(Error::SizeMismatch);
    }
    let n = n as usize;
    let mut rgba: Vec<u8> = Vec::new();
    let mut i: usize = 0;
    while i < n
        invariant
            i <= n,
            n == width * height,
            rgb@.len() == 3 * n,
            rgb_len == rgb@.len(),
            alpha@.len() >= n,
            rgba@ == rgba_pixels(rgb@, alpha@, i as nat),
        decreases n - i,
    {
        rgba.push(rgb[3 * i]);
        rgba.push(rgb[3 * i + 1]);
        rgba.push(rgb[3 * i + 2]);
        rgba.push(alpha[i]);
        assert(rgba@ =~= rgba_pixels(rgb@, alpha@, (i + 1) as nat));
        i = i + 1;
    }
    Ok(rgba)
}

/// Decodes a JPEG stream, after repairing it, and merges it with an alpha
/// plane given as a zlib stream. Fails with `DecodeError` when the JPEG
/// decoder rejects the repaired stream or its frame uses the lossless
/// process, with `InflateError` when the alpha plane does not inflate, and
/// with `SizeMismatch` when the decoded sizes disagree with the image's
/// dimensions.
pub fn define_bits_jpeg_to_rgba(jpeg_data: &[u8], alpha_data: &[u8]) -> (r: Result<
    (u32, u32, Vec<u8>),
    Error,
>)
    ensures
        r matches Ok(t) ==> jpeg_to_rgba(jpeg_data@, alpha_data@) == Ok::<
            (u32, u32, Seq<u8>),
            Error,
        >((t.0, t.1, t.2@)),
        r matches Err(e) ==> jpeg_to_rgba(jpeg_data@, alpha_data@) == Err::<
            (u32, u32, Seq<u8>),
            Error,
        >(e),
        r matches Ok(t) ==> t.2@.len() == 4 * (t.0 * t.1),
{
    let jpeg_data = remove_invalid_jpeg_data(jpeg_data);
    let repaired: &[u8] = match &jpeg_data {
        std::borrow::Cow::Borrowed(b) => b,
        std::borrow::Cow::Owned(v) => v.as_slice(),
    };
    let (width, height, pixels) = match decode_jpeg(repaired) {
        Some((width, height, false, pixels)) => (width, height, pixels),
        _ => return Err(Error::DecodeError),
    };
    let alpha = match inflate(alpha_data) {
        Some(alpha) => alpha,
        None => return Err(Error::InflateError),
    };
    let rgba = rgb_with_alpha(width, height, pixels.as_slice(), alpha.as_slice())?;
    Ok((width as u32, height as u32, rgba))
}

} // verus!

use vstd::prelude::*;

verus! {

/// What a zlib (DEFLATE) stream inflates to, or `None` for a corrupt stream.
pub uninterp spec fn zlib_inflated(data: Seq<u8>) -> Option<Seq<u8>>;

/// What the JPEG decoder makes of a DCT-coded stream: width, height and the
/// pixel bytes, interleaved per pixel. `None` when it rejects the stream, and
/// for a frame coded with the lossless process, whose samples it hands back
/// in the machine's byte order.
pub uninterp spec fn jpeg_decoded(data: Seq<u8>) -> Option<(u16, u16, Seq<u8>)>;

/// Relies on libflate::zlib::Decoder (`new`, then `read_to_end`): the bytes that a
/// zlib stream inflates to, or an error for a corrupt stream.
#[verifier::external_body]
pub(crate) fn inflate(data: &[u8]) -> (r: Option<Vec<u8>>)
    ensures
        r is None <==> zlib_inflated(data@) is None,
        r matches Some(v) ==> zlib_inflated(data@) == Some(v@),
{
    let mut decoder = libflate::zlib::Decoder::new(data).ok()?;
    let mut out = Vec::new();
    std::io::Read::read_to_end(&mut decoder, &mut out).ok()?;
    Some(out)
}

/// Relies on jpeg_decoder::Decoder (`decode`, then `info`): the decoded pixels
/// of a JPEG stream with the image's width and height and whether its frame
/// uses the lossless process, or an error when the stream is malformed or
/// uses an unsupported feature. The decoder is built with its
/// `platform_independent` feature, which leaves out the SIMD paths chosen at
/// run time, so a DCT-coded stream decodes to the same pixels on every machine.
#[verifier::external_body]
pub(crate) fn decode_jpeg(data: &[u8]) -> (r: Option<(u16, u16, bool, Vec<u8>)>)
    ensures
        r is None ==> jpeg_decoded(data@) is None,
        r matches Some(t) ==> (t.2 ==> jpeg_decoded(data@) is None),
        r matches Some(t) ==> (!t.2 ==> jpeg_decoded(data@) == Some((t.0, t.1, t.3@))),
{
    let mut decoder = jpeg_decoder::Decoder::new(data);
    let pixels = decoder.decode().ok()?;
    let info = decoder.info()?;
    let lossless = match info.coding_process {
        jpeg_decoder::CodingProcess::DctSequential => false,
        jpeg_decoder::CodingProcess::DctProgressive => false,
        jpeg_decoder::CodingProcess::Lossless => true,
    };
    Some((info.width, info.height, lossless, pixels))
}

} // verus!

//! Lossless compression of file bodies.
//!
//! Brotli is an outside collaborator. What the compressor emits is
//! named by [`brotli_c`], what the decompressor makes of a stream by
//! [`brotli_d`]; that the one inverts the other is stated where the
//! compressor is called, so every decoder of an encoder's output is
//! covered.
use vstd::prelude::*;

use crate::Error;

verus! {

/// The brotli stream that compressing `data` at a quality and window
/// size produces.
pub uninterp spec fn brotli_c(data: Seq<u8>, quality: u32, window_size: u32) -> Seq<u8>;

/// What the brotli decompressor makes of a byte stream: the decoded
/// bytes, or `None` when the stream is malformed.
pub uninterp spec fn brotli_d(data: Seq<u8>) -> Option<Seq<u8>>;

/// A file body as it goes to the wire: empty files carry no stream at
/// all, everything else the brotli stream.
pub open spec fn spec_compressed(data: Seq<u8>, quality: u32, window_size: u32) -> Seq<u8> {
    if data.len() == 0 {
        Seq::empty()
    } else {
        brotli_c(data, quality, window_size)
    }
}

/// A file body as it comes off the wire: an absent stream decodes to
/// the empty file, everything else goes through the decompressor.
pub open spec fn spec_decompressed(stream: Seq<u8>) -> Option<Seq<u8>> {
    if stream.len() == 0 {
        Some(Seq::empty())
    } else {
        brotli_d(stream)
    }
}

/// Relies on `brotli::BrotliCompress`: the stream is a function of the
/// input bytes, the quality and the window size; it is never empty;
/// and `brotli::BrotliDecompress` decodes it back to the input.
#[verifier::external_body]
pub(crate) fn brotli_compress(data: &[u8], quality: u32, window_size: u32) -> (res: Vec<u8>)
    requires
        1 <= quality <= 11,
        10 <= window_size <= 24,
    ensures
        res@ == brotli_c(data@, quality, window_size),
        res@.len() > 0,
        brotli_d(res@) == Some::<Seq<u8>>(data@),
{
    let mut params = brotli::enc::BrotliEncoderParams::default();
    params.quality = quality as i32;
    params.lgwin = window_size as i32;
    let mut out: Vec<u8> = Vec::new();
    let mut input: &[u8] = data;
    brotli::BrotliCompress(&mut input, &mut out, &params).unwrap();
    out
}

/// Relies on `brotli::BrotliDecompress`: the decoded bytes are a
/// function of the stream alone; a malformed stream is refused.
#[verifier::external_body]
pub(crate) fn brotli_decompress(data: &[u8]) -> (res: Result<Vec<u8>, Error>)
    ensures
        res is Ok <==> brotli_d(data@) is Some,
        res matches Ok(out) ==> brotli_d(data@) == Some(out@),
        res matches Err(e) ==> e == Error::IO,
{
    let mut out: Vec<u8> = Vec::new();
    let mut input: &[u8] = data;
    match brotli::BrotliDecompress(&mut input, &mut out) {
        Ok(()) => Ok(out),
        Err(_) => Err(Error::IO),
    }
}

} // verus!

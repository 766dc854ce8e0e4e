//! Deflate compression, as loose objects and packfile entries use it.
//!
//! A zlib stream is self-terminating: inflating reads exactly one stream
//! from the front of its input and reports how many bytes it consumed, which
//! is how the packfile decoder finds where the next entry begins.
use vstd::prelude::*;

verus! {

/// What the compressor emits for `data`: a function of the bytes alone at
/// the fixed compression level this crate uses.
pub uninterp spec fn zlib_deflate(data: Seq<u8>) -> Seq<u8>;

/// What inflating the front of `data` yields: the decompressed bytes and
/// the number of compressed bytes consumed, or `None` when no well-formed
/// zlib stream starts there.
pub uninterp spec fn zlib_inflate(data: Seq<u8>) -> Option<(Seq<u8>, nat)>;

/// Relies on flate2's `write::ZlibEncoder` at a fixed level: the stream it
/// emits depends on the input bytes alone, and inflating it back from the
/// front of any longer sequence yields the input and consumes exactly the
/// stream, since zlib streams are self-terminating.
#[verifier::external_body]
pub fn deflate(data: &[u8]) -> (r: Vec<u8>)
    ensures
        r@ == zlib_deflate(data@),
        forall|rest: Seq<u8>|
            zlib_inflate(#[trigger] (r@ + rest)) == Some((data@, r@.len())),
{
    let mut enc = flate2::write::ZlibEncoder::new(Vec::new(), flate2::Compression::fast());
    std::io::Write::write_all(&mut enc, data).expect("writing to a Vec cannot fail");
    enc.finish().expect("writing to a Vec cannot fail")
}

/// Relies on flate2's `read::ZlibDecoder`: reading it to the end inflates
/// the single zlib stream at the front of the input, consuming exactly that
/// stream and failing when it is malformed or truncated; the outcome depends
/// on the bytes alone.
#[verifier::external_body]
pub fn inflate_from(data: &[u8], start: usize) -> (r: Option<(Vec<u8>, usize)>)
    requires
        start <= data@.len(),
    ensures
        match r {
            Some((out, end)) => match zlib_inflate(data@.skip(start as int)) {
                Some((o, used)) => out@ == o && end == start + used && end <= data@.len(),
                None => false,
            },
            None => zlib_inflate(data@.skip(start as int)) is None,
        },
{
    let mut dec = flate2::read::ZlibDecoder::new(&data[start..]);
    let mut out = Vec::new();
    match std::io::Read::read_to_end(&mut dec, &mut out) {
        Ok(_) => Some((out, start + dec.total_in() as usize)),
        Err(_) => None,
    }
}

} // verus!

//! The content-encoding body codec.
//!
//! A response body arrives compressed with `gzip`, `br` or `deflate`;
//! rewriting needs the plain text, so the pipeline decodes, rewrites and
//! encodes again with the same algorithm. The compressors come from an
//! outside crate; what each decoder yields is a function of the input
//! bytes alone and is given a name here, so the callers' contracts are
//! exact up to that name.

use vstd::prelude::*;

use vstd::string::StringSliceAdditionalSpecFns;
use vstd::string::StrSliceExecFns;
use vstd::utf8::valid_utf8;

use futures_lite::io::AsyncReadExt;

use crate::domain::bytes_eq;

verus! {

/// What decoding a gzip stream yields: the plain bytes, or nothing when
/// the stream is malformed. Decoding is a function of the bytes alone.
pub uninterp spec fn gzip_decoded(data: Seq<u8>) -> Option<Seq<u8>>;

/// What decoding a Brotli stream yields, as for gzip.
pub uninterp spec fn brotli_decoded(data: Seq<u8>) -> Option<Seq<u8>>;

/// What decoding a raw deflate stream yields, as for gzip.
pub uninterp spec fn deflate_decoded(data: Seq<u8>) -> Option<Seq<u8>>;

/// Whether the gzip encoder accepts the buffer; encoding too is a
/// function of the bytes alone.
pub uninterp spec fn gzip_encodable(data: Seq<u8>) -> bool;

/// Whether the Brotli encoder accepts the buffer.
pub uninterp spec fn brotli_encodable(data: Seq<u8>) -> bool;

/// Whether the deflate encoder accepts the buffer.
pub uninterp spec fn deflate_encodable(data: Seq<u8>) -> bool;

/// Relies on std's `str::from_utf8`: returns whether the bytes are valid
/// UTF-8, the condition under which a body is rewritten at all.
#[verifier::external_body]
pub fn is_utf8(data: &Vec<u8>) -> (r: bool)
    ensures
        r == valid_utf8(data@),
{
    std::str::from_utf8(data).is_ok()
}

/// Relies on `async_compression::futures::bufread::GzipDecoder`, read to
/// the end through `futures_lite`: decompresses the whole buffer, failing
/// exactly on malformed input. The outcome depends on the input alone and
/// is named `gzip_decoded`.
#[verifier::external_body]
fn gzip_decode(data: &Vec<u8>) -> (r: Option<Vec<u8>>)
    ensures
        match r {
            Some(v) => gzip_decoded(data@) == Some(v@),
            None => gzip_decoded(data@) is None,
        },
{
    let mut dec = async_compression::futures::bufread::GzipDecoder::new(&data[..]);
    let mut out: Vec<u8> = Vec::new();
    match futures_lite::future::block_on(dec.read_to_end(&mut out)) {
        Ok(_) => Some(out),
        Err(_) => None,
    }
}

/// Relies on `async_compression::futures::bufread::GzipEncoder`:
/// compresses the buffer; whether it accepts the buffer depends on the
/// bytes alone (`gzip_encodable`), and decoding its output yields the
/// input again (the gzip round trip).
#[verifier::external_body]
fn gzip_encode(data: &Vec<u8>) -> (r: Option<Vec<u8>>)
    ensures
        r is Some <==> gzip_encodable(data@),
        r matches Some(v) ==> gzip_decoded(v@) == Some(data@),
{
    let mut enc = async_compression::futures::bufread::GzipEncoder::new(&data[..]);
    let mut out: Vec<u8> = Vec::new();
    match futures_lite::future::block_on(enc.read_to_end(&mut out)) {
        Ok(_) => Some(out),
        Err(_) => None,
    }
}

/// Relies on `async_compression::futures::bufread::BrotliDecoder`; as the
/// gzip decoder, with the outcome named `brotli_decoded`.
#[verifier::external_body]
fn brotli_decode(data: &Vec<u8>) -> (r: Option<Vec<u8>>)
    ensures
        match r {
            Some(v) => brotli_decoded(data@) == Some(v@),
            None => brotli_decoded(data@) is None,
        },
{
    let mut dec = async_compression::futures::bufread::BrotliDecoder::new(&data[..]);
    let mut out: Vec<u8> = Vec::new();
    match futures_lite::future::block_on(dec.read_to_end(&mut out)) {
        Ok(_) => Some(out),
        Err(_) => None,
    }
}

/// Relies on `async_compression::futures::bufread::BrotliEncoder`; as the
/// gzip encoder, with acceptance named `brotli_encodable`.
#[verifier::external_body]
fn brotli_encode(data: &Vec<u8>) -> (r: Option<Vec<u8>>)
    ensures
        r is Some <==> brotli_encodable(data@),
        r matches Some(v) ==> brotli_decoded(v@) == Some(data@),
{
    let mut enc = async_compression::futures::bufread::BrotliEncoder::new(&data[..]);
    let mut out: Vec<u8> = Vec::new();
    match futures_lite::future::block_on(enc.read_to_end(&mut out)) {
        Ok(_) => Some(out),
        Err(_) => None,
    }
}

/// Relies on `async_compression::futures::bufread::DeflateDecoder`; as
/// the gzip decoder, with the outcome named `deflate_decoded`.
#[verifier::external_body]
fn deflate_decode(data: &Vec<u8>) -> (r: Option<Vec<u8>>)
    ensures
        match r {
            Some(v) => deflate_decoded(data@) == Some(v@),
            None => deflate_decoded(data@) is None,
        },
{
    let mut dec = async_compression::futures::bufread::DeflateDecoder::new(&data[..]);
    let mut out: Vec<u8> = Vec::new();
    match futures_lite::future::block_on(dec.read_to_end(&mut out)) {
        Ok(_) => Some(out),
        Err(_) => None,
    }
}

/// Relies on `async_compression::futures::bufread::DeflateEncoder`; as
/// the gzip encoder, with acceptance named `deflate_encodable`.
#[verifier::external_body]
fn deflate_encode(data: &Vec<u8>) -> (r: Option<Vec<u8>>)
    ensures
        r is Some <==> deflate_encodable(data@),
        r matches Some(v) ==> deflate_decoded(v@) == Some(data@),
{
    let mut enc = async_compression::futures::bufread::DeflateEncoder::new(&data[..]);
    let mut out: Vec<u8> = Vec::new();
    match futures_lite::future::block_on(enc.read_to_end(&mut out)) {
        Ok(_) => Some(out),
        Err(_) => None,
    }
}

/// A recognized content encoding.
#[derive(PartialEq, Eq, Structural, Clone, Copy, Debug)]
pub enum Encoding {
    Gzip,
    Brotli,
    Deflate,
}

/// Which encoding a `Content-Encoding` header value names; matching is
/// exact, as the upstream sends the lower-case token.
pub open spec fn spec_encoding_of(v: Seq<u8>) -> Option<Encoding> {
    if v == "gzip".spec_bytes() {
        Some(Encoding::Gzip)
    } else if v == "br".spec_bytes() {
        Some(Encoding::Brotli)
    } else if v == "deflate".spec_bytes() {
        Some(Encoding::Deflate)
    } else {
        None
    }
}

/// Recognize a `Content-Encoding` header value.
pub fn encoding_of(v: &Vec<u8>) -> (r: Option<Encoding>)
    ensures
        r == spec_encoding_of(v@),
{
    if bytes_eq(v, &"gzip".as_bytes_vec()) {
        Some(Encoding::Gzip)
    } else if bytes_eq(v, &"br".as_bytes_vec()) {
        Some(Encoding::Brotli)
    } else if bytes_eq(v, &"deflate".as_bytes_vec()) {
        Some(Encoding::Deflate)
    } else {
        None
    }
}

/// What decoding a stream of the given encoding yields.
pub open spec fn spec_decoded(enc: Encoding, data: Seq<u8>) -> Option<Seq<u8>> {
    match enc {
        Encoding::Gzip => gzip_decoded(data),
        Encoding::Brotli => brotli_decoded(data),
        Encoding::Deflate => deflate_decoded(data),
    }
}

/// Whether the encoder of the given encoding accepts the buffer.
pub open spec fn spec_encodable(enc: Encoding, data: Seq<u8>) -> bool {
    match enc {
        Encoding::Gzip => gzip_encodable(data),
        Encoding::Brotli => brotli_encodable(data),
        Encoding::Deflate => deflate_encodable(data),
    }
}

/// Decode a whole body; `None` exactly on malformed input.
pub fn decode_payload(enc: Encoding, data: &Vec<u8>) -> (r: Option<Vec<u8>>)
    ensures
        match r {
            Some(v) => spec_decoded(enc, data@) == Some(v@),
            None => spec_decoded(enc, data@) is None,
        },
{
    match enc {
        Encoding::Gzip => gzip_decode(data),
        Encoding::Brotli => brotli_decode(data),
        Encoding::Deflate => deflate_decode(data),
    }
}

/// Encode a whole body with the given algorithm; succeeds exactly when
/// the encoder accepts the buffer, and decoding the result yields the
/// input again.
pub fn encode_payload(enc: Encoding, data: &Vec<u8>) -> (r: Option<Vec<u8>>)
    ensures
        r is Some <==> spec_encodable(enc, data@),
        r matches Some(v) ==> spec_decoded(enc, v@) == Some(data@),
{
    match enc {
        Encoding::Gzip => gzip_encode(data),
        Encoding::Brotli => brotli_encode(data),
        Encoding::Deflate => deflate_encode(data),
    }
}

} // verus!

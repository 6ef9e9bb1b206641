//! The compact form of a load test for shareable links: its serialized bytes
//! zlib-compressed, then written in URL-safe base64 without padding.
use vstd::prelude::*;
use base64::Engine;
use std::io::Read;
use crate::metrics::{WrkMetrics, metrics_of};

verus! {

#[verifier::external_type_specification]
#[verifier::external_body]
pub struct ExDecodeError(base64::DecodeError);

#[verifier::external_type_specification]
#[verifier::external_body]
pub struct ExIoError(std::io::Error);

/// The zlib stream that flate2 writes for `b` at its best compression.
pub uninterp spec fn zlib_of(b: Seq<u8>) -> Seq<u8>;

/// A symbol of the URL-safe base64 alphabet: `A`-`Z`, `a`-`z`, `0`-`9`, `-`,
/// `_` stand for 0 to 63.
pub open spec fn base64_symbol(v: nat) -> char {
    if v < 26 {
        (65 + v) as char
    } else if v < 52 {
        (97 + v - 26) as char
    } else if v < 62 {
        (48 + v - 52) as char
    } else if v == 62 {
        '-'
    } else {
        '_'
    }
}

/// URL-safe base64 without padding: every three bytes give four symbols of
/// six bits each, and a last one or two bytes give two or three symbols, the
/// unused low bits zero.
pub open spec fn base64_url_of(b: Seq<u8>) -> Seq<char>
    decreases b.len(),
{
    if b.len() == 0 {
        Seq::empty()
    } else {
        let b0 = b[0] as nat;
        let b1 = if b.len() > 1 { b[1] as nat } else { 0 };
        let b2 = if b.len() > 2 { b[2] as nat } else { 0 };
        let first = seq![base64_symbol(b0 / 4), base64_symbol((b0 % 4) * 16 + b1 / 16)];
        if b.len() == 1 {
            first
        } else if b.len() == 2 {
            first.push(base64_symbol((b1 % 16) * 4))
        } else {
            first.push(base64_symbol((b1 % 16) * 4 + b2 / 64)).push(base64_symbol(b2 % 64))
                + base64_url_of(b.subrange(3, b.len() as int))
        }
    }
}

/// What flate2's zlib decoder reads from `b`: the bytes, or `None` where it
/// fails.
pub uninterp spec fn inflate_of(b: Seq<u8>) -> Option<Seq<u8>>;

/// Relies on flate2's `read::ZlibEncoder` at `Compression::best()`: reading
/// it to the end gives the zlib stream of `b`. Over a slice the deflater
/// fails only on bad parameters, and the stream holds at least the two-byte
/// header and the four-byte Adler-32 trailer.
#[verifier::external_body]
fn zlib_compress(b: &Vec<u8>) -> (r: Result<Vec<u8>, std::io::Error>)
    ensures
        r is Ok,
        r matches Ok(z) ==> z@ == zlib_of(b@) && z@.len() >= 6,
{
    let mut encoder = flate2::read::ZlibEncoder::new(b.as_slice(), flate2::Compression::best());
    let mut out = Vec::new();
    match encoder.read_to_end(&mut out) {
        Ok(_) => Ok(out),
        Err(e) => Err(e),
    }
}

/// Relies on flate2's `read::ZlibDecoder`: reading it to the end depends on
/// the bytes alone, fails on a corrupt or incomplete stream, and gives back
/// the bytes that a zlib stream was made from.
#[verifier::external_body]
fn zlib_decompress(b: &Vec<u8>) -> (r: Result<Vec<u8>, std::io::Error>)
    ensures
        r is Ok <==> inflate_of(b@) is Some,
        r matches Ok(v) ==> inflate_of(b@) == Some(v@),
        forall|x: Seq<u8>| b@ == zlib_of(x) ==> r is Ok && r->Ok_0@ == x,
{
    let mut decoder = flate2::read::ZlibDecoder::new(b.as_slice());
    let mut out = Vec::new();
    match decoder.read_to_end(&mut out) {
        Ok(_) => Ok(out),
        Err(e) => Err(e),
    }
}

/// Relies on base64's `URL_SAFE_NO_PAD.encode`, which panics only where the
/// length of the text overflows `usize`.
#[verifier::external_body]
fn base64_encode(b: &Vec<u8>) -> (r: String)
    requires
        b@.len() / 3 * 4 + 3 <= usize::MAX,
    ensures
        r@ == base64_url_of(b@),
{
    base64::engine::general_purpose::URL_SAFE_NO_PAD.encode(b)
}

/// Relies on base64's `URL_SAFE_NO_PAD.decode`, which accepts exactly the
/// texts that `encode` writes (no padding, no trailing bits) and gives back
/// their bytes.
#[verifier::external_body]
fn base64_decode(s: &str) -> (r: Result<Vec<u8>, base64::DecodeError>)
    ensures
        r matches Ok(v) ==> s@ == base64_url_of(v@),
        forall|x: Seq<u8>| s@ == base64_url_of(x) ==> r is Ok && r->Ok_0@ == x,
{
    base64::engine::general_purpose::URL_SAFE_NO_PAD.decode(s)
}

/// Why a link does not give back a load test, by the stage that failed.
#[derive(Debug)]
pub enum Error {
    /// The text is not URL-safe base64.
    Base64Decode(base64::DecodeError),
    /// The bytes do not hold a load test; the decoder's message.
    Deserialize(String),
    /// The zlib stream could not be written or read.
    Compression(std::io::Error),
    /// The compressed bytes are too many for their text to fit in memory.
    Oversize,
}

/// A parsed report with the description and tags that its author gave it.
#[derive(Clone, Debug, PartialEq, Eq)]
pub struct Loadtest {
    pub metrics: WrkMetrics,
    pub description: Option<String>,
    pub tags: Vec<String>,
}

impl Loadtest {
    /// The load test of a report; an empty description counts as none.
    pub fn new(data: &str, desc: String, tags: Vec<String>) -> (r: Loadtest)
        ensures
            r.metrics@ == metrics_of(data@),
            r.description == (if desc@.len() == 0 {
                None
            } else {
                Some(desc)
            }),
            r.tags == tags,
    {
        let metrics = WrkMetrics::from(data);
        let description = if desc.as_str().is_empty() {
            None
        } else {
            Some(desc)
        };
        Loadtest { metrics, description, tags }
    }
}

/// Whether `c` may stand in a URL unescaped as a base64 symbol.
pub open spec fn url_safe(c: char) -> bool {
    ('A' <= c && c <= 'Z') || ('a' <= c && c <= 'z') || ('0' <= c && c <= '9') || c == '-' || c
        == '_'
}

/// The text of non-empty bytes is non-empty, and made of URL-safe symbols
/// only.
pub proof fn lemma_base64_url_safe(b: Seq<u8>)
    ensures
        b.len() > 0 ==> base64_url_of(b).len() > 0,
        forall|i: int| 0 <= i < base64_url_of(b).len() ==> url_safe(#[trigger] base64_url_of(b)[i]),
    decreases b.len(),
{
    if b.len() > 0 {
        let t = base64_url_of(b);
        let b0 = b[0] as nat;
        let b1 = if b.len() > 1 { b[1] as nat } else { 0 };
        let b2 = if b.len() > 2 { b[2] as nat } else { 0 };
        assert forall|v: nat| v < 64 implies url_safe(#[trigger] base64_symbol(v)) by {}
        assert((b0 % 4) * 16 + b1 / 16 < 64);
        assert((b1 % 16) * 4 + b2 / 64 < 64);
        let first = seq![base64_symbol(b0 / 4), base64_symbol((b0 % 4) * 16 + b1 / 16)];
        if b.len() == 1 {
            assert(t == first);
        } else if b.len() == 2 {
            assert(t == first.push(base64_symbol((b1 % 16) * 4)));
        } else {
            let rest = b.subrange(3, b.len() as int);
            lemma_base64_url_safe(rest);
            let head = first.push(base64_symbol((b1 % 16) * 4 + b2 / 64)).push(
                base64_symbol(b2 % 64),
            );
            assert(t == head + base64_url_of(rest));
            assert forall|i: int| 0 <= i < t.len() implies url_safe(#[trigger] t[i]) by {
                if i >= 4 {
                    assert(t[i] == base64_url_of(rest)[i - 4]);
                }
            }
        }
    }
}

/// The link text of serialized bytes: it fails only where that text would
/// not fit in memory.
pub fn encode_payload(bytes: &Vec<u8>) -> (r: Result<String, Error>)
    ensures
        match r {
            Ok(s) => s@ == base64_url_of(zlib_of(bytes@)) && s@.len() > 0 && forall|i: int|
                0 <= i < s@.len() ==> url_safe(#[trigger] s@[i]),
            Err(e) => e is Oversize,
        },
        r is Err <==> zlib_of(bytes@).len() / 3 * 4 + 3 > usize::MAX,
{
    let compressed = match zlib_compress(bytes) {
        Ok(z) => z,
        Err(e) => return Err(Error::Compression(e)),
    };
    if compressed.len() / 3 > (usize::MAX - 3) / 4 {
        return Err(Error::Oversize);
    }
    proof {
        lemma_base64_url_safe(compressed@);
    }
    Ok(base64_encode(&compressed))
}

/// The serialized bytes of a link text. The text of bytes that
/// `encode_payload` wrote gives them back; a text that is not base64 fails
/// at that stage, and base64 of bytes that the zlib decoder refuses fails at
/// the next.
pub fn decode_payload(hash: &str) -> (r: Result<Vec<u8>, Error>)
    ensures
        forall|x: Seq<u8>| hash@ == base64_url_of(zlib_of(x)) ==> (r matches Ok(v) && v@ == x),
        (r matches Err(Error::Base64Decode(_))) <==> !(exists|x: Seq<u8>| hash@ == base64_url_of(x)),
        forall|x: Seq<u8>| hash@ == base64_url_of(x) ==> match inflate_of(x) {
            Some(v) => r matches Ok(w) && w@ == v,
            None => r matches Err(Error::Compression(_)),
        },
        r matches Err(e) ==> (e is Base64Decode || e is Compression),
{
    let data = match base64_decode(hash) {
        Ok(d) => d,
        Err(e) => return Err(Error::Base64Decode(e)),
    };
    match zlib_decompress(&data) {
        Ok(v) => Ok(v),
        Err(e) => Err(Error::Compression(e)),
    }
}

} // verus!

//! Gzip compression of bytes, and of strings carried as base64 text.

use vstd::prelude::*;
use vstd::string::StringExecFns;
use vstd::utf8::{decode_utf8, encode_utf8, encode_utf8_decode_utf8, encode_utf8_valid_utf8, valid_utf8};
use std::io::{Read, Write};
use base64::Engine;
use flate2::read::GzDecoder;
use flate2::write::GzEncoder;
use flate2::Compression;
use crate::error::VaultError;
use crate::text::has_prefix;

verus! {

/// The gzip stream that `flate2`'s `GzEncoder` writes for `data` at the default
/// level (its header is fixed: no time stamp, operating system 255).
pub uninterp spec fn gzip_bytes(data: Seq<u8>) -> Seq<u8>;

/// What `flate2`'s `GzDecoder` reads out of `data`, or `None` when `data` is
/// not a gzip stream it accepts.
pub uninterp spec fn gunzip_bytes(data: Seq<u8>) -> Option<Seq<u8>>;

/// The standard base64 digit for a value below 64: `A`-`Z`, `a`-`z`, `0`-`9`,
/// `+`, `/`.
pub open spec fn base64_digit(v: int) -> char {
    if v < 26 {
        ('A' as int + v) as char
    } else if v < 52 {
        ('a' as int + (v - 26)) as char
    } else if v < 62 {
        ('0' as int + (v - 52)) as char
    } else if v == 62 {
        '+'
    } else {
        '/'
    }
}

/// The standard (padded) base64 encoding of `bytes`: each group of three
/// bytes becomes four digits of six bits each; a last group of one or two
/// bytes is padded with `=` to four characters.
pub open spec fn base64_text(bytes: Seq<u8>) -> Seq<char>
    decreases bytes.len(),
{
    if bytes.len() == 0 {
        Seq::empty()
    } else if bytes.len() == 1 {
        let a = bytes[0] as int;
        seq![base64_digit(a / 4), base64_digit((a % 4) * 16), '=', '=']
    } else if bytes.len() == 2 {
        let a = bytes[0] as int;
        let b = bytes[1] as int;
        seq![base64_digit(a / 4), base64_digit((a % 4) * 16 + b / 16), base64_digit((b % 16) * 4), '=']
    } else {
        let a = bytes[0] as int;
        let b = bytes[1] as int;
        let c = bytes[2] as int;
        seq![base64_digit(a / 4), base64_digit((a % 4) * 16 + b / 16), base64_digit((b % 16) * 4 + c / 64),
            base64_digit(c % 64)] + base64_text(bytes.skip(3))
    }
}

/// The bytes that the standard base64 engine decodes from `text`, or `None`
/// when `text` is not valid standard base64. That engine requires canonical
/// padding and no trailing bits, so it accepts exactly the texts that
/// `base64_text` writes.
pub open spec fn base64_bytes(text: Seq<char>) -> Option<Seq<u8>> {
    if exists|b: Seq<u8>| #[trigger] base64_text(b) == text {
        Some(choose|b: Seq<u8>| #[trigger] base64_text(b) == text)
    } else {
        None
    }
}

/// Compresses with `flate2::write::GzEncoder` over a `Vec` at
/// `Compression::default()`: `write_all`, then `finish`. The stream is named
/// `gzip_bytes`. The encoder's writes fail only when the inner writer fails,
/// and writing to a `Vec` does not fail, so the call is stated to succeed; the
/// `Err` arm only converts the error type.
#[verifier::external_body]
fn gzip(data: &[u8]) -> (r: Result<Vec<u8>, String>)
    ensures
        r is Ok,
        r->Ok_0@ == gzip_bytes(data@),
{
    let mut encoder = GzEncoder::new(Vec::new(), Compression::default());
    encoder.write_all(data).map_err(|e| e.to_string())?;
    encoder.finish().map_err(|e| e.to_string())
}

/// Decompresses with `flate2::read::GzDecoder` and `read_to_end`. It succeeds
/// exactly when `gunzip_bytes` gives bytes, and then returns them; decoding a
/// stream that `GzEncoder` wrote gives back what was compressed.
#[verifier::external_body]
fn gunzip(data: &[u8]) -> (r: Result<Vec<u8>, String>)
    ensures
        r is Ok <==> gunzip_bytes(data@) is Some,
        r is Ok ==> r->Ok_0@ == gunzip_bytes(data@)->0,
        forall|d: Seq<u8>| data@ == #[trigger] gzip_bytes(d) ==> (r is Ok && r->Ok_0@ == d),
{
    let mut decoder = GzDecoder::new(data);
    let mut out = Vec::new();
    decoder.read_to_end(&mut out).map_err(|e| e.to_string())?;
    Ok(out)
}

/// `base64::engine::general_purpose::STANDARD.encode`, the engine behind
/// `base64::encode`: the standard padded encoding, `base64_text`.
#[verifier::external_body]
fn base64_encode(bytes: &[u8]) -> (r: String)
    ensures
        r@ == base64_text(bytes@),
{
    base64::engine::general_purpose::STANDARD.encode(bytes)
}

/// `base64::engine::general_purpose::STANDARD.decode`, the engine behind
/// `base64::decode`. It succeeds exactly when `base64_bytes` gives bytes, and
/// then returns them; decoding what the engine encoded gives back the bytes.
#[verifier::external_body]
fn base64_decode(text: &str) -> (r: Result<Vec<u8>, String>)
    ensures
        r is Ok <==> base64_bytes(text@) is Some,
        r is Ok ==> r->Ok_0@ == base64_bytes(text@)->0,
        forall|b: Seq<u8>| text@ == #[trigger] base64_text(b) ==> (r is Ok && r->Ok_0@ == b),
{
    base64::engine::general_purpose::STANDARD.decode(text).map_err(|e| e.to_string())
}

/// `String::from_utf8`: the string that the bytes encode, or the error's message
/// when they are not valid UTF-8.
#[verifier::external_body]
fn utf8_string(bytes: Vec<u8>) -> (r: Result<String, String>)
    ensures
        r is Ok <==> valid_utf8(bytes@),
        r is Ok ==> r->Ok_0@ == decode_utf8(bytes@),
{
    String::from_utf8(bytes).map_err(|e| e.to_string())
}

/// `s` with `prefix` in front of it, as an owned string.
fn prefixed(prefix: &str, s: &str) -> (r: String)
    ensures
        r@ == prefix@ + s@,
        has_prefix(r@, prefix@),
{
    let r = String::from_str(prefix).concat(s);
    assert(r@.subrange(0, prefix@.len() as int) =~= prefix@);
    r
}

/// Gzip-compresses `data`.
pub fn compress(data: &[u8]) -> (r: Result<Vec<u8>, VaultError>)
    ensures
        r is Ok,
        r->Ok_0@ == gzip_bytes(data@),
{
    match gzip(data) {
        Ok(v) => Ok(v),
        Err(e) => Err(VaultError::Io(e)),
    }
}

/// Decompresses a gzip stream; fails with an I/O error when `data` is not one.
pub fn decompress(data: &[u8]) -> (r: Result<Vec<u8>, VaultError>)
    ensures
        r is Ok <==> gunzip_bytes(data@) is Some,
        r is Ok ==> r->Ok_0@ == gunzip_bytes(data@)->0,
        r is Err ==> r->Err_0 is Io,
        forall|d: Seq<u8>| data@ == #[trigger] gzip_bytes(d) ==> (r is Ok && r->Ok_0@ == d),
{
    match gunzip(data) {
        Ok(v) => Ok(v),
        Err(e) => Err(VaultError::Io(e)),
    }
}

/// The text that `compress_string` gives for `s`: its UTF-8 bytes, gzipped,
/// in base64.
pub open spec fn compressed_text(s: Seq<char>) -> Seq<char> {
    base64_text(gzip_bytes(encode_utf8(s)))
}

/// Gzip-compresses the UTF-8 bytes of `input` and returns them in base64.
pub fn compress_string(input: &str) -> (r: Result<String, VaultError>)
    ensures
        r is Ok,
        r->Ok_0@ == compressed_text(input@),
{
    let compressed = compress(input.as_bytes());
    match compressed {
        Ok(c) => Ok(base64_encode(c.as_slice())),
        Err(e) => Err(e),
    }
}

/// The bytes that base64 text decompresses to, if it is base64 of a gzip stream.
pub open spec fn unpacked(t: Seq<char>) -> Option<Seq<u8>> {
    match base64_bytes(t) {
        Some(b) => gunzip_bytes(b),
        None => None,
    }
}

/// Reads base64 text, decompresses it and decodes the result as UTF-8. Each
/// step that fails gives its own error: bad base64 and bad UTF-8 a generic
/// error whose message names the step, a bad gzip stream an I/O error. What
/// `compress_string` produced comes back as the string it was given.
pub fn decompress_string(input: &str) -> (r: Result<String, VaultError>)
    ensures
        base64_bytes(input@) is None ==> (r matches Err(e) && e is Generic
            && has_prefix(e.msg(), "base64 decode error: "@)),
        base64_bytes(input@) is Some && unpacked(input@) is None ==> (r matches Err(e) && e is Io),
        unpacked(input@) matches Some(raw) ==> (!valid_utf8(raw) ==> (r matches Err(e) && e is Generic
            && has_prefix(e.msg(), "utf8 decode error: "@))),
        unpacked(input@) matches Some(raw) ==> (valid_utf8(raw) ==> (r is Ok && r->Ok_0@ == decode_utf8(raw))),
        forall|s: Seq<char>| input@ == #[trigger] compressed_text(s) ==> (r is Ok && r->Ok_0@ == s),
{
    let decoded = base64_decode(input);
    let compressed = match decoded {
        Ok(c) => c,
        Err(e) => {
            return Err(VaultError::Generic(prefixed("base64 decode error: ", e.as_str())));
        },
    };
    let raw = match decompress(compressed.as_slice()) {
        Ok(raw) => raw,
        Err(e) => {
            return Err(e);
        },
    };
    let ghost raw_view = raw@;
    let out = utf8_string(raw);
    proof {
        assert forall|s: Seq<char>| input@ == #[trigger] compressed_text(s) implies (out is Ok && out->Ok_0@ == s) by {
            encode_utf8_valid_utf8(s);
            encode_utf8_decode_utf8(s);
            assert(compressed@ == gzip_bytes(encode_utf8(s)));
            assert(raw_view == encode_utf8(s));
        }
    }
    match out {
        Ok(text) => Ok(text),
        Err(e) => Err(VaultError::Generic(prefixed("utf8 decode error: ", e.as_str()))),
    }
}

} // verus!

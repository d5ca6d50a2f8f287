//! Compression and decompression of project data with BZip2, and the Base64
//! transport encoding used when datasets travel inside JSON messages.

use std::io::{Read, Write};

use vstd::prelude::*;
use vstd::string::*;
use vstd::utf8::*;

use crate::utils::text::{join_bytes, strs_bytes, NEWLINE};

verus! {

/// The standard library's I/O error, which the BZip2 coders report.
#[verifier::external_type_specification]
#[verifier::external_body]
pub struct ExIoError(std::io::Error);

/// The BZip2 stream that the `bzip2` crate produces, at its best compression
/// level, when all of `data` is written into a fresh encoder that is then
/// finished.
pub uninterp spec fn bzip2_compressed(data: Seq<u8>) -> Seq<u8>;

/// What the `bzip2` crate's reading decoder gives for `data`: the contents of
/// the BZip2 stream that `data` starts with, or `None` when it does not start
/// with a whole one.
pub uninterp spec fn bzip2_decompressed(data: Seq<u8>) -> Option<Seq<u8>>;

/// The character of the standard Base64 alphabet for the six bits `v`:
/// `A`-`Z`, `a`-`z`, `0`-`9`, `+` and `/`.
pub open spec fn base64_char(v: int) -> char {
    if v < 26 {
        (65 + v) as char
    } else if v < 52 {
        (97 + v - 26) as char
    } else if v < 62 {
        (48 + v - 52) as char
    } else if v == 62 {
        '+'
    } else {
        '/'
    }
}

/// The standard, padded Base64 encoding of `data`: every three bytes become
/// four characters of six bits each, and a last group of one or two bytes
/// is completed with zero bits and padded with `=` to four characters.
pub open spec fn base64_encoded(data: Seq<u8>) -> Seq<char>
    decreases data.len(),
{
    if data.len() == 0 {
        seq![]
    } else if data.len() == 1 {
        let b0 = data[0] as int;
        seq![base64_char(b0 / 4), base64_char((b0 % 4) * 16), '=', '=']
    } else if data.len() == 2 {
        let b0 = data[0] as int;
        let b1 = data[1] as int;
        seq![
            base64_char(b0 / 4),
            base64_char((b0 % 4) * 16 + b1 / 16),
            base64_char((b1 % 16) * 4),
            '=',
        ]
    } else {
        let b0 = data[0] as int;
        let b1 = data[1] as int;
        let b2 = data[2] as int;
        seq![
            base64_char(b0 / 4),
            base64_char((b0 % 4) * 16 + b1 / 16),
            base64_char((b1 % 16) * 4 + b2 / 64),
            base64_char(b2 % 64),
        ] + base64_encoded(data.skip(3))
    }
}

/// The bytes that the `base64` crate decodes from the standard Base64 text
/// `data`, or `None` when it rejects the text.
pub uninterp spec fn base64_decoded(data: Seq<u8>) -> Option<Seq<u8>>;

/// Compresses `bytes` with `bzip2::write::BzEncoder` at `Compression::best()`:
/// `write_all` of the bytes into an encoder over a vector, then `finish`.
///
/// The result is named by `bzip2_compressed`, and is a single BZip2 stream
/// that the crate's decoder turns back into `bytes` (the round trip that the
/// crate's own tests check). The encoder only reports errors of the writer
/// beneath it, and writing to a vector never fails, so the result is always
/// `Ok`.
#[verifier::external_body]
fn bzip2_compress(bytes: &[u8]) -> (compressed: Result<Vec<u8>, std::io::Error>)
    ensures
        compressed is Ok,
        compressed matches Ok(c) ==> c@ == bzip2_compressed(bytes@),
        compressed matches Ok(c) ==> bzip2_decompressed(c@) == Some(bytes@),
{
    let mut encoder = bzip2::write::BzEncoder::new(vec![], bzip2::Compression::best());
    encoder.write_all(bytes)?;
    encoder.finish()
}

/// Decompresses `data` with `bzip2::read::BzDecoder`: `read_to_end` from a
/// decoder over the data into a vector.
///
/// The result is `Ok` exactly when `bzip2_decompressed` gives a value, and is
/// then that value. The decoder reports data that is not BZip2, or that ends
/// before its stream does, as an error rather than stalling.
#[verifier::external_body]
fn bzip2_decompress(data: &[u8]) -> (decompressed: Result<Vec<u8>, std::io::Error>)
    ensures
        decompressed is Ok <==> bzip2_decompressed(data@) is Some,
        decompressed matches Ok(d) ==> bzip2_decompressed(data@) == Some(d@),
{
    let mut decoder = bzip2::read::BzDecoder::new(data);
    let mut decompressed = Vec::new();
    decoder.read_to_end(&mut decompressed)?;
    Ok(decompressed)
}

/// Encodes `data` with `base64::encode` (the standard alphabet, padded).
///
/// The text is the standard, padded encoding `base64_encoded` (the crate's
/// `STANDARD` configuration), and `base64::decode` turns it back into `data`
/// (the round trip that the crate's own tests check).
#[verifier::external_body]
pub(crate) fn base64_encode(data: &[u8]) -> (encoded: String)
    ensures
        encoded@ == base64_encoded(data@),
        base64_decoded(encode_utf8(encoded@)) == Some(data@),
{
    base64::encode(data)
}

/// Decodes `data` with `base64::decode` (the standard alphabet), giving
/// `None` where the crate returns an error.
#[verifier::external_body]
fn base64_decode(data: &str) -> (decoded: Option<Vec<u8>>)
    ensures
        decoded is Some <==> base64_decoded(data.spec_bytes()) is Some,
        decoded matches Some(d) ==> base64_decoded(data.spec_bytes()) == Some(d@),
{
    base64::decode(data).ok()
}

/// Converts bytes to a `String` with `String::from_utf8`, which accepts
/// exactly the valid UTF-8 byte sequences and keeps their text.
#[verifier::external_body]
fn string_from_utf8(bytes: Vec<u8>) -> (s: Option<String>)
    ensures
        s is Some <==> valid_utf8(bytes@),
        s matches Some(text) ==> encode_utf8(text@) == bytes@,
{
    String::from_utf8(bytes).ok()
}

/// Compresses a dataset held as text; decompressing the result gives the
/// text's bytes back.
pub fn compress_data(data: &str) -> (compressed: Result<Vec<u8>, std::io::Error>)
    ensures
        compressed is Ok,
        compressed matches Ok(c) ==> c@ == bzip2_compressed(data.spec_bytes()),
        compressed matches Ok(c) ==> bzip2_decompressed(c@) == Some(data.spec_bytes()),
{
    compress_bytes(data.as_bytes())
}

/// Compresses raw bytes; decompressing the result gives them back.
pub fn compress_bytes(bytes: &[u8]) -> (compressed: Result<Vec<u8>, std::io::Error>)
    ensures
        compressed is Ok,
        compressed matches Ok(c) ==> c@ == bzip2_compressed(bytes@),
        compressed matches Ok(c) ==> bzip2_decompressed(c@) == Some(bytes@),
{
    bzip2_compress(bytes)
}

/// Compresses lines of text into a single stream, putting a newline between
/// neighbouring lines so that the decompressed text splits back into them.
pub fn compress_vec(data: &[&str]) -> (compressed: Result<Vec<u8>, std::io::Error>)
    ensures
        compressed is Ok,
        compressed matches Ok(c) ==> c@ == bzip2_compressed(join_bytes(strs_bytes(data@), NEWLINE)),
        compressed matches Ok(c) ==> bzip2_decompressed(c@) == Some(
            join_bytes(strs_bytes(data@), NEWLINE),
        ),
{
    let mut joined: Vec<u8> = Vec::new();
    let mut i: usize = 0;
    while i < data.len()
        invariant
            i <= data@.len(),
            joined@ == join_bytes(strs_bytes(data@.take(i as int)), NEWLINE),
        decreases data@.len() - i,
    {
        let ghost before = joined@;
        if i > 0 {
            joined.push(NEWLINE);
        }
        let bytes = data[i].as_bytes();
        let mut j: usize = 0;
        while j < bytes.len()
            invariant
                j <= bytes@.len(),
                joined@ == (if i > 0 {
                    before + seq![NEWLINE]
                } else {
                    before
                }) + bytes@.take(j as int),
            decreases bytes@.len() - j,
        {
            joined.push(bytes[j]);
            j += 1;
            assert(bytes@.take(j as int) =~= bytes@.take(j - 1).push(bytes@[j - 1]));
        }
        proof {
            assert(bytes@.take(j as int) =~= bytes@);
            let pieces = strs_bytes(data@.take(i + 1));
            assert(pieces.drop_last() =~= strs_bytes(data@.take(i as int)));
            assert(pieces.last() == data@[i as int].spec_bytes());
            if i == 0 {
                assert(before =~= Seq::<u8>::empty());
                assert(joined@ =~= pieces[0]);
            } else {
                assert(joined@ =~= before + seq![NEWLINE] + pieces.last());
            }
        }
        i += 1;
    }
    proof {
        assert(data@.take(i as int) =~= data@);
    }
    bzip2_compress(joined.as_slice())
}

/// Decompresses BZip2 data, returning an error when the data is not a whole
/// BZip2 stream.
pub fn decompress_data(data: &[u8]) -> (decompressed: Result<Vec<u8>, std::io::Error>)
    ensures
        decompressed is Ok <==> bzip2_decompressed(data@) is Some,
        decompressed matches Ok(d) ==> bzip2_decompressed(data@) == Some(d@),
{
    bzip2_decompress(data)
}

/// Why received data could not be turned back into text.
#[derive(Debug, Clone, Copy, PartialEq, Eq)]
pub enum DecodeError {
    /// The data was not valid Base64.
    Base64,
    /// The decoded bytes were not a whole BZip2 stream.
    Bzip2,
    /// The decompressed bytes were not valid UTF-8.
    Utf8,
}

/// The outcome of decoding `data` from Base64, decompressing it and reading
/// it as UTF-8 text, given as the text's bytes.
pub open spec fn spec_decode_and_decompress(data: Seq<u8>) -> Result<Seq<u8>, DecodeError> {
    match base64_decoded(data) {
        None => Err(DecodeError::Base64),
        Some(compressed) => match bzip2_decompressed(compressed) {
            None => Err(DecodeError::Bzip2),
            Some(plain) => if valid_utf8(plain) {
                Ok(plain)
            } else {
                Err(DecodeError::Utf8)
            },
        },
    }
}

/// Decodes incoming data and decompresses it.
///
/// Incoming data is expected to be compressed and then encoded with Base64,
/// so this reverses the process and reads the result as text.
pub fn decode_and_decompress(data: &str) -> (text: Result<String, DecodeError>)
    ensures
        match spec_decode_and_decompress(data.spec_bytes()) {
            Ok(plain) => text matches Ok(t) && encode_utf8(t@) == plain,
            Err(e) => text == Err::<String, DecodeError>(e),
        },
{
    let decoded = match base64_decode(data) {
        Some(d) => d,
        None => return Err(DecodeError::Base64),
    };
    let decompressed = match decompress_data(decoded.as_slice()) {
        Ok(d) => d,
        Err(_) => return Err(DecodeError::Bzip2),
    };
    match string_from_utf8(decompressed) {
        Some(t) => Ok(t),
        None => Err(DecodeError::Utf8),
    }
}

} // verus!

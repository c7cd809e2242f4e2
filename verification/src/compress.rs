//! The compression back ends of the archive and the scheme byte that
//! selects one of them.

use std::io::Read;

use bzip2::read::BzDecoder;
use flate2::read::ZlibDecoder;
use vstd::prelude::*;
use vstd::slice::slice_subrange;

use crate::error::MpqError;

verus! {

/// Scheme byte of a unit that is stored as it is.
pub const SCHEME_STORE: u8 = 0x00;

/// Scheme byte of a unit deflated in a zlib stream.
pub const SCHEME_ZLIB: u8 = 0x02;

/// Scheme byte of a unit compressed as a bzip2 stream.
pub const SCHEME_BZIP2: u8 = 0x10;

/// What inflating `input` as a zlib stream gives: the plain text, or
/// nothing where the inflater rejects the stream.
pub uninterp spec fn zlib_inflated(input: Seq<u8>) -> Option<Seq<u8>>;

/// What decompressing `input` as a bzip2 stream gives: the plain text, or
/// nothing where the decompressor rejects the stream.
pub uninterp spec fn bzip2_decompressed(input: Seq<u8>) -> Option<Seq<u8>>;

/// `flate2::read::ZlibDecoder` over `input`, read to its end. The contract
/// only names the outcome: the bytes that the decoder yields, or nothing if
/// it reports an error.
#[verifier::external_body]
fn zlib_inflate(input: &[u8]) -> (out: Option<Vec<u8>>)
    ensures
        match out {
            Some(plain) => zlib_inflated(input@) == Some(plain@),
            None => zlib_inflated(input@) is None,
        },
{
    let mut plain = Vec::new();
    match ZlibDecoder::new(input).read_to_end(&mut plain) {
        Ok(_) => Some(plain),
        Err(_) => None,
    }
}

/// `bzip2::read::BzDecoder` over `input`, read to its end. The contract
/// only names the outcome: the bytes that the decoder yields, or nothing if
/// it reports an error.
#[verifier::external_body]
fn bzip2_decompress(input: &[u8]) -> (out: Option<Vec<u8>>)
    ensures
        match out {
            Some(plain) => bzip2_decompressed(input@) == Some(plain@),
            None => bzip2_decompressed(input@) is None,
        },
{
    let mut plain = Vec::new();
    match BzDecoder::new(input).read_to_end(&mut plain) {
        Ok(_) => Some(plain),
        Err(_) => None,
    }
}

/// The plain text of a compressed unit: its first byte names the scheme,
/// the rest is that scheme's input. An empty unit has no scheme byte and is
/// corrupt.
pub open spec fn decompress_spec(input: Seq<u8>) -> Result<Seq<u8>, MpqError> {
    if input.len() == 0 {
        Err(MpqError::CorruptCompression)
    } else if input[0] == SCHEME_STORE {
        Ok(input.skip(1))
    } else if input[0] == SCHEME_ZLIB {
        back_end_outcome(zlib_inflated(input.skip(1)))
    } else if input[0] == SCHEME_BZIP2 {
        back_end_outcome(bzip2_decompressed(input.skip(1)))
    } else {
        Err(MpqError::UnknownCompressionScheme(input[0]))
    }
}

/// What a back end's answer means for the unit: its plain text, or a
/// corrupt unit where the back end gave none.
pub open spec fn back_end_outcome(decoded: Option<Seq<u8>>) -> Result<Seq<u8>, MpqError> {
    match decoded {
        Some(plain) => Ok(plain),
        None => Err(MpqError::CorruptCompression),
    }
}

/// Whether `out` and `output` are what appending the plain text `wanted` to
/// `before` gives: on success the count appended, on failure the same error
/// and nothing appended.
pub open spec fn appended(
    wanted: Result<Seq<u8>, MpqError>,
    before: Seq<u8>,
    output: Seq<u8>,
    out: Result<usize, MpqError>,
) -> bool {
    match wanted {
        Ok(plain) => out matches Ok(count) && count == plain.len() && output == before + plain,
        Err(e) => out == Err::<usize, MpqError>(e) && output == before,
    }
}

/// Appends `input` to `output`.
pub fn append_bytes(output: &mut Vec<u8>, input: &[u8])
    ensures
        final(output)@ == old(output)@ + input@,
{
    let mut i: usize = 0;
    while i < input.len()
        invariant
            i <= input@.len(),
            output@ == old(output)@ + input@.take(i as int),
        decreases input@.len() - i,
    {
        output.push(input[i]);
        proof {
            assert(input@.take(i + 1) =~= input@.take(i as int).push(input@[i as int]));
        }
        i = i + 1;
    }
    proof {
        assert(input@.take(i as int) =~= input@);
    }
}

/// Takes what a back end answered: appends the plain text to `output` and
/// gives its length, or reports a corrupt unit and appends nothing.
pub fn finish_decompress(decoded: Option<Vec<u8>>, output: &mut Vec<u8>) -> (out: Result<
    usize,
    MpqError,
>)
    ensures
        match decoded {
            Some(plain) => {
                &&& out == Ok::<usize, MpqError>(plain.len())
                &&& final(output)@ == old(output)@ + plain@
            },
            None => out == Err::<usize, MpqError>(MpqError::CorruptCompression) && final(output)@
                == old(output)@,
        },
{
    match decoded {
        Some(plain) => {
            append_bytes(output, plain.as_slice());
            Ok(plain.len())
        },
        None => Err(MpqError::CorruptCompression),
    }
}

/// The store scheme: appends `input` to `output` unchanged.
pub fn no_decompress(input: &[u8], output: &mut Vec<u8>) -> (out: Result<usize, MpqError>)
    ensures
        out == Ok::<usize, MpqError>(input.len()),
        final(output)@ == old(output)@ + input@,
{
    append_bytes(output, input);
    Ok(input.len())
}

/// The zlib scheme: inflates `input` and appends the plain text to
/// `output`.
pub fn zlib_decompress(input: &[u8], output: &mut Vec<u8>) -> (out: Result<usize, MpqError>)
    ensures
        appended(back_end_outcome(zlib_inflated(input@)), old(output)@, final(output)@, out),
{
    finish_decompress(zlib_inflate(input), output)
}

/// The bzip2 scheme: decompresses `input` and appends the plain text to
/// `output`.
pub fn bz2_decompress(input: &[u8], output: &mut Vec<u8>) -> (out: Result<usize, MpqError>)
    ensures
        appended(back_end_outcome(bzip2_decompressed(input@)), old(output)@, final(output)@, out),
{
    finish_decompress(bzip2_decompress(input), output)
}

/// Decompresses one unit, whose first byte names the scheme, and appends
/// the plain text to `output`.
pub fn decompress(input: &[u8], output: &mut Vec<u8>) -> (out: Result<usize, MpqError>)
    ensures
        appended(decompress_spec(input@), old(output)@, final(output)@, out),
{
    if input.len() == 0 {
        return Err(MpqError::CorruptCompression);
    }
    let scheme = input[0];
    let body = slice_subrange(input, 1, input.len());
    assert(body@ == input@.skip(1));
    if scheme == SCHEME_STORE {
        no_decompress(body, output)
    } else if scheme == SCHEME_ZLIB {
        zlib_decompress(body, output)
    } else if scheme == SCHEME_BZIP2 {
        bz2_decompress(body, output)
    } else {
        Err(MpqError::UnknownCompressionScheme(scheme))
    }
}

} // verus!

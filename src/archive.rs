//! Decompressing a zstd-compressed tarball before its entries are planned.
use vstd::prelude::*;

verus! {

/// What zstd decompression makes of `b`: the decompressed bytes, or `None`
/// where `b` is not a valid zstd stream.
pub uninterp spec fn zstd_decoded(b: Seq<u8>) -> Option<Seq<u8>>;

/// Relies on `zstd::stream::decode_all`: the decompressed frames of
/// `contents`, or an error where they are not valid zstd.
#[verifier::external_body]
fn zstd_decode_all(contents: &[u8]) -> (r: Option<Vec<u8>>)
    ensures
        r matches Some(v) ==> zstd_decoded(contents@) == Some(v@),
        r is None ==> zstd_decoded(contents@) is None,
{
    zstd::stream::decode_all(contents).ok()
}

/// Why an extraction stopped.
#[derive(Debug, Clone, Copy, PartialEq, Eq, Structural)]
pub enum ExtractError {
    /// The input is not validly compressed.
    Decode,
    /// The decompressed container is structurally invalid.
    ArchiveFormat,
    /// Writing an accepted entry failed.
    Write,
}

/// Decompresses a tarball: the tar container that `contents` compresses,
/// or `ExtractError::Decode` exactly where `contents` is not validly
/// compressed.
pub fn decompress_archive(contents: &[u8]) -> (r: Result<Vec<u8>, ExtractError>)
    ensures
        r is Ok <==> zstd_decoded(contents@) is Some,
        r matches Ok(v) ==> zstd_decoded(contents@) == Some(v@),
        r matches Err(e) ==> e == ExtractError::Decode,
{
    match zstd_decode_all(contents) {
        Some(v) => Ok(v),
        None => Err(ExtractError::Decode),
    }
}

} // verus!

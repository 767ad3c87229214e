//! Documents are stored as gzipped JSON (`.inkpdf`). This module does the
//! compression and the capped decompression; the JSON itself is produced
//! and parsed by the caller.

use std::io::{Read, Write};

use flate2::read::GzDecoder;
use flate2::write::GzEncoder;
use flate2::Compression;
use vstd::prelude::*;

verus! {

/// Refuses to decompress more than this many bytes, so a small malicious
/// file (a "gzip bomb") can't exhaust memory before it is even parsed.
pub const MAX_DECOMPRESSED_BYTES: u64 = 1024 * 1024 * 1024;

/// Why a document could not be stored or loaded.
#[derive(Clone, Debug, PartialEq)]
pub enum StorageError {
    /// The gzip encoder failed (with its message).
    Compress(String),
    /// The data is not a valid gzip stream (with the decoder's message).
    Decompress(String),
    /// The document decompresses to more than the given number of bytes.
    TooLarge(u64),
}

/// What flate2's `GzEncoder` gives for `data` at the default compression
/// level: the gzip stream, or `None` if it reports an error.
pub uninterp spec fn gzip_bytes(data: Seq<u8>) -> Option<Seq<u8>>;

/// What flate2's `GzDecoder` yields from `data` when at most `limit` bytes
/// are read from it, or `None` if it reports an error before then.
pub uninterp spec fn gunzip_bytes(data: Seq<u8>, limit: nat) -> Option<Seq<u8>>;

/// `z` decodes to `data`: reading at most `limit` bytes from it yields the
/// first `limit` bytes of `data`.
pub open spec fn is_gzip_of(z: Seq<u8>, data: Seq<u8>) -> bool {
    forall|limit: nat|
        #[trigger] gunzip_bytes(z, limit) == Some(
            data.take(if limit < data.len() { limit as int } else { data.len() as int }),
        )
}

/// flate2 `GzEncoder::new(Vec::new(), Compression::default())`, `write_all`,
/// `finish`: compresses `data` into a gzip stream in memory.
/// Trusted: the outcome is a function of `data` (named by `gzip_bytes`; the
/// header flate2 writes holds no time stamp, so nothing else enters), an
/// error comes back as `Compress`, and flate2's `GzDecoder` reads the stream
/// back as `data`, cut at any read limit (`Read::take`).
#[verifier::external_body]
fn gzip(data: &[u8]) -> (r: Result<Vec<u8>, StorageError>)
    ensures
        match gzip_bytes(data@) {
            Some(z) => r matches Ok(v) && v@ == z && is_gzip_of(z, data@),
            None => r matches Err(StorageError::Compress(_)),
        },
{
    let mut encoder = GzEncoder::new(Vec::new(), Compression::default());
    match encoder.write_all(data) {
        Ok(()) => {},
        Err(e) => return Err(StorageError::Compress(format!("{e}"))),
    }
    encoder.finish().map_err(|e| StorageError::Compress(format!("{e}")))
}

/// flate2 `GzDecoder::new(data).take(limit).read_to_end(..)`: decodes at
/// most `limit` bytes of the gzip stream `data`.
/// Trusted: the result is a function of `data` and `limit` (named by
/// `gunzip_bytes`), and `Read::take` never yields more than `limit` bytes.
#[verifier::external_body]
fn gunzip(data: &[u8], limit: u64) -> (r: Result<Vec<u8>, StorageError>)
    ensures
        match gunzip_bytes(data@, limit as nat) {
            Some(out) => r matches Ok(v) && v@ == out,
            None => r matches Err(StorageError::Decompress(_)),
        },
        r matches Ok(v) ==> v@.len() <= limit,
{
    let mut out = Vec::new();
    match GzDecoder::new(data).take(limit).read_to_end(&mut out) {
        Ok(_) => Ok(out),
        Err(e) => Err(StorageError::Decompress(format!("{e}"))),
    }
}

/// What loading `data` with a cap of `max_bytes` gives: the decompressed
/// bytes, or `None` when it is not gzip or decompresses past the cap.
pub open spec fn loaded(data: Seq<u8>, max_bytes: nat) -> Option<Seq<u8>> {
    match gunzip_bytes(data, max_bytes + 1) {
        Some(out) => if out.len() <= max_bytes {
            Some(out)
        } else {
            None
        },
        None => None,
    }
}

/// Compresses a serialized document for writing to disk.
pub fn save(json: &[u8]) -> (r: Result<Vec<u8>, StorageError>)
    ensures
        r is Ok <==> gzip_bytes(json@) is Some,
        match gzip_bytes(json@) {
            Some(z) => r matches Ok(v) && v@ == z && is_gzip_of(z, json@),
            None => r matches Err(StorageError::Compress(_)),
        },
{
    gzip(json)
}

/// Decompresses a stored document, refusing more than `max_bytes` of output.
pub fn load_capped(data: &[u8], max_bytes: u64) -> (r: Result<Vec<u8>, StorageError>)
    requires
        max_bytes < u64::MAX,
    ensures
        match gunzip_bytes(data@, (max_bytes + 1) as nat) {
            Some(out) => if out.len() <= max_bytes {
                r matches Ok(v) && v@ == out
            } else {
                r == Err::<Vec<u8>, StorageError>(StorageError::TooLarge(max_bytes))
            },
            None => r matches Err(StorageError::Decompress(_)),
        },
        r matches Ok(v) ==> loaded(data@, max_bytes as nat) == Some(v@),
        r is Err <==> loaded(data@, max_bytes as nat) is None,
{
    let json = gunzip(data, max_bytes + 1)?;
    if json.len() as u64 > max_bytes {
        return Err(StorageError::TooLarge(max_bytes));
    }
    Ok(json)
}

/// Decompresses a stored document under the default cap.
pub fn load(data: &[u8]) -> (r: Result<Vec<u8>, StorageError>)
    ensures
        match gunzip_bytes(data@, (MAX_DECOMPRESSED_BYTES + 1) as nat) {
            Some(out) => if out.len() <= MAX_DECOMPRESSED_BYTES {
                r matches Ok(v) && v@ == out
            } else {
                r == Err::<Vec<u8>, StorageError>(StorageError::TooLarge(MAX_DECOMPRESSED_BYTES))
            },
            None => r matches Err(StorageError::Decompress(_)),
        },
{
    load_capped(data, MAX_DECOMPRESSED_BYTES)
}

/// Loading what was saved gives the saved bytes back whenever they fit
/// under the cap, and is refused when they do not.
pub proof fn lemma_load_of_save(z: Seq<u8>, json: Seq<u8>, max_bytes: nat)
    requires
        is_gzip_of(z, json),
    ensures
        json.len() <= max_bytes ==> loaded(z, max_bytes) == Some(json),
        json.len() > max_bytes ==> loaded(z, max_bytes) is None,
        json.len() > max_bytes ==> (gunzip_bytes(z, max_bytes + 1) matches Some(out) && out.len() > max_bytes),
{
    assert(gunzip_bytes(z, max_bytes + 1) == Some(
        json.take(if max_bytes + 1 < json.len() { (max_bytes + 1) as int } else { json.len() as int }),
    ));
    assert(json.take(json.len() as int) =~= json);
}

} // verus!

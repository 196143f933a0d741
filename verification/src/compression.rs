//! Gzip encoding of response bodies.
//!
//! The compressor is the `async-compression` crate's; nothing of its
//! algorithm is proved here. Its output is a function of its input alone
//! (the gzip header it writes carries no time stamp), so the output has a
//! name that contracts can speak of.

use vstd::prelude::*;
use async_compression::tokio::write::GzipEncoder;
use futures::FutureExt;
use tokio::io::AsyncWriteExt;

verus! {

/// `std::io::Error`, the error of the compressor and of the file system.
/// Trusted as an opaque value: it is carried along and never looked into.
#[verifier::external_type_specification]
#[verifier::external_body]
pub struct ExIoError(std::io::Error);

/// The gzip stream that `async_compression::tokio::write::GzipEncoder`, made
/// by `new` and so at its default level, writes for `data`.
pub uninterp spec fn gzip_encoding(data: Seq<u8>) -> Seq<u8>;

/// Runs `async_compression::tokio::write::GzipEncoder` over `data` into a
/// vector: `write_all`, `shutdown`, then `into_inner`. A vector takes every
/// write at once, so each of the two futures is polled once, with
/// `now_or_never`; one that is not ready then counts as an error.
///
/// Trusted: when no error is reported, the bytes written are the gzip
/// encoding of `data`. Nothing is claimed about when an error is reported.
#[verifier::external_body]
pub(crate) fn gzip_compress(data: &[u8]) -> (r: Result<Vec<u8>, std::io::Error>)
    ensures
        r matches Ok(out) ==> out@ == gzip_encoding(data@),
{
    let mut encoder = GzipEncoder::new(Vec::new());
    let written = encoder.write_all(data).now_or_never();
    written.unwrap_or(Err(std::io::ErrorKind::WouldBlock.into()))?;
    let closed = encoder.shutdown().now_or_never();
    closed.unwrap_or(Err(std::io::ErrorKind::WouldBlock.into()))?;
    Ok(encoder.into_inner())
}

} // verus!

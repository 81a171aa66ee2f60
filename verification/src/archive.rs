//! A modpack as one portable file: its bytes in the layout of
//! [`crate::wire`], compressed with Zstandard.

use vstd::prelude::*;

use crate::error::KilnError;
use crate::modpack_config::ModpackConfig;
use crate::modpack_file::{KilnFile, PackView};
use crate::wire::{fits, pack_file, pack_parts, unpack, unpacked};

verus! {

/// The error of the standard library's readers and writers, which the
/// compressor reports its failures with. Nothing is known of what it holds.
#[verifier::external_type_specification]
#[verifier::external_body]
pub struct ExIoError(std::io::Error);

/// What `zstd::stream::encode_all` makes of `data` at the compression level
/// `level`: the compressed form of `data`, or nothing where it reports a
/// failure.
pub uninterp spec fn zstd_encoded(data: Seq<u8>, level: int) -> Option<Seq<u8>>;

/// What `zstd::stream::decode_all` makes of `frame`: the data that `frame` is
/// the compressed form of, or nothing where `frame` is not well-formed
/// compressed data.
pub uninterp spec fn zstd_decoded(frame: Seq<u8>) -> Option<Seq<u8>>;

/// The level that every archive is compressed at.
pub const COMPRESSION_LEVEL: i32 = 3;

/// `zstd::stream::encode_all` on a slice. Taken on trust: whether it
/// succeeds, and with which bytes, depends on `data` and `level` alone; and
/// the compressor loses nothing, so that what it hands back decompresses to
/// `data` again. Nothing is said of the inputs on which it fails. As with
/// every allocation, a machine that runs out of memory is left aside.
#[verifier::external_body]
fn zstd_encode_all(data: &[u8], level: i32) -> (frame: Result<Vec<u8>, std::io::Error>)
    ensures
        frame matches Ok(bytes) ==> zstd_encoded(data@, level as int) == Some(bytes@),
        frame is Err ==> zstd_encoded(data@, level as int) is None,
        frame matches Ok(bytes) ==> zstd_decoded(bytes@) == Some(data@),
{
    zstd::stream::encode_all(data, level)
}

/// `zstd::stream::decode_all` on a slice. Taken on trust: whether it
/// succeeds, and with which data, depends on `frame` alone. As with every
/// allocation, a machine that runs out of memory is left aside.
#[verifier::external_body]
fn zstd_decode_all(frame: &[u8]) -> (data: Result<Vec<u8>, std::io::Error>)
    ensures
        data matches Ok(bytes) ==> zstd_decoded(frame@) == Some(bytes@),
        data is Err ==> zstd_decoded(frame@) is None,
{
    zstd::stream::decode_all(frame)
}

/// The archive that a modpack is exported to: its bytes in the layout,
/// compressed at [`COMPRESSION_LEVEL`]. A modpack that the layout cannot
/// record has none, and neither has one that the compressor fails on.
pub open spec fn encoded(file: PackView) -> Result<Seq<u8>, KilnError> {
    if !fits(file) {
        Err(KilnError::TooLarge)
    } else {
        match zstd_encoded(pack_file(file), COMPRESSION_LEVEL as int) {
            Some(frame) => Ok(frame),
            None => Err(KilnError::CompressionFailed),
        }
    }
}

/// The modpack that an archive holds. The archive is decompressed first and
/// unpacked then; where either fails, the archive is corrupt.
pub open spec fn decoded(blob: Seq<u8>) -> Result<PackView, KilnError> {
    match zstd_decoded(blob) {
        Some(raw) => match unpacked(raw) {
            Some(file) => Ok(file),
            None => Err(KilnError::CorruptArchive),
        },
        None => Err(KilnError::CorruptArchive),
    }
}

/// What becomes of an archive once the compressor has run: its bytes, or the
/// report that it failed.
pub fn seal(frame: Result<Vec<u8>, std::io::Error>) -> (blob: Result<Vec<u8>, KilnError>)
    ensures
        (match frame {
            Ok(bytes) => blob == Ok::<Vec<u8>, KilnError>(bytes),
            Err(_) => blob == Err::<Vec<u8>, KilnError>(KilnError::CompressionFailed),
        }),
{
    match frame {
        Ok(bytes) => Ok(bytes),
        Err(_) => Err(KilnError::CompressionFailed),
    }
}

/// What becomes of an archive once the decompressor has run: the modpack
/// that the decompressed bytes are the layout of. A decompressor that
/// failed, and bytes that are the layout of no modpack, make the archive
/// corrupt: no modpack is made up in its place.
pub fn unseal(data: Result<Vec<u8>, std::io::Error>) -> (file: Result<KilnFile, KilnError>)
    ensures
        (match data {
            Ok(raw) => match unpacked(raw@) {
                Some(wanted) => file matches Ok(found) && found@ == wanted,
                None => file == Err::<KilnFile, KilnError>(KilnError::CorruptArchive),
            },
            Err(_) => file == Err::<KilnFile, KilnError>(KilnError::CorruptArchive),
        }),
{
    match data {
        Ok(raw) => match unpack(raw.as_slice()) {
            Some(found) => Ok(found),
            None => Err(KilnError::CorruptArchive),
        },
        Err(_) => Err(KilnError::CorruptArchive),
    }
}

/// Exports a modpack: the archive that holds its name and its mods.
///
/// Of the modpack its name and its mods are written, which is all that a
/// [`crate::modpack_file::KilnFile`] holds. A modpack that the layout cannot
/// record is refused. Otherwise the bytes of the modpack are handed to the
/// compressor: the archive is what the compressor makes of them, and it
/// decodes to the modpack again, same name, same mods, same order. Only
/// where the compressor reports a failure is there no archive.
pub fn encode(config: &ModpackConfig) -> (blob: Result<Vec<u8>, KilnError>)
    ensures
        (match encoded(config@) {
            Ok(frame) => blob matches Ok(bytes) && bytes@ == frame,
            Err(error) => blob == Err::<Vec<u8>, KilnError>(error),
        }),
        blob matches Ok(bytes) ==> decoded(bytes@) == Ok::<PackView, KilnError>(config@),
{
    match pack_parts(config.name.as_str(), &config.mods) {
        None => Err(KilnError::TooLarge),
        Some(raw) => {
            proof {
                crate::wire::lemma_unpack_pack(config@);
            }
            seal(zstd_encode_all(raw.as_slice(), COMPRESSION_LEVEL))
        },
    }
}

/// Imports an archive: the modpack that it holds, or the report that it is
/// corrupt.
pub fn decode(blob: &[u8]) -> (file: Result<KilnFile, KilnError>)
    ensures
        (match decoded(blob@) {
            Ok(wanted) => file matches Ok(found) && found@ == wanted,
            Err(error) => file == Err::<KilnFile, KilnError>(error),
        }),
{
    unseal(zstd_decode_all(blob))
}

} // verus!

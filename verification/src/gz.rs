//! Format sniffing for uploaded archives: a blob is either a plain tar
//! archive or a gzip-wrapped one, decided by content alone.

use vstd::prelude::*;

use crate::archive::{entries_view, parse_entries, spec_parse, TarEntry, TarEntryView};
use crate::errors::BackupError;

verus! {

/// What gzip decoding yields for a byte sequence: the decompressed bytes,
/// or nothing when the bytes are not a valid gzip stream.
pub uninterp spec fn gunzip_of(b: Seq<u8>) -> Option<Seq<u8>>;

/// Relies on flate2's `GzDecoder` and `Read::read_to_end`: decompression is
/// a function of the input bytes alone, and it fails exactly when the bytes
/// are not a valid gzip stream.
#[verifier::external_body]
fn gunzip(data: &[u8]) -> (r: Option<Vec<u8>>)
    ensures
        match r {
            Some(v) => gunzip_of(data@) == Some(v@),
            None => gunzip_of(data@) is None,
        },
{
    let mut dec = flate2::read::GzDecoder::new(data);
    let mut out: Vec<u8> = Vec::new();
    match std::io::Read::read_to_end(&mut dec, &mut out) {
        Ok(_) => Some(out),
        Err(_) => None,
    }
}

/// The detected shape of an uploaded archive.
#[derive(Clone, Copy, Debug, PartialEq, Eq, Structural)]
pub enum ArchiveFormat {
    /// A plain tar archive.
    Tar,
    /// A gzip-compressed tar archive.
    TarGz,
}

/// The members an uploaded blob denotes: read it as plain tar first, and
/// otherwise as gzip-wrapped tar. `None` when neither reading succeeds.
pub open spec fn spec_decode(b: Seq<u8>) -> Option<(ArchiveFormat, Seq<TarEntryView>)> {
    if spec_parse(b) is Some {
        Some((ArchiveFormat::Tar, spec_parse(b)->0))
    } else {
        match gunzip_of(b) {
            Some(u) => match spec_parse(u) {
                Some(es) => Some((ArchiveFormat::TarGz, es)),
                None => None,
            },
            None => None,
        }
    }
}

/// Sniffs an uploaded blob and reads its members.
///
/// This is the validation step of an import: it fails with
/// [`BackupError::InvalidArchive`] exactly when the blob is neither a valid
/// tar archive nor a valid gzip-wrapped one, and it touches nothing.
pub fn decode_archive(blob: &[u8]) -> (r: Result<(ArchiveFormat, Vec<TarEntry>), BackupError>)
    ensures
        match r {
            Ok(p) => spec_decode(blob@) == Some((p.0, entries_view(p.1@))),
            Err(e) => spec_decode(blob@) is None && e == BackupError::InvalidArchive,
        },
{
    match parse_entries(blob) {
        Some(es) => Ok((ArchiveFormat::Tar, es)),
        None => {
            match gunzip(blob) {
                Some(u) => {
                    match parse_entries(u.as_slice()) {
                        Some(es) => Ok((ArchiveFormat::TarGz, es)),
                        None => Err(BackupError::InvalidArchive),
                    }
                },
                None => Err(BackupError::InvalidArchive),
            }
        },
    }
}

} // verus!

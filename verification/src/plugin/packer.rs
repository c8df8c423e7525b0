use vstd::prelude::*;
use crate::error::LogError;
use crate::plugin::file_name::{extract_file_name, file_name_of, spec_ends_with};
use crate::plugin::file_split::utf8_len;

verus! {

// ---------------------------------------------------------------------------
// Destination names.

/// The path a packed artifact is written to: the source path with its `.log`
/// suffix replaced by the packer's extension.
pub open spec fn spec_pack_dest(path: Seq<char>, ext: Seq<char>) -> Seq<char> {
    if spec_ends_with(path, ".log"@) {
        path.take(path.len() - 4) + ext
    } else {
        path + ext
    }
}

fn pack_dest(path: &str, ext: &str) -> (r: String)
    ensures
        r@ == spec_pack_dest(path@, ext@),
{
    let mut s = crate::plugin::file_split::log_stem(path);
    s.append(ext);
    proof {
        reveal_strlit(".log");
        assert(s@ =~= spec_pack_dest(path@, ext@));
    }
    s
}

/// A packed destination carries the packer's extension.
pub proof fn lemma_pack_dest_extension(path: Seq<char>, ext: Seq<char>)
    ensures
        spec_ends_with(spec_pack_dest(path, ext), ext),
{
    let d = spec_pack_dest(path, ext);
    assert(d.skip(d.len() - ext.len()) =~= ext);
}

// ---------------------------------------------------------------------------
// What a packer produces.

/// The outcome of packing one rotated file. When `remove_source` is set the
/// caller deletes the source `.log`; `artifact` names the sibling file to
/// write and the bytes to put in it.
pub struct PackResult {
    pub remove_source: bool,
    pub artifact: Option<(String, Vec<u8>)>,
}

/// The bytes of a zip archive holding one entry `name` with contents `data`,
/// written with fixed options.
pub uninterp spec fn zip_archive_of(name: Seq<char>, data: Seq<u8>) -> Seq<u8>;

/// The bytes of the gzip stream compressing `data`.
pub uninterp spec fn gzip_of(data: Seq<u8>) -> Seq<u8>;

/// The bytes of the lz4 frame compressing `data`.
pub uninterp spec fn lz4_frame_of(data: Seq<u8>) -> Seq<u8>;

/// Relies on zip's `ZipWriter` over an in-memory buffer: one entry named
/// `name` holding `data`, written with default options and a fixed
/// modification time, so the archive bytes are a function of the entry name
/// and the data alone. Writing to the buffer cannot fail; the writer reports
/// an error only past the format's limits — an entry name whose bytes do not
/// fit the name-length field, or data at or past 4 GiB without the
/// large-file option.
#[verifier::external_body]
fn zip_bytes(name: &str, data: &Vec<u8>) -> (r: Result<Vec<u8>, LogError>)
    ensures
        r matches Ok(b) ==> b@ == zip_archive_of(name@, data@),
        (utf8_len(name@) <= 0xFFFF && data@.len() < 0xFFFF_FFFF) ==> r is Ok,
{
    let cursor = std::io::Cursor::new(Vec::new());
    let mut zw = zip::ZipWriter::new(cursor);
    let opts = zip::write::SimpleFileOptions::default().last_modified_time(
        zip::DateTime::default(),
    );
    zw.start_file(name, opts).map_err(|e| LogError::E(e.to_string()))?;
    std::io::Write::write_all(&mut zw, data).map_err(|e| LogError::E(e.to_string()))?;
    let cursor = zw.finish().map_err(|e| LogError::E(e.to_string()))?;
    Ok(cursor.into_inner())
}

/// Relies on flate2's `GzEncoder` writing into a buffer: the gzip bytes of
/// `data` at the default level, with the header's timestamp fixed at zero,
/// so the result is a function of the data alone. The encoder's only error
/// paths come from the inner writer, and writing to a buffer cannot fail, so
/// the call succeeds.
#[verifier::external_body]
fn gzip_bytes(data: &Vec<u8>) -> (r: Result<Vec<u8>, LogError>)
    ensures
        r is Ok,
        r matches Ok(b) ==> b@ == gzip_of(data@),
{
    let mut enc = flate2::write::GzEncoder::new(Vec::new(), flate2::Compression::default());
    std::io::Write::write_all(&mut enc, data).map_err(|e| LogError::E(e.to_string()))?;
    enc.finish().map_err(|e| LogError::E(e.to_string()))
}

/// Relies on lz4_flex's `FrameEncoder` writing into a buffer: the lz4 frame
/// of `data` with default settings, a function of the data alone. The
/// encoder's only error paths come from the inner writer, and writing to a
/// buffer cannot fail, so the call succeeds.
#[verifier::external_body]
fn lz4_bytes(data: &Vec<u8>) -> (r: Result<Vec<u8>, LogError>)
    ensures
        r is Ok,
        r matches Ok(b) ==> b@ == lz4_frame_of(data@),
{
    let mut enc = lz4_flex::frame::FrameEncoder::new(Vec::new());
    std::io::Write::write_all(&mut enc, data).map_err(|e| LogError::E(e.to_string()))?;
    enc.finish().map_err(|e| LogError::E(e.to_string()))
}

// ---------------------------------------------------------------------------
// The packers.

/// The identity packer: keep the rotated `.log` as it is.
#[derive(Clone, Copy, Debug)]
pub struct LogPacker {}

/// Pack a rotated file into a `.zip` archive.
#[derive(Clone, Copy, Debug)]
pub struct ZipPacker {}

/// Pack a rotated file into an `.lz4` frame.
#[derive(Clone, Copy, Debug)]
pub struct LZ4Packer {}

/// Pack a rotated file into a `.gz` stream.
#[derive(Clone, Copy, Debug)]
pub struct GZipPacker {}

impl LogPacker {
    pub fn pack_name(&self) -> (r: &'static str)
        ensures
            r@ == "log"@,
    {
        "log"
    }

    /// Do nothing and keep the source in place.
    pub fn do_pack(&self, _log_data: &Vec<u8>, _log_file_path: &str) -> (r: Result<
        PackResult,
        LogError,
    >)
        ensures
            r matches Ok(p) ==> (!p.remove_source && p.artifact is None),
            r is Ok,
    {
        Ok(PackResult { remove_source: false, artifact: None })
    }
}

impl ZipPacker {
    pub fn pack_name(&self) -> (r: &'static str)
        ensures
            r@ == "zip"@,
    {
        "zip"
    }

    /// Compress the rotated file into a sibling `.zip` archive whose single
    /// entry is named after the source file. The call succeeds whenever the
    /// inputs fit the zip format's fields — the entry name within the
    /// name-length field, the data under 4 GiB — and on success the source
    /// is to be removed.
    pub fn do_pack(&self, log_data: &Vec<u8>, log_file_path: &str) -> (r: Result<
        PackResult,
        LogError,
    >)
        ensures
            (utf8_len(file_name_of(log_file_path@)) <= 0xFFFF && log_data@.len() < 0xFFFF_FFFF)
                ==> r is Ok,
            r matches Ok(p) ==> {
                &&& p.remove_source
                &&& p.artifact matches Some((dest, bytes)) && dest@ == spec_pack_dest(
                    log_file_path@,
                    ".zip"@,
                ) && bytes@ == zip_archive_of(file_name_of(log_file_path@), log_data@)
            },
    {
        let name = extract_file_name(log_file_path);
        match zip_bytes(name.as_str(), log_data) {
            Ok(bytes) => {
                let dest = pack_dest(log_file_path, ".zip");
                Ok(PackResult { remove_source: true, artifact: Some((dest, bytes)) })
            },
            Err(e) => Err(e),
        }
    }
}

impl LZ4Packer {
    pub fn pack_name(&self) -> (r: &'static str)
        ensures
            r@ == "lz4"@,
    {
        "lz4"
    }

    /// Compress the rotated file into a sibling `.lz4` frame. The call
    /// always succeeds, and the source is to be removed.
    pub fn do_pack(&self, log_data: &Vec<u8>, log_file_path: &str) -> (r: Result<
        PackResult,
        LogError,
    >)
        ensures
            r is Ok,
            r matches Ok(p) ==> {
                &&& p.remove_source
                &&& p.artifact matches Some((dest, bytes)) && dest@ == spec_pack_dest(
                    log_file_path@,
                    ".lz4"@,
                ) && bytes@ == lz4_frame_of(log_data@)
            },
    {
        match lz4_bytes(log_data) {
            Ok(bytes) => {
                let dest = pack_dest(log_file_path, ".lz4");
                Ok(PackResult { remove_source: true, artifact: Some((dest, bytes)) })
            },
            Err(e) => Err(e),
        }
    }
}

impl GZipPacker {
    pub fn pack_name(&self) -> (r: &'static str)
        ensures
            r@ == "gz"@,
    {
        "gz"
    }

    /// Compress the rotated file into a sibling `.gz` stream. The call
    /// always succeeds, and the source is to be removed.
    pub fn do_pack(&self, log_data: &Vec<u8>, log_file_path: &str) -> (r: Result<
        PackResult,
        LogError,
    >)
        ensures
            r is Ok,
            r matches Ok(p) ==> {
                &&& p.remove_source
                &&& p.artifact matches Some((dest, bytes)) && dest@ == spec_pack_dest(
                    log_file_path@,
                    ".gz"@,
                ) && bytes@ == gzip_of(log_data@)
            },
    {
        match gzip_bytes(log_data) {
            Ok(bytes) => {
                let dest = pack_dest(log_file_path, ".gz");
                Ok(PackResult { remove_source: true, artifact: Some((dest, bytes)) })
            },
            Err(e) => Err(e),
        }
    }
}

} // verus!

//! Compression of retired files, and the names of their artifacts.
//!
//! The codecs come from the flate2 and zip crates.  The library names each
//! codec's result — the encoded bytes are a function of the input alone —
//! and proves round trips against those names.

use crate::policy::Compression;
use vstd::prelude::*;
use vstd::string::StringExecFns;

verus! {

/// A codec failure while encoding or decoding an artifact.
#[derive(Copy, Clone, PartialEq, Eq, Structural, Debug)]
pub enum EncodeError {
    Codec,
}

/// The extension an artifact of `kind` carries.
pub open spec fn artifact_extension(kind: Compression) -> Seq<char> {
    match kind {
        Compression::GZip => ".gz"@,
        Compression::Zip => ".zip"@,
    }
}

/// The name of the artifact that replaces a retired file.
pub open spec fn artifact_name_spec(name: Seq<char>, kind: Compression) -> Seq<char> {
    name + artifact_extension(kind)
}

/// Appends the artifact extension for `kind` to a retired file's name.
pub fn artifact_name(name: &str, kind: Compression) -> (r: String)
    ensures
        r@ == artifact_name_spec(name@, kind),
{
    let mut s = String::new();
    s.append(name);
    match kind {
        Compression::GZip => s.append(".gz"),
        Compression::Zip => s.append(".zip"),
    }
    s
}

/// The gzip stream flate2 emits for `data` at the maximum compression level,
/// with the fixed header this library requests.
pub uninterp spec fn gzip_of(data: Seq<u8>) -> Seq<u8>;

/// What flate2 decodes a gzip stream to: `None` when the bytes are not a
/// well-formed stream.
pub uninterp spec fn gunzip_of(data: Seq<u8>) -> Option<Seq<u8>>;

/// The zip archive the zip crate emits for a single entry `entry_name`
/// holding `data`, with the fixed timestamp and system this library requests.
pub uninterp spec fn zip_of(entry_name: Seq<char>, data: Seq<u8>) -> Seq<u8>;

/// What the zip crate reads from an archive's first entry: its name and its
/// bytes, or `None` when the bytes are not a well-formed archive.
pub uninterp spec fn unzip_of(data: Seq<u8>) -> Option<(Seq<char>, Seq<u8>)>;

/// The limit the zip format puts on an entry name: its length must fit in a
/// sixteen-bit field.
pub const ZIP_NAME_LIMIT: usize = 0xFFFF;

/// A data size comfortably below the format's four-gigabyte field limit, so
/// that not even a deflate stream that expands its input can cross it.
pub const ZIP_DATA_LIMIT: usize = 0xFFC0_0000;

/// Inputs the zip codec is bound to accept: the entry name fits the format's
/// sixteen-bit name-length field and the data stays clear of its
/// four-gigabyte size fields.
pub open spec fn zip_encodable(entry_name: Seq<char>, data: Seq<u8>) -> bool {
    &&& (vstd::utf8::encode_utf8(entry_name).len() as usize) <= ZIP_NAME_LIMIT
    &&& data.len() < ZIP_DATA_LIMIT
}

/// Relies on flate2's `write::GzEncoder` at compression level 9: its output
/// depends on the input bytes alone (the default header has mtime 0 and a
/// fixed operating-system byte), flate2's own decoder restores the input from
/// it, and encoding cannot fail, because the only fallible step is writing to
/// the underlying sink, which here is an in-memory `Vec`.
#[verifier::external_body]
fn gzip_encode(data: &[u8]) -> (r: Result<Vec<u8>, EncodeError>)
    ensures
        r is Ok,
        r matches Ok(v) ==> v@ == gzip_of(data@) && gunzip_of(gzip_of(data@)) == Some(data@),
{
    let mut enc = flate2::write::GzEncoder::new(Vec::new(), flate2::Compression::new(9));
    if std::io::Write::write_all(&mut enc, data).is_err() {
        return Err(EncodeError::Codec);
    }
    match enc.finish() {
        Ok(v) => Ok(v),
        Err(_) => Err(EncodeError::Codec),
    }
}

/// Relies on flate2's `read::GzDecoder`: whether a byte string decodes, and
/// to what, depends on those bytes alone.
#[verifier::external_body]
fn gzip_decode(data: &[u8]) -> (r: Result<Vec<u8>, EncodeError>)
    ensures
        r is Ok <==> gunzip_of(data@) is Some,
        r matches Ok(v) ==> Some(v@) == gunzip_of(data@),
{
    let mut dec = flate2::read::GzDecoder::new(data);
    let mut out = Vec::new();
    match std::io::Read::read_to_end(&mut dec, &mut out) {
        Ok(_) => Ok(out),
        Err(_) => Err(EncodeError::Codec),
    }
}

/// Relies on zip's `ZipWriter`: an archive of one deflated entry written with
/// a pinned timestamp and system byte depends on the entry name and bytes
/// alone.  Within the format's bounds the writer accepts every input — it
/// rejects only a name too long for its sixteen-bit length field or data
/// crossing its four-gigabyte size fields — and zip's own reader restores the
/// entry name and bytes from the archive.
#[verifier::external_body]
fn zip_encode(entry_name: &str, data: &[u8]) -> (r: Result<Vec<u8>, EncodeError>)
    ensures
        r matches Ok(v) ==> v@ == zip_of(entry_name@, data@),
        zip_encodable(entry_name@, data@) ==> r is Ok,
        r is Ok ==> (zip_encodable(entry_name@, data@) ==> unzip_of(zip_of(entry_name@, data@))
            == Some((entry_name@, data@))),
{
    let opts = zip::write::SimpleFileOptions::default().last_modified_time(
        zip::DateTime::default(),
    ).system(zip::System::Unix);
    let mut w = zip::ZipWriter::new(std::io::Cursor::new(Vec::new()));
    if w.start_file(entry_name, opts).is_err() {
        return Err(EncodeError::Codec);
    }
    if std::io::Write::write_all(&mut w, data).is_err() {
        return Err(EncodeError::Codec);
    }
    match w.finish() {
        Ok(c) => Ok(c.into_inner()),
        Err(_) => Err(EncodeError::Codec),
    }
}

/// Relies on zip's `ZipArchive`: whether bytes parse as an archive with a
/// first entry, and that entry's name and contents, depend on the bytes
/// alone.
#[verifier::external_body]
fn zip_decode(data: &[u8]) -> (r: Result<(String, Vec<u8>), EncodeError>)
    ensures
        r is Ok <==> unzip_of(data@) is Some,
        r matches Ok(p) ==> Some((p.0@, p.1@)) == unzip_of(data@),
{
    let mut ar = match zip::ZipArchive::new(std::io::Cursor::new(data)) {
        Ok(a) => a,
        Err(_) => return Err(EncodeError::Codec),
    };
    let mut f = match ar.by_index(0) {
        Ok(f) => f,
        Err(_) => return Err(EncodeError::Codec),
    };
    let name = f.name().to_owned();
    let mut out = Vec::new();
    match std::io::Read::read_to_end(&mut f, &mut out) {
        Ok(_) => Ok((name, out)),
        Err(_) => Err(EncodeError::Codec),
    }
}

/// The artifact bytes for a retired file: its contents run through the codec
/// for `kind`, with the file's own name as the single zip entry's name.
pub open spec fn artifact_bytes(kind: Compression, entry_name: Seq<char>, data: Seq<u8>) -> Seq<
    u8,
> {
    match kind {
        Compression::GZip => gzip_of(data),
        Compression::Zip => zip_of(entry_name, data),
    }
}

/// Inputs the codec for `kind` is bound to accept: gzip takes everything,
/// zip everything within its format's bounds.
pub open spec fn artifact_encodable(kind: Compression, entry_name: Seq<char>, data: Seq<u8>) -> bool {
    match kind {
        Compression::GZip => true,
        Compression::Zip => zip_encodable(entry_name, data),
    }
}

/// Encodes a retired file's bytes into its artifact.  Succeeds on every
/// input the codec is bound to accept.
pub fn encode_artifact(kind: Compression, entry_name: &str, data: &[u8]) -> (r: Result<
    Vec<u8>,
    EncodeError,
>)
    ensures
        r matches Ok(v) ==> v@ == artifact_bytes(kind, entry_name@, data@),
        artifact_encodable(kind, entry_name@, data@) ==> r is Ok,
{
    match kind {
        Compression::GZip => gzip_encode(data),
        Compression::Zip => zip_encode(entry_name, data),
    }
}

/// Round trip through gzip: encoding never fails, and decoding the encoder's
/// output restores the original bytes exactly.
pub fn gzip_round_trip(data: &[u8]) -> (r: Vec<u8>)
    ensures
        r@ == data@,
{
    let enc = match gzip_encode(data) {
        Ok(v) => v,
        Err(_) => vstd::pervasive::unreached(),
    };
    match gzip_decode(enc.as_slice()) {
        Ok(v) => v,
        Err(_) => vstd::pervasive::unreached(),
    }
}

/// Round trip through zip: the encoder accepts exactly the inputs within the
/// format's bounds, and reading its archive back restores the entry name and
/// the original bytes exactly.
pub fn zip_round_trip(entry_name: &str, data: &[u8]) -> (r: Result<(String, Vec<u8>), EncodeError>)
    ensures
        (r is Ok) == zip_encodable(entry_name@, data@),
        r matches Ok(p) ==> p.0@ == entry_name@ && p.1@ == data@,
{
    if entry_name.len() > ZIP_NAME_LIMIT || data.len() >= ZIP_DATA_LIMIT {
        return Err(EncodeError::Codec);
    }
    let enc = match zip_encode(entry_name, data) {
        Ok(v) => v,
        Err(_) => vstd::pervasive::unreached(),
    };
    match zip_decode(enc.as_slice()) {
        Ok(p) => Ok(p),
        Err(_) => vstd::pervasive::unreached(),
    }
}

} // verus!

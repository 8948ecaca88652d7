use vstd::prelude::*;
use vstd::slice::slice_subrange;

use crate::compression::{CompressionConfig, Method};
use crate::error::PackageError;

verus! {

#[verifier::external_type_specification]
#[verifier::external_body]
pub struct ExFileOptions(zip::write::FileOptions);

#[verifier::external_type_specification]
#[verifier::external_body]
pub struct ExZipError(zip::result::ZipError);

#[verifier::external_type_specification]
#[verifier::external_body]
pub struct ExIoError(std::io::Error);

/// A zip container being written into memory. Its contents are known through
/// `zip_entries` and `zip_in_file` alone.
#[verifier::external_body]
pub struct MemZip {
    inner: zip::ZipWriter<std::io::Cursor<Vec<u8>>>,
}

/// One record of an archive: its name, whether it marks a directory, its
/// uncompressed content, and the codec and level it was written with.
pub type EntryModel = (Seq<char>, bool, Seq<u8>, CompressionConfig);

/// The largest content, in bytes, that an entry is guaranteed to take. Entries
/// stay far enough below 4 GiB that even their compressed form fits the plain
/// (non-zip64) sizes the writer uses.
pub const ENTRY_LIMIT: usize = 2_000_000_000;

/// The entries a zip writer holds, in the order they were started, each with the
/// bytes written into it so far.
pub uninterp spec fn zip_entries(w: MemZip) -> Seq<EntryModel>;

/// Whether a zip writer has a file entry open for its data.
pub uninterp spec fn zip_in_file(w: MemZip) -> bool;

/// Whether a zip writer is still open: no earlier failure has closed its stream.
pub uninterp spec fn zip_usable(w: MemZip) -> bool;

/// The name a directory marker is stored under: a `/` is appended unless the
/// name already ends in `/` or `\`.
pub open spec fn dir_entry_name(name: Seq<char>) -> Seq<char> {
    if name.len() > 0 && (name.last() == '/' || name.last() == '\\') {
        name
    } else {
        name + seq!['/']
    }
}

/// The settings a directory marker is written with: stored, at the given level.
pub open spec fn dir_config(config: CompressionConfig) -> CompressionConfig {
    CompressionConfig { method: Method::Stored, level: config.level }
}

/// Codec and level pairs that the writer can start a file with.
pub open spec fn codec_accepts(config: CompressionConfig) -> bool {
    match config.method {
        Method::Stored => true,
        Method::Deflated => 0 <= config.level <= 9,
        Method::Bzip2 => 1 <= config.level <= 9,
        Method::Zstd => 0 <= config.level <= 22,
        Method::Aes => false,
    }
}

/// Bzip2 at level 0, which the bzip2 encoder cannot be built with.
pub open spec fn bzip2_level_zero(config: CompressionConfig) -> bool {
    config.method == Method::Bzip2 && config.level == 0
}

/// Whether every entry's content is within `ENTRY_LIMIT`.
pub open spec fn entries_fit(es: Seq<EntryModel>) -> bool {
    forall|i: int| 0 <= i < es.len() ==> (#[trigger] es[i]).2.len() <= ENTRY_LIMIT
}

/// Whether `b` ends with a zip end-of-central-directory record without a comment
/// that lists `count` entries (at most 65535: larger counts go to the zip64 record).
pub open spec fn ends_with_directory_end(b: Seq<u8>, count: nat) -> bool {
    let n = b.len() as int;
    let listed: nat = if count < 65535 { count } else { 65535 };
    &&& n >= 22
    &&& b[n - 22] == 0x50u8 && b[n - 21] == 0x4bu8 && b[n - 20] == 0x05u8 && b[n - 19] == 0x06u8
    &&& b[n - 14] as nat + 256 * (b[n - 13] as nat) == listed
    &&& b[n - 12] as nat + 256 * (b[n - 11] as nat) == listed
    &&& b[n - 2] == 0u8 && b[n - 1] == 0u8
}

/// The entries `es` with `bytes` appended to the data of the last one.
pub open spec fn append_to_last(es: Seq<EntryModel>, bytes: Seq<u8>) -> Seq<EntryModel> {
    let last = es.last();
    es.update(es.len() - 1, (last.0, last.1, last.2 + bytes, last.3))
}

/// Relies on `ZipWriter::new` over `Cursor::new`: a new writer is open, holds no
/// entries and has no file open.
#[verifier::external_body]
fn zip_new() -> (r: MemZip)
    ensures
        zip_entries(r) == Seq::<EntryModel>::empty(),
        !zip_in_file(r),
        zip_usable(r),
{
    MemZip { inner: zip::ZipWriter::new(std::io::Cursor::new(Vec::new())) }
}

/// Relies on `FileOptions::default`, `FileOptions::compression_method` and
/// `FileOptions::compression_level`: entry settings carrying the given codec and level.
#[verifier::external_body]
fn entry_options(config: CompressionConfig) -> zip::write::FileOptions {
    let method = match config.method {
        Method::Aes => zip::CompressionMethod::Aes,
        Method::Bzip2 => zip::CompressionMethod::Bzip2,
        Method::Deflated => zip::CompressionMethod::Deflated,
        Method::Zstd => zip::CompressionMethod::Zstd,
        Method::Stored => zip::CompressionMethod::Stored,
    };
    zip::write::FileOptions::default().compression_method(method).compression_level(
        Some(config.level),
    )
}

/// Relies on `ZipWriter::start_file`: on success one more entry is held, a file
/// under exactly `name` with no data yet, written with `config`, and it is open for
/// writing. It succeeds on an open writer whose entries fit when the codec accepts
/// the level; `Aes` is refused for writing. Bzip2 at level 0 would abort in the
/// bzip2 encoder, so it is left out.
#[verifier::external_body]
fn zip_start_file(w: &mut MemZip, name: &str, config: CompressionConfig) -> (r: Result<
    (),
    zip::result::ZipError,
>)
    requires
        !bzip2_level_zero(config),
    ensures
        r is Ok ==> zip_entries(*final(w)) == zip_entries(*old(w)).push(
            (name@, false, Seq::<u8>::empty(), config),
        ),
        r is Ok ==> zip_in_file(*final(w)) && zip_usable(*final(w)),
        zip_usable(*old(w)) && codec_accepts(config) && entries_fit(zip_entries(*old(w))) ==> r is Ok,
{
    w.inner.start_file(name, entry_options(config))
}

/// Relies on `io::Write::write` of `ZipWriter`: it fails unless a file is open;
/// on success it has taken the first `n <= buf.len()` bytes of `buf` into that file.
/// On an open writer with a file open, a non-empty buffer whose bytes keep the
/// entry within 4 GiB is taken at least in part.
#[verifier::external_body]
fn zip_write(w: &mut MemZip, buf: &[u8]) -> (r: Result<usize, std::io::Error>)
    ensures
        match r {
            Ok(n) => {
                &&& n <= buf@.len()
                &&& zip_in_file(*old(w))
                &&& zip_in_file(*final(w))
                &&& zip_usable(*final(w))
                &&& zip_entries(*old(w)).len() > 0
                &&& zip_entries(*final(w)) == append_to_last(
                    zip_entries(*old(w)),
                    buf@.subrange(0, n as int),
                )
            },
            Err(_) => true,
        },
        zip_usable(*old(w)) && zip_in_file(*old(w)) && zip_entries(*old(w)).len() > 0 && buf@.len()
            > 0 && zip_entries(*old(w)).last().2.len() + buf@.len() <= u32::MAX ==> (r matches Ok(
            n,
        ) && n > 0),
{
    std::io::Write::write(&mut w.inner, buf)
}

/// Relies on `ZipWriter::add_directory`: on success one more entry is held, a
/// stored directory marker with no data, and no file is open. It succeeds on an
/// open writer whose entries fit.
#[verifier::external_body]
fn zip_add_directory(w: &mut MemZip, name: &str, config: CompressionConfig) -> (r: Result<
    (),
    zip::result::ZipError,
>)
    ensures
        r is Ok ==> zip_entries(*final(w)) == zip_entries(*old(w)).push(
            (dir_entry_name(name@), true, Seq::<u8>::empty(), dir_config(config)),
        ),
        r is Ok ==> !zip_in_file(*final(w)) && zip_usable(*final(w)),
        zip_usable(*old(w)) && entries_fit(zip_entries(*old(w))) ==> r is Ok,
{
    w.inner.add_directory(name, entry_options(config))
}

/// Relies on `ZipWriter::finish` and `Cursor::into_inner`: the bytes of the
/// completed container, which end with the end-of-central-directory record that
/// counts the entries. It succeeds on an open writer whose entries fit.
#[verifier::external_body]
fn zip_finish(w: &mut MemZip) -> (r: Result<Vec<u8>, zip::result::ZipError>)
    ensures
        zip_usable(*old(w)) && entries_fit(zip_entries(*old(w))) ==> r is Ok,
        r matches Ok(b) ==> ends_with_directory_end(b@, zip_entries(*old(w)).len()),
{
    match w.inner.finish() {
        Ok(c) => Ok(c.into_inner()),
        Err(e) => Err(e),
    }
}

/// An archive under construction, held in memory.
pub struct ArchiveWriter {
    zip: MemZip,
}

impl ArchiveWriter {
    /// The entries written so far, in order.
    pub closed spec fn entries(&self) -> Seq<EntryModel> {
        zip_entries(self.zip)
    }

    /// Whether no failure has closed the archive.
    pub closed spec fn usable(&self) -> bool {
        zip_usable(self.zip)
    }

    /// Adds a stored directory marker under `name`, with a trailing `/`.
    pub fn add_directory(&mut self, name: &str, config: CompressionConfig) -> (r: Result<
        (),
        PackageError,
    >)
        ensures
            r is Ok ==> final(self).entries() == old(self).entries().push(
                (dir_entry_name(name@), true, Seq::<u8>::empty(), dir_config(config)),
            ),
            r is Ok ==> final(self).usable(),
            old(self).usable() && entries_fit(old(self).entries()) ==> r is Ok,
            r matches Err(e) ==> (e matches PackageError::EntryWrite { path } && path@ == name@),
    {
        match zip_add_directory(&mut self.zip, name, config) {
            Ok(()) => Ok(()),
            Err(_) => Err(PackageError::EntryWrite { path: String::from_str(name) }),
        }
    }

    /// Completes the container and hands back its bytes.
    pub fn finish(self) -> (r: Result<Vec<u8>, PackageError>)
        ensures
            self.usable() && entries_fit(self.entries()) ==> r is Ok,
            r matches Ok(b) ==> ends_with_directory_end(b@, self.entries().len()),
            r matches Err(e) ==> e is Finalize,
    {
        let mut zip = self.zip;
        match zip_finish(&mut zip) {
            Ok(bytes) => Ok(bytes),
            Err(_) => Err(PackageError::Finalize),
        }
    }
}

/// Opens an empty archive in memory.
pub fn new_zip_file() -> (r: ArchiveWriter)
    ensures
        r.entries() == Seq::<EntryModel>::empty(),
        r.usable(),
{
    ArchiveWriter { zip: zip_new() }
}

/// Writes `contents` as a new file entry named `delta` with `config`, and reports
/// how many bytes went in beside the content's length. Bzip2 at level 0 is
/// refused.
pub fn add_to_zip(
    writer: &mut ArchiveWriter,
    delta: &str,
    contents: &Vec<u8>,
    config: CompressionConfig,
) -> (r: Result<(usize, usize), PackageError>)
    ensures
        match r {
            Ok((written, length)) => {
                &&& written == contents@.len()
                &&& length == contents@.len()
                &&& final(writer).entries() == old(writer).entries().push(
                    (delta@, false, contents@, config),
                )
                &&& final(writer).usable()
            },
            Err(e) => e matches PackageError::EntryWrite { path } && path@ == delta@,
        },
        old(writer).usable() && codec_accepts(config) && entries_fit(old(writer).entries())
            && contents@.len() <= ENTRY_LIMIT ==> r is Ok,
{
    if config.method == Method::Bzip2 && config.level == 0 {
        return Err(PackageError::EntryWrite { path: String::from_str(delta) });
    }
    match zip_start_file(&mut writer.zip, delta, config) {
        Ok(()) => {},
        Err(_) => {
            return Err(PackageError::EntryWrite { path: String::from_str(delta) });
        },
    }
    let ghost start = old(writer).entries();
    let len = contents.len();
    let mut written: usize = 0;
    assert(contents@.subrange(0, 0) =~= Seq::<u8>::empty());
    while written < len
        invariant
            len == contents@.len(),
            written <= len,
            zip_in_file(writer.zip),
            zip_usable(writer.zip),
            zip_entries(writer.zip) == start.push(
                (delta@, false, contents@.subrange(0, written as int), config),
            ),
        decreases len - written,
    {
        let rest = slice_subrange(contents.as_slice(), written, len);
        match zip_write(&mut writer.zip, rest) {
            Ok(n) => {
                if n == 0 {
                    return Err(PackageError::EntryWrite { path: String::from_str(delta) });
                }
                let ghost es = start.push(
                    (delta@, false, contents@.subrange(0, written as int), config),
                );
                assert(contents@.subrange(0, written as int) + rest@.subrange(0, n as int)
                    =~= contents@.subrange(0, written + n));
                assert(append_to_last(es, rest@.subrange(0, n as int)) =~= start.push(
                    (delta@, false, contents@.subrange(0, written + n), config),
                ));
                written = written + n;
            },
            Err(_) => {
                return Err(PackageError::EntryWrite { path: String::from_str(delta) });
            },
        }
    }
    assert(contents@.subrange(0, len as int) =~= contents@);
    Ok((written, len))
}

} // verus!

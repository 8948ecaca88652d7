use vstd::prelude::*;

use crate::archive::{
    add_to_zip, codec_accepts, dir_config, dir_entry_name, ends_with_directory_end, entries_fit,
    new_zip_file,
    ArchiveWriter, EntryModel, ENTRY_LIMIT,
};
use crate::compression::{resolved, str_to_compression_method, CompressionConfig};
use crate::error::PackageError;
use crate::paths::{
    base_name, base_name_of, delta_of, get_delta, lemma_last_sep_bounds, parent_dir, parent_of,
    parent_prefix, resolvable,
};

verus! {

/// A source directory to be packaged, with the compression it will use.
pub struct Package {
    path: String,
    zip_options: Option<CompressionConfig>,
}

/// One object found below the source directory: its absolute path, whether it is
/// a directory, and, for a file, its content.
pub struct FsEntry {
    pub path: String,
    pub is_dir: bool,
    pub contents: Vec<u8>,
}

/// What was written for one entry.
#[derive(Debug, PartialEq, Eq)]
pub struct Progress {
    pub path: String,
    pub is_dir: bool,
    pub bytes_written: usize,
    pub content_length: usize,
}

/// Whether `p` is the record of writing the object `e`.
pub open spec fn reports(p: Progress, e: FsEntry) -> bool {
    &&& p.path@ == e.path@
    &&& p.is_dir == e.is_dir
    &&& p.bytes_written == (if e.is_dir { 0 } else { e.contents@.len() })
    &&& p.content_length == (if e.is_dir { 0 } else { e.contents@.len() })
}

/// What `{:?}` makes of a string: the text in double quotes, with quotes,
/// backslashes, control characters and the like escaped.
pub uninterp spec fn debug_of(s: Seq<char>) -> Seq<char>;

/// Relies on `<str as Debug>::fmt` through `format!("{:?}")`: the quoted, escaped
/// text depends on the characters alone.
#[verifier::external_body]
fn debug_text(s: &str) -> (r: String)
    ensures
        r@ == debug_of(s@),
{
    format!("{:?}", s)
}

/// Whether a canonical path has a non-empty final segment to name a package by.
pub open spec fn names_package(path: Seq<char>) -> bool {
    base_name(path).len() > 0
}

/// The archive record that an object below `root` becomes when written with `config`.
pub open spec fn entry_model(
    root: Seq<char>,
    config: CompressionConfig,
    path: Seq<char>,
    is_dir: bool,
    contents: Seq<u8>,
) -> EntryModel {
    if is_dir {
        (dir_entry_name(delta_of(path, root)), true, Seq::<u8>::empty(), dir_config(config))
    } else {
        (delta_of(path, root), false, contents, config)
    }
}

/// The archive records that a sequence of objects below `root` becomes, in order.
pub open spec fn expected_entries(
    root: Seq<char>,
    config: CompressionConfig,
    entries: Seq<FsEntry>,
) -> Seq<EntryModel> {
    entries.map_values(|e: FsEntry| entry_model(root, config, e.path@, e.is_dir, e.contents@))
}

/// Whether every object of `entries` lies below the parent of `root`.
pub open spec fn all_resolvable(root: Seq<char>, entries: Seq<FsEntry>) -> bool {
    forall|i: int| 0 <= i < entries.len() ==> resolvable(#[trigger] entries[i].path@, root)
}

/// Whether `path` is the path of the first object of `entries` that does not lie
/// below the parent of `root`.
pub open spec fn first_unresolvable(root: Seq<char>, entries: Seq<FsEntry>, path: Seq<char>) -> bool {
    exists|k: int|
        0 <= k < entries.len() && !resolvable(#[trigger] entries[k].path@, root) && path
            == entries[k].path@ && all_resolvable(root, entries.subrange(0, k))
}

/// Whether every file content of `entries` is within `ENTRY_LIMIT`.
pub open spec fn contents_fit(entries: Seq<FsEntry>) -> bool {
    forall|i: int| 0 <= i < entries.len() ==> (#[trigger] entries[i]).contents@.len() <= ENTRY_LIMIT
}

impl Package {
    /// The canonical path of the source directory.
    pub closed spec fn root(&self) -> Seq<char> {
        self.path@
    }

    /// The compression set for the run, if any.
    pub closed spec fn options(&self) -> Option<CompressionConfig> {
        self.zip_options
    }

    /// A package on the canonical path `path`, which the caller found to be an
    /// existing directory (`is_dir`). Nothing is made of a path that is not a
    /// directory.
    pub fn new(path: &str, is_dir: bool) -> (r: Option<Package>)
        ensures
            match r {
                Some(p) => is_dir && p.root() == path@ && p.options() is None,
                None => !is_dir,
            },
    {
        if !is_dir {
            return None;
        }
        Some(Package { path: String::from_str(path), zip_options: None })
    }

    /// As `new`, failing with the path it was given.
    pub fn from_str(s: &str, is_dir: bool) -> (r: Result<Package, PackageError>)
        ensures
            match r {
                Ok(p) => is_dir && p.root() == s@ && p.options() is None,
                Err(e) => !is_dir && (e matches PackageError::InvalidSource { path } && path@
                    == s@),
            },
    {
        match Package::new(s, is_dir) {
            Some(p) => Ok(p),
            None => Err(PackageError::InvalidSource { path: String::from_str(s) }),
        }
    }

    /// Sets the codec, chosen by name in any case, and the level.
    pub fn set_options(&mut self, compression_level: i32, method: String)
        ensures
            final(self).root() == old(self).root(),
            final(self).options() == Some(resolved(method@, compression_level)),
    {
        let m = str_to_compression_method(method);
        self.zip_options = Some(CompressionConfig { method: m, level: compression_level });
    }

    /// The name of the source directory: its final path segment (empty for `/`).
    pub fn package_name(&self) -> (r: String)
        ensures
            r@ == base_name(self.root()),
    {
        base_name_of(self.path.as_str())
    }

    /// The file name of the archive: the package name with `.zip` appended.
    pub fn archive_file_name(&self) -> (r: String)
        ensures
            r@ == base_name(self.root()) + ".zip"@,
    {
        self.package_name().concat(".zip")
    }

    /// A one-line description: the package name and the directory holding it,
    /// each as `{:?}` writes a string.
    pub fn describe(&self) -> (r: String)
        ensures
            r@ == "Package "@ + debug_of(base_name(self.root())) + " on "@ + debug_of(
                parent_dir(self.root()),
            ),
    {
        let name = debug_text(self.package_name().as_str());
        let parent = debug_text(parent_of(self.path.as_str()).as_str());
        String::from_str("Package ").concat(name.as_str()).concat(" on ").concat(parent.as_str())
    }

    /// The canonical path of the source directory.
    pub fn to_string(&self) -> (r: String)
        ensures
            r@ == self.root(),
    {
        self.path.clone()
    }

    /// Starts a run: an open, empty archive with the configured compression.
    /// Fails when no compression has been set.
    pub fn begin(&self) -> (r: Result<Archiver, PackageError>)
        ensures
            match r {
                Ok(a) => {
                    &&& self.options() is Some
                    &&& a.root() == self.root()
                    &&& a.config() == self.options().unwrap()
                    &&& a.entries() == Seq::<EntryModel>::empty()
                    &&& a.usable()
                },
                Err(e) => self.options() is None && e is MissingOptions,
            },
    {
        match self.zip_options {
            None => Err(PackageError::MissingOptions),
            Some(config) => Ok(
                Archiver { root: self.path.clone(), config, writer: new_zip_file() },
            ),
        }
    }

    /// Packages `entries`, in order, into the bytes of a zip archive, with one
    /// record of what was written per entry. Stops at the first failure.
    pub fn package(&self, entries: &Vec<FsEntry>) -> (r: Result<(Vec<u8>, Vec<Progress>), PackageError>)
        ensures
            self.options() is None <==> (r matches Err(e) && e is MissingOptions),
            self.options() matches Some(c) && codec_accepts(c) && contents_fit(entries@) ==> (
            all_resolvable(self.root(), entries@) <==> r is Ok),
            self.options() matches Some(c) && codec_accepts(c) && contents_fit(entries@)
                && !all_resolvable(self.root(), entries@) ==> (r matches Err(e)
                && e is PathResolution),
            (r matches Err(e) && e is PathResolution) ==> !all_resolvable(self.root(), entries@),
            r matches Err(PackageError::PathResolution { path }) ==> first_unresolvable(
                self.root(),
                entries@,
                path@,
            ),
            r matches Ok((b, _)) ==> ends_with_directory_end(b@, entries@.len()),
            r matches Ok((_, progress)) ==> progress@.len() == entries@.len(),
            r matches Ok((_, progress)) ==> forall|i: int|
                0 <= i < entries@.len() ==> reports(#[trigger] progress@[i], entries@[i]),
            r matches Ok(_) ==> self.options() is Some && all_resolvable(self.root(), entries@),
            r matches Err(e) ==> (e is MissingOptions || e is PathResolution || e is EntryWrite
                || e is Finalize),
    {
        let mut run = match self.begin() {
            Ok(a) => a,
            Err(e) => {
                return Err(e);
            },
        };
        proof {
            assert(entries_fit(run.entries()));
        }
        let progress = match run.add_all(entries) {
            Ok(p) => p,
            Err(e) => {
                return Err(e);
            },
        };
        proof {
            if codec_accepts(run.config()) && contents_fit(entries@) {
                lemma_expected_fit(run.root(), run.config(), entries@);
                lemma_fit_concat(Seq::<EntryModel>::empty(), expected_entries(run.root(), run.config(), entries@));
            }
        }
        match run.finish() {
            Ok(bytes) => Ok((bytes, progress)),
            Err(e) => Err(e),
        }
    }
}

proof fn lemma_expected_fit(root: Seq<char>, config: CompressionConfig, entries: Seq<FsEntry>)
    requires
        contents_fit(entries),
    ensures
        entries_fit(expected_entries(root, config, entries)),
{
    assert forall|i: int| 0 <= i < expected_entries(root, config, entries).len() implies (
    #[trigger] expected_entries(root, config, entries)[i]).2.len() <= ENTRY_LIMIT by {
        assert(entries[i].contents@.len() <= ENTRY_LIMIT);
    }
}

proof fn lemma_fit_concat(a: Seq<EntryModel>, b: Seq<EntryModel>)
    requires
        entries_fit(a),
        entries_fit(b),
    ensures
        entries_fit(a + b),
{
    assert forall|i: int| 0 <= i < (a + b).len() implies (#[trigger] (a + b)[i]).2.len()
        <= ENTRY_LIMIT by {
        if i < a.len() {
            assert((a + b)[i] == a[i]);
        } else {
            assert((a + b)[i] == b[i - a.len()]);
        }
    }
}

/// A packaging run in progress: entries are added one at a time, then the archive
/// is finished.
pub struct Archiver {
    root: String,
    config: CompressionConfig,
    writer: ArchiveWriter,
}

impl Archiver {
    /// The canonical path of the source directory.
    pub closed spec fn root(&self) -> Seq<char> {
        self.root@
    }

    /// The compression every file entry is written with.
    pub closed spec fn config(&self) -> CompressionConfig {
        self.config
    }

    /// The records written so far.
    pub closed spec fn entries(&self) -> Seq<EntryModel> {
        self.writer.entries()
    }

    /// Whether no failure has closed the archive.
    pub closed spec fn usable(&self) -> bool {
        self.writer.usable()
    }

    /// Writes the object at `path` into the archive: a directory marker when
    /// `is_dir`, else a file holding `contents`. The name is the path relative to
    /// the parent of the source directory.
    pub fn add_entry(&mut self, path: &str, is_dir: bool, contents: &Vec<u8>) -> (r: Result<
        Progress,
        PackageError,
    >)
        ensures
            final(self).root() == old(self).root(),
            final(self).config() == old(self).config(),
            !resolvable(path@, old(self).root()) ==> (r matches Err(e) && e is PathResolution),
            !resolvable(path@, old(self).root()) ==> final(self).entries() == old(self).entries(),
            (r matches Err(e) && e is PathResolution) ==> !resolvable(path@, old(self).root()),
            resolvable(path@, old(self).root()) && old(self).usable() && entries_fit(
                old(self).entries(),
            ) && (is_dir || (codec_accepts(old(self).config()) && contents@.len() <= ENTRY_LIMIT))
                ==> r is Ok,
            match r {
                Ok(p) => {
                    &&& resolvable(path@, old(self).root())
                    &&& final(self).entries() == old(self).entries().push(
                        entry_model(old(self).root(), old(self).config(), path@, is_dir, contents@),
                    )
                    &&& final(self).usable()
                    &&& p.path@ == path@
                    &&& p.is_dir == is_dir
                    &&& p.bytes_written == (if is_dir { 0 } else { contents@.len() })
                    &&& p.content_length == (if is_dir { 0 } else { contents@.len() })
                },
                Err(e) => (e matches PackageError::PathResolution { path: p } && p@ == path@)
                    || e is EntryWrite,
            },
    {
        let delta = match get_delta(path, self.root.as_str()) {
            Ok(d) => d,
            Err(e) => {
                return Err(e);
            },
        };
        if is_dir {
            match self.writer.add_directory(delta.as_str(), self.config) {
                Ok(()) => Ok(
                    Progress {
                        path: String::from_str(path),
                        is_dir: true,
                        bytes_written: 0,
                        content_length: 0,
                    },
                ),
                Err(e) => Err(e),
            }
        } else {
            match add_to_zip(&mut self.writer, delta.as_str(), contents, self.config) {
                Ok((written, length)) => Ok(
                    Progress {
                        path: String::from_str(path),
                        is_dir: false,
                        bytes_written: written,
                        content_length: length,
                    },
                ),
                Err(e) => Err(e),
            }
        }
    }

    /// Writes every object of `entries`, in order, stopping at the first failure.
    pub fn add_all(&mut self, entries: &Vec<FsEntry>) -> (r: Result<Vec<Progress>, PackageError>)
        ensures
            final(self).root() == old(self).root(),
            final(self).config() == old(self).config(),
            (r matches Err(e) && e is PathResolution) ==> !all_resolvable(old(self).root(), entries@),
            r matches Err(PackageError::PathResolution { path }) ==> first_unresolvable(
                old(self).root(),
                entries@,
                path@,
            ),
            old(self).usable() && entries_fit(old(self).entries()) && codec_accepts(old(self).config())
                && contents_fit(entries@) ==> (all_resolvable(old(self).root(), entries@) <==> r is Ok),
            old(self).usable() && entries_fit(old(self).entries()) && codec_accepts(old(self).config())
                && contents_fit(entries@) && !all_resolvable(old(self).root(), entries@) ==> (r matches Err(e)
                && e is PathResolution),
            match r {
                Ok(progress) => {
                    &&& all_resolvable(old(self).root(), entries@)
                    &&& progress@.len() == entries@.len()
                    &&& forall|i: int| 0 <= i < entries@.len() ==> reports(#[trigger] progress@[i], entries@[i])
                    &&& final(self).entries() == old(self).entries() + expected_entries(
                        old(self).root(),
                        old(self).config(),
                        entries@,
                    )
                    &&& (old(self).usable() || entries@.len() > 0) ==> final(self).usable()
                },
                Err(e) => e is PathResolution || e is EntryWrite,
            },
    {
        let ghost root = self.root();
        let ghost config = self.config();
        let ghost start = self.entries();
        let ghost good = old(self).usable() && entries_fit(old(self).entries()) && codec_accepts(
            config,
        ) && contents_fit(entries@);
        let mut progress: Vec<Progress> = Vec::new();
        let mut i: usize = 0;
        assert(expected_entries(root, config, entries@.subrange(0, 0)) =~= Seq::<EntryModel>::empty());
        assert(start + Seq::<EntryModel>::empty() =~= start);
        while i < entries.len()
            invariant
                i <= entries@.len(),
                self.root() == root,
                self.config() == config,
                config == old(self).config(),
                start == old(self).entries(),
                root == old(self).root(),
                good == (old(self).usable() && entries_fit(old(self).entries()) && codec_accepts(
                    config,
                ) && contents_fit(entries@)),
                (old(self).usable() || i > 0) ==> self.usable(),
                good ==> entries_fit(self.entries()),
                progress@.len() == i,
                forall|j: int| 0 <= j < i ==> reports(#[trigger] progress@[j], entries@[j]),
                all_resolvable(root, entries@.subrange(0, i as int)),
                self.entries() == start + expected_entries(root, config, entries@.subrange(0, i as int)),
            decreases entries.len() - i,
        {
            let e = &entries[i];
            let ghost before = self.entries();
            proof {
                if good {
                    assert(entries@[i as int].contents@.len() <= ENTRY_LIMIT);
                }
            }
            match self.add_entry(e.path.as_str(), e.is_dir, &e.contents) {
                Ok(p) => {
                    progress.push(p);
                },
                Err(err) => {
                    assert(err is PathResolution ==> !resolvable(entries@[i as int].path@, root));
                    assert(err is PathResolution ==> !all_resolvable(root, entries@));
                    assert(good ==> !resolvable(entries@[i as int].path@, root));
                    assert(entries@.subrange(0, i as int) == entries@.subrange(0, i as int));
                    assert(err matches PackageError::PathResolution { path } ==> first_unresolvable(
                        root,
                        entries@,
                        path@,
                    ));
                    return Err(err);
                },
            }
            proof {
                if good {
                    let x = entry_model(root, config, e.path@, e.is_dir, e.contents@);
                    assert(x.2.len() <= ENTRY_LIMIT);
                    assert forall|j: int| 0 <= j < before.push(x).len() implies (#[trigger] before.push(x)[j]).2.len()
                        <= ENTRY_LIMIT by {
                        if j < before.len() {
                            assert(before.push(x)[j] == before[j]);
                        }
                    }
                }
            }
            assert(expected_entries(root, config, entries@.subrange(0, i + 1)) =~= expected_entries(
                root,
                config,
                entries@.subrange(0, i as int),
            ).push(entry_model(root, config, e.path@, e.is_dir, e.contents@)));
            assert forall|j: int| 0 <= j < i + 1 implies resolvable(
                #[trigger] entries@.subrange(0, i + 1)[j].path@,
                root,
            ) by {
                if j < i {
                    assert(entries@.subrange(0, i + 1)[j] == entries@.subrange(0, i as int)[j]);
                }
            }
            i = i + 1;
        }
        assert(entries@.subrange(0, i as int) =~= entries@);
        Ok(progress)
    }

    /// Completes the archive and hands back its bytes.
    pub fn finish(self) -> (r: Result<Vec<u8>, PackageError>)
        ensures
            self.usable() && entries_fit(self.entries()) ==> r is Ok,
            r matches Ok(b) ==> ends_with_directory_end(b@, self.entries().len()),
            r matches Err(e) ==> e is Finalize,
    {
        self.writer.finish()
    }
}

/// Whether `path` lies strictly below the directory `root`.
pub open spec fn below(root: Seq<char>, path: Seq<char>) -> bool {
    &&& path.len() > root.len() as int + 1
    &&& path.subrange(0, root.len() as int + 1) == root + seq!['/']
}

/// The path of an object below `root`, relative to `root`.
pub open spec fn relative_to(root: Seq<char>, path: Seq<char>) -> Seq<char> {
    path.subrange(root.len() as int + 1, path.len() as int)
}

/// The name an object below `root` is stored under: the package name, a `/`, the
/// relative path, and a closing `/` for a directory.
pub open spec fn stored_name(root: Seq<char>, path: Seq<char>, is_dir: bool) -> Seq<char> {
    let name = base_name(root) + seq!['/'] + relative_to(root, path);
    if is_dir {
        name + seq!['/']
    } else {
        name
    }
}

/// Whether `entries` lists distinct objects strictly below `root`, none of whose
/// paths ends in a separator.
pub open spec fn is_tree_listing(root: Seq<char>, entries: Seq<FsEntry>) -> bool {
    &&& forall|i: int| 0 <= i < entries.len() ==> below(root, #[trigger] entries[i].path@)
    &&& forall|i: int|
        0 <= i < entries.len() ==> #[trigger] entries[i].path@.last() != '/'
            && entries[i].path@.last() != '\\'
    &&& forall|i: int, j: int|
        0 <= i < entries.len() && 0 <= j < entries.len() && i != j ==> #[trigger] entries[i].path@
            != #[trigger] entries[j].path@
}

proof fn lemma_stored_name(
    root: Seq<char>,
    config: CompressionConfig,
    path: Seq<char>,
    is_dir: bool,
    contents: Seq<u8>,
)
    requires
        names_package(root),
        below(root, path),
        path.last() != '/',
        path.last() != '\\',
    ensures
        resolvable(path, root),
        entry_model(root, config, path, is_dir, contents).0 == stored_name(root, path, is_dir),
        delta_of(path, root).len() > 0,
        delta_of(path, root).last() == path.last(),
        parent_prefix(root) + delta_of(path, root) == path,
{
    lemma_last_sep_bounds(root);
    let pre = parent_prefix(root);
    let k = pre.len() as int;
    assert(path.subrange(0, root.len() as int) =~= root) by {
        assert forall|j: int| 0 <= j < root.len() implies path[j] == root[j] by {
            assert(path.subrange(0, root.len() as int + 1)[j] == (root + seq!['/'])[j]);
        }
    }
    assert(path.subrange(0, k) =~= pre) by {
        assert forall|j: int| 0 <= j < k implies path[j] == pre[j] by {
            assert(path.subrange(0, root.len() as int)[j] == root[j]);
        }
    }
    let d = delta_of(path, root);
    assert(path[root.len() as int] == '/') by {
        assert(path.subrange(0, root.len() as int + 1)[root.len() as int] == (root + seq!['/'])[root.len() as int]);
    }
    assert(d =~= base_name(root) + seq!['/'] + relative_to(root, path)) by {
        assert forall|j: int| 0 <= j < d.len() implies d[j] == (base_name(root) + seq!['/'] + relative_to(root, path))[j] by {
            if k + j < root.len() {
                assert(path.subrange(0, root.len() as int)[k + j] == root[k + j]);
            }
        }
    }
    assert(pre + d =~= path);
    assert(d.last() == path.last());
}

/// Packaging a listing of a directory tree writes exactly one record per object,
/// in listing order, each under the package name followed by its path relative to
/// the source directory (a directory with a closing `/`), and no two records
/// share a name.
pub proof fn lemma_one_entry_per_object(
    root: Seq<char>,
    config: CompressionConfig,
    entries: Seq<FsEntry>,
)
    requires
        names_package(root),
        is_tree_listing(root, entries),
    ensures
        all_resolvable(root, entries),
        expected_entries(root, config, entries).len() == entries.len(),
        forall|i: int|
            0 <= i < entries.len() ==> (#[trigger] expected_entries(root, config, entries)[i]).0
                == stored_name(root, entries[i].path@, entries[i].is_dir),
        forall|i: int, j: int|
            0 <= i < entries.len() && 0 <= j < entries.len() && (#[trigger] expected_entries(root, config, entries)[i]).0 == (#[trigger] expected_entries(root, config, entries)[j]).0 ==> i == j,
{
    let ex = expected_entries(root, config, entries);
    assert forall|i: int| 0 <= i < entries.len() implies resolvable(#[trigger] entries[i].path@, root)
        && ex[i].0 == stored_name(root, entries[i].path@, entries[i].is_dir) by {
        lemma_stored_name(root, config, entries[i].path@, entries[i].is_dir, entries[i].contents@);
    }
    assert forall|i: int, j: int|
        0 <= i < entries.len() && 0 <= j < entries.len() && (#[trigger] ex[i]).0 == (
        #[trigger] ex[j]).0 implies i == j by {
        let (pi, pj) = (entries[i].path@, entries[j].path@);
        lemma_stored_name(root, config, pi, entries[i].is_dir, entries[i].contents@);
        lemma_stored_name(root, config, pj, entries[j].is_dir, entries[j].contents@);
        let (di, dj) = (delta_of(pi, root), delta_of(pj, root));
        let (ni, nj) = (ex[i].0, ex[j].0);
        if entries[i].is_dir == entries[j].is_dir {
            if entries[i].is_dir {
                assert(ni == di + seq!['/']);
                assert(nj == dj + seq!['/']);
                assert(di =~= ni.drop_last());
                assert(dj =~= nj.drop_last());
            }
            assert(di == dj);
            assert(pi == pj);
        } else if entries[i].is_dir {
            assert(ni == di + seq!['/']);
            assert(nj == dj);
            assert(dj.last() == ni.last());
        } else {
            assert(nj == dj + seq!['/']);
            assert(ni == di);
            assert(di.last() == nj.last());
        }
    }
}

/// Packaging a listing keeps every file's content byte for byte and writes it with
/// the configured codec and level, and gives every directory a stored record with
/// no content.
pub proof fn lemma_contents_kept(root: Seq<char>, config: CompressionConfig, entries: Seq<FsEntry>)
    ensures
        forall|i: int|
            0 <= i < entries.len() ==> (#[trigger] expected_entries(root, config, entries)[i]).1
                == entries[i].is_dir,
        forall|i: int|
            0 <= i < entries.len() && !entries[i].is_dir ==> (#[trigger] expected_entries(root, config, entries)[i]).2 == entries[i].contents@,
        forall|i: int|
            0 <= i < entries.len() && entries[i].is_dir ==> (#[trigger] expected_entries(root, config, entries)[i]).2.len() == 0,
        forall|i: int|
            0 <= i < entries.len() && !entries[i].is_dir ==> (#[trigger] expected_entries(root, config, entries)[i]).3 == config,
        forall|i: int|
            0 <= i < entries.len() && entries[i].is_dir ==> (#[trigger] expected_entries(root, config, entries)[i]).3 == dir_config(config),
{
}

} // verus!

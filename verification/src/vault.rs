//! The vault: the tracked collection of entries.
//!
//! A [`Vault`] owns the entries of one directory of documents, keyed by
//! vault-relative path. It is populated from a snapshot of the directory,
//! reconciled against a later snapshot without discarding still-current
//! embeddings, refreshed in batches against an embedding provider, and
//! queried for the nearest neighbours of one entry.
//!
//! All filesystem work happens outside: the vault consumes [`FileData`]
//! records, each the observed state of one file (its path, its modification
//! time, its raw text).

use vstd::prelude::*;
use vstd::string::StringExecFns;

use crate::config::OpenAIConfig;
use crate::embedding::Embedding;
use crate::error::Error;
use crate::error::ErrorView;
use crate::file::File;
use crate::file::FileContents;
use crate::file::FileView;
use crate::mdfile::DocView;
use crate::mdfile::spec_doc_of;
use crate::paths::check_inside_root;
use crate::paths::path_inside_root;
use crate::paths::rel_path;
use crate::paths::rel_path_of;
use crate::paths::spec_extension;
use crate::paths::extension_of;
use crate::text::str_eq;

verus! {

/// The observed state of one file on disk: its absolute path, its
/// modification time in milliseconds since the epoch, and its raw text.
#[derive(Clone, Debug)]
pub struct FileData {
    pub path: String,
    pub last_modified: u128,
    pub contents: String,
}

/// The mathematical model of one observed file.
pub ghost struct FileDataView {
    pub path: Seq<char>,
    pub last_modified: u128,
    pub contents: Seq<char>,
}

impl View for FileData {
    type V = FileDataView;

    open spec fn view(&self) -> FileDataView {
        FileDataView {
            path: self.path@,
            last_modified: self.last_modified,
            contents: self.contents@,
        }
    }
}

/// The vault.
pub struct Vault {
    /// Entries keyed by vault-relative path.
    pub files: Vec<(String, File)>,
    /// Canonical absolute path of the vault root, without a trailing
    /// separator. It is not persisted with the entries; whoever restores a
    /// vault from a snapshot supplies the current root.
    pub vault_root: String,
    /// Configuration of the attached embedding provider, if any.
    pub provider: Option<OpenAIConfig>,
}

/// The model of a collection of entries.
pub open spec fn entries_view(files: Seq<(String, File)>) -> Seq<(Seq<char>, FileView)> {
    files.map_values(|p: (String, File)| (p.0@, p.1@))
}

/// Index of the first entry keyed `key`, if any.
pub open spec fn spec_find(entries: Seq<(Seq<char>, FileView)>, key: Seq<char>) -> Option<int>
    decreases entries.len(),
{
    if entries.len() == 0 {
        None
    } else if entries[0].0 == key {
        Some(0)
    } else {
        match spec_find(entries.skip(1), key) {
            Some(i) => Some(i + 1),
            None => None,
        }
    }
}

/// The entry keyed `key`, if any.
pub open spec fn spec_get(entries: Seq<(Seq<char>, FileView)>, key: Seq<char>) -> Option<
    FileView,
> {
    match spec_find(entries, key) {
        Some(i) => Some(entries[i].1),
        None => None,
    }
}

/// The entries with `key` bound to `fv`: the existing entry replaced, or a
/// new entry appended.
pub open spec fn spec_put(
    entries: Seq<(Seq<char>, FileView)>,
    key: Seq<char>,
    fv: FileView,
) -> Seq<(Seq<char>, FileView)> {
    match spec_find(entries, key) {
        Some(i) => entries.update(i, (key, fv)),
        None => entries.push((key, fv)),
    }
}

/// No two entries share a key.
pub open spec fn keys_distinct(entries: Seq<(Seq<char>, FileView)>) -> bool {
    forall|i: int, j: int|
        0 <= i < j < entries.len() ==> entries[i].0 != entries[j].0
}

/// Every entry's model is well-formed.
pub open spec fn entries_wf(entries: Seq<(Seq<char>, FileView)>) -> bool {
    forall|i: int| 0 <= i < entries.len() ==> (#[trigger] entries[i].1).wf()
}

/// `spec_find` is determined by a scan: `i` points at the first match, or
/// past the end when there is none.
proof fn lemma_find_spec(entries: Seq<(Seq<char>, FileView)>, key: Seq<char>, i: int)
    requires
        0 <= i <= entries.len(),
        forall|j: int| 0 <= j < i ==> entries[j].0 != key,
        i < entries.len() ==> entries[i].0 == key,
    ensures
        spec_find(entries, key) == if i < entries.len() {
            Some(i)
        } else {
            None::<int>
        },
    decreases entries.len(),
{
    if entries.len() > 0 {
        if entries[0].0 == key {
            assert(i == 0);
        } else {
            assert(i > 0);
            lemma_find_spec(entries.skip(1), key, i - 1);
        }
    }
}

/// What `spec_find` returns points at a match, and nothing earlier matches.
proof fn lemma_find_props(entries: Seq<(Seq<char>, FileView)>, key: Seq<char>)
    ensures
        match spec_find(entries, key) {
            Some(i) => {
                &&& 0 <= i < entries.len()
                &&& entries[i].0 == key
                &&& forall|j: int| 0 <= j < i ==> entries[j].0 != key
            },
            None => forall|j: int| 0 <= j < entries.len() ==> entries[j].0 != key,
        },
    decreases entries.len(),
{
    if entries.len() > 0 && entries[0].0 != key {
        lemma_find_props(entries.skip(1), key);
        match spec_find(entries.skip(1), key) {
            Some(i) => {
                assert(entries.skip(1)[i] == entries[i + 1]);
                assert forall|j: int| 0 <= j < i + 1 implies entries[j].0 != key by {
                    if j > 0 {
                        assert(entries.skip(1)[j - 1] == entries[j]);
                    }
                }
            },
            None => {
                assert forall|j: int| 0 <= j < entries.len() implies entries[j].0 != key by {
                    if j > 0 {
                        assert(entries.skip(1)[j - 1] == entries[j]);
                    }
                }
            },
        }
    }
}

/// An entry that lookup finds is well-formed, when all entries are.
pub proof fn lemma_get_wf(entries: Seq<(Seq<char>, FileView)>, key: Seq<char>)
    requires
        entries_wf(entries),
    ensures
        match spec_get(entries, key) {
            Some(fv) => fv.wf(),
            None => true,
        },
{
    lemma_find_props(entries, key);
}

/// Binding a key preserves distinct keys and well-formed entries.
proof fn lemma_put_preserves(entries: Seq<(Seq<char>, FileView)>, key: Seq<char>, fv: FileView)
    requires
        keys_distinct(entries),
        entries_wf(entries),
        fv.wf(),
    ensures
        keys_distinct(spec_put(entries, key, fv)),
        entries_wf(spec_put(entries, key, fv)),
    decreases entries.len(),
{
    lemma_find_props(entries, key);
    let r = spec_put(entries, key, fv);
    match spec_find(entries, key) {
        Some(i) => {
            assert forall|a: int, b: int| 0 <= a < b < r.len() implies r[a].0 != r[b].0 by {
                assert(r[a].0 == entries[a].0);
                assert(r[b].0 == entries[b].0);
            }
        },
        None => {
            assert forall|a: int, b: int| 0 <= a < b < r.len() implies r[a].0 != r[b].0 by {
                assert(r[a].0 == entries[a].0);
                if b < entries.len() {
                    assert(r[b].0 == entries[b].0);
                } else {
                    assert(r[b].0 == key);
                }
            }
        },
    }
}

/// Index of the entry keyed `key` in executable form.
fn find_index(files: &Vec<(String, File)>, key: &str) -> (r: Option<usize>)
    ensures
        match r {
            Some(i) => {
                &&& 0 <= i < files@.len()
                &&& spec_find(entries_view(files@), key@) == Some(i as int)
                &&& files@[i as int].0@ == key@
            },
            None => spec_find(entries_view(files@), key@) is None,
        },
{
    let n = files.len();
    let mut i: usize = 0;
    while i < n
        invariant
            n == files@.len(),
            0 <= i <= n,
            forall|j: int| 0 <= j < i ==> entries_view(files@)[j].0 != key@,
        decreases n - i,
    {
        if str_eq(files[i].0.as_str(), key) {
            proof {
                assert(entries_view(files@)[i as int].0 == key@);
                lemma_find_spec(entries_view(files@), key@, i as int);
            }
            return Some(i);
        }
        proof {
            assert(entries_view(files@)[i as int].0 == files@[i as int].0@);
        }
        i += 1;
    }
    proof {
        lemma_find_spec(entries_view(files@), key@, n as int);
    }
    None
}

/// Bind `key` to `file`, replacing an existing entry or appending a new one.
fn put_entry(files: &mut Vec<(String, File)>, key: String, file: File)
    requires
        keys_distinct(entries_view(old(files)@)),
        entries_wf(entries_view(old(files)@)),
        file.wf(),
    ensures
        entries_view(final(files)@) == spec_put(entries_view(old(files)@), key@, file@),
        keys_distinct(entries_view(final(files)@)),
        entries_wf(entries_view(final(files)@)),
{
    let ghost orig = entries_view(files@);
    proof {
        lemma_put_preserves(orig, key@, file@);
    }
    match find_index(files, key.as_str()) {
        Some(i) => {
            let ghost gkey = key@;
            let ghost gfile = file@;
            files.set(i, (key, file));
            proof {
                assert(entries_view(files@) =~= orig.update(i as int, (gkey, gfile)));
            }
        },
        None => {
            let ghost gkey = key@;
            let ghost gfile = file@;
            files.push((key, file));
            proof {
                assert(entries_view(files@) =~= orig.push((gkey, gfile)));
            }
        },
    }
}

/// Copy a collection of entries, entry by entry.
fn clone_entries(files: &Vec<(String, File)>) -> (r: Vec<(String, File)>)
    ensures
        entries_view(r@) == entries_view(files@),
        r@.len() == files@.len(),
{
    let n = files.len();
    let mut out: Vec<(String, File)> = Vec::new();
    let mut i: usize = 0;
    while i < n
        invariant
            n == files@.len(),
            0 <= i <= n,
            out@.len() == i,
            forall|j: int|
                0 <= j < i ==> (#[trigger] out@[j]).0@ == files@[j].0@ && out@[j].1@
                    == files@[j].1@,
        decreases n - i,
    {
        let key = files[i].0.clone();
        let file = files[i].1.clone();
        out.push((key, file));
        i += 1;
    }
    proof {
        assert(entries_view(out@) =~= entries_view(files@));
    }
    out
}

/// Read one observed file into an entry: it must lie inside the root and
/// carry the one supported extension.
pub open spec fn spec_read_entry(root: Seq<char>, d: FileDataView) -> Result<
    (Seq<char>, FileView),
    ErrorView,
> {
    if !path_inside_root(d.path, root) {
        Err(ErrorView::PathNotInVaultRoot(d.path, root))
    } else if spec_extension(d.path) != Some("md"@) {
        Err(ErrorView::UnsupportedFileType(d.path))
    } else {
        Ok(
            (
                rel_path_of(d.path, root),
                FileView {
                    path: d.path,
                    last_modified: Some(d.last_modified),
                    doc: spec_doc_of(d.contents),
                },
            ),
        )
    }
}

/// `spec_read_entry`, in executable form.
fn read_entry(root: &String, d: &FileData) -> (r: Result<(String, File), Error>)
    ensures
        match r {
            Ok(kf) => spec_read_entry(root@, d@) == Ok::<_, ErrorView>((kf.0@, kf.1@))
                && kf.1.wf(),
            Err(e) => spec_read_entry(root@, d@) == Err::<(Seq<char>, FileView), _>(e@),
        },
{
    if !check_inside_root(d.path.as_str(), root.as_str()) {
        return Err(Error::PathNotInVaultRoot(d.path.clone(), root.clone()));
    }
    let ext_ok = match extension_of(d.path.as_str()) {
        Some(e) => str_eq(e.as_str(), "md"),
        None => false,
    };
    if !ext_ok {
        return Err(Error::UnsupportedFileType(d.path.clone()));
    }
    let key = rel_path(d.path.as_str(), root.as_str());
    match File::new_raw(d.path.clone(), "md", d.contents.clone(), Some(d.last_modified)) {
        Ok(f) => Ok((key, f)),
        Err(_) => vstd::pervasive::unreached(),
    }
}

/// Fold a directory snapshot into a collection of entries, inserting each
/// file in order; the first unreadable file is the error.
pub open spec fn spec_ingest(
    entries: Seq<(Seq<char>, FileView)>,
    root: Seq<char>,
    files: Seq<FileDataView>,
) -> Result<Seq<(Seq<char>, FileView)>, ErrorView>
    decreases files.len(),
{
    if files.len() == 0 {
        Ok(entries)
    } else {
        match spec_read_entry(root, files[0]) {
            Ok(kv) => spec_ingest(spec_put(entries, kv.0, kv.1), root, files.skip(1)),
            Err(e) => Err(e),
        }
    }
}

/// The models of a sequence of observed files.
pub open spec fn file_data_views(files: Seq<FileData>) -> Seq<FileDataView> {
    files.map_values(|d: FileData| d@)
}

/// The recorded time is strictly older than the observed one; an entry never
/// read from disk counts as older than anything observed.
pub open spec fn spec_newer(recorded: Option<u128>, observed: u128) -> bool {
    match recorded {
        None => true,
        Some(t) => t < observed,
    }
}

/// Reconcile one observed file against the entries: a new file is read and
/// inserted; a known file is re-read only when its observed modification
/// time is strictly newer than the recorded one, which replaces the document
/// and drops the embedding; otherwise the entry is kept untouched.
pub open spec fn spec_reconcile_step(
    entries: Seq<(Seq<char>, FileView)>,
    root: Seq<char>,
    d: FileDataView,
) -> Result<Seq<(Seq<char>, FileView)>, ErrorView> {
    if !path_inside_root(d.path, root) {
        Err(ErrorView::PathNotInVaultRoot(d.path, root))
    } else {
        match spec_get(entries, rel_path_of(d.path, root)) {
            Some(fv) => if spec_newer(fv.last_modified, d.last_modified) {
                match spec_read_entry(root, d) {
                    Ok(kv) => Ok(spec_put(entries, kv.0, kv.1)),
                    Err(e) => Err(e),
                }
            } else {
                Ok(entries)
            },
            None => match spec_read_entry(root, d) {
                Ok(kv) => Ok(spec_put(entries, kv.0, kv.1)),
                Err(e) => Err(e),
            },
        }
    }
}

/// Fold a directory snapshot over the entries, reconciling file by file.
/// Entries whose backing file is absent from the snapshot are retained as
/// they are: the vault does not prune vanished files.
pub open spec fn spec_reconcile(
    entries: Seq<(Seq<char>, FileView)>,
    root: Seq<char>,
    files: Seq<FileDataView>,
) -> Result<Seq<(Seq<char>, FileView)>, ErrorView>
    decreases files.len(),
{
    if files.len() == 0 {
        Ok(entries)
    } else {
        match spec_reconcile_step(entries, root, files[0]) {
            Ok(entries2) => spec_reconcile(entries2, root, files.skip(1)),
            Err(e) => Err(e),
        }
    }
}

/// The modification time the refresh scan observed for `key`, if any.
pub open spec fn spec_observed(observed: Seq<(Seq<char>, u128)>, key: Seq<char>) -> Option<u128>
    decreases observed.len(),
{
    if observed.len() == 0 {
        None
    } else if observed[0].0 == key {
        Some(observed[0].1)
    } else {
        spec_observed(observed.skip(1), key)
    }
}

/// The models of observed modification times.
pub open spec fn observed_views(observed: Seq<(String, u128)>) -> Seq<(Seq<char>, u128)> {
    observed.map_values(|p: (String, u128)| (p.0@, p.1))
}

/// An entry is stale: it has no embedding, or the refresh scan observed its
/// file strictly newer than the recorded time. An entry the scan did not
/// observe is stale only when it has no embedding.
pub open spec fn spec_is_stale(
    key: Seq<char>,
    fv: FileView,
    observed: Seq<(Seq<char>, u128)>,
) -> bool {
    ||| fv.doc.embedding is None
    ||| match spec_observed(observed, key) {
        Some(m) => spec_newer(fv.last_modified, m),
        None => false,
    }
}

/// The keys of the stale entries, in entry order.
pub open spec fn spec_stale_keys(
    entries: Seq<(Seq<char>, FileView)>,
    observed: Seq<(Seq<char>, u128)>,
) -> Seq<Seq<char>>
    decreases entries.len(),
{
    if entries.len() == 0 {
        Seq::empty()
    } else {
        let rest = spec_stale_keys(entries.skip(1), observed);
        if spec_is_stale(entries[0].0, entries[0].1, observed) {
            seq![entries[0].0] + rest
        } else {
            rest
        }
    }
}

/// `spec_observed` is determined by a scan.
proof fn lemma_observed_spec(observed: Seq<(Seq<char>, u128)>, key: Seq<char>, i: int)
    requires
        0 <= i <= observed.len(),
        forall|j: int| 0 <= j < i ==> observed[j].0 != key,
        i < observed.len() ==> observed[i].0 == key,
    ensures
        spec_observed(observed, key) == if i < observed.len() {
            Some(observed[i].1)
        } else {
            None::<u128>
        },
    decreases observed.len(),
{
    if observed.len() > 0 {
        if observed[0].0 == key {
            assert(i == 0);
        } else {
            assert(i > 0);
            lemma_observed_spec(observed.skip(1), key, i - 1);
        }
    }
}

/// The modification time the scan observed for `key`, in executable form.
fn observed_mtime(observed: &Vec<(String, u128)>, key: &str) -> (r: Option<u128>)
    ensures
        r == spec_observed(observed_views(observed@), key@),
{
    let n = observed.len();
    let mut i: usize = 0;
    while i < n
        invariant
            n == observed@.len(),
            0 <= i <= n,
            forall|j: int| 0 <= j < i ==> observed_views(observed@)[j].0 != key@,
        decreases n - i,
    {
        if str_eq(observed[i].0.as_str(), key) {
            proof {
                assert(observed_views(observed@)[i as int].0 == key@);
                lemma_observed_spec(observed_views(observed@), key@, i as int);
            }
            return Some(observed[i].1);
        }
        proof {
            assert(observed_views(observed@)[i as int].0 == observed@[i as int].0@);
        }
        i += 1;
    }
    proof {
        lemma_observed_spec(observed_views(observed@), key@, n as int);
    }
    None
}

/// One refresh outcome per path: the embedding the provider produced, or
/// `None` for a failed request.
pub open spec fn result_views(results: Seq<(String, Option<Embedding>)>) -> Seq<
    (Seq<char>, Option<Seq<i64>>),
> {
    results.map_values(
        |p: (String, Option<Embedding>)|
            (
                p.0@,
                match p.1 {
                    Some(e) => Some(e@),
                    None => None,
                },
            ),
    )
}

/// The first outcome recorded for `key`, if any.
pub open spec fn spec_result_for(
    results: Seq<(Seq<char>, Option<Seq<i64>>)>,
    key: Seq<char>,
) -> Option<Option<Seq<i64>>>
    decreases results.len(),
{
    if results.len() == 0 {
        None
    } else if results[0].0 == key {
        Some(results[0].1)
    } else {
        spec_result_for(results.skip(1), key)
    }
}

/// `fv` with its document's embedding replaced.
pub open spec fn fv_with_embedding(fv: FileView, emb: Seq<i64>) -> FileView {
    FileView {
        path: fv.path,
        last_modified: fv.last_modified,
        doc: DocView { yaml: fv.doc.yaml, body: fv.doc.body, embedding: Some(emb) },
    }
}

/// Each entry with a successful outcome takes the produced embedding; an
/// entry with a failed outcome, or none, is untouched.
pub open spec fn spec_apply_results(
    entries: Seq<(Seq<char>, FileView)>,
    results: Seq<(Seq<char>, Option<Seq<i64>>)>,
) -> Seq<(Seq<char>, FileView)> {
    Seq::new(
        entries.len(),
        |i: int|
            match spec_result_for(results, entries[i].0) {
                Some(Some(emb)) => (entries[i].0, fv_with_embedding(entries[i].1, emb)),
                _ => entries[i],
            },
    )
}

/// `spec_result_for` is determined by a scan.
proof fn lemma_result_for_spec(results: Seq<(Seq<char>, Option<Seq<i64>>)>, key: Seq<char>, i: int)
    requires
        0 <= i <= results.len(),
        forall|j: int| 0 <= j < i ==> results[j].0 != key,
        i < results.len() ==> results[i].0 == key,
    ensures
        spec_result_for(results, key) == if i < results.len() {
            Some(results[i].1)
        } else {
            None::<Option<Seq<i64>>>
        },
    decreases results.len(),
{
    if results.len() > 0 {
        if results[0].0 == key {
            assert(i == 0);
        } else {
            assert(i > 0);
            lemma_result_for_spec(results.skip(1), key, i - 1);
        }
    }
}

/// The first outcome recorded for `key`, in executable form.
fn lookup_result(results: &Vec<(String, Option<Embedding>)>, key: &str) -> (r: Option<
    Option<Embedding>,
>)
    requires
        forall|i: int|
            0 <= i < results@.len() ==> (#[trigger] results@[i].1 matches Some(e) ==> e.wf()),
    ensures
        match (r, spec_result_for(result_views(results@), key@)) {
            (Some(Some(e)), Some(Some(s))) => e@ == s && e.wf(),
            (Some(None), Some(None)) => true,
            (None, None) => true,
            _ => false,
        },
{
    let n = results.len();
    let mut i: usize = 0;
    while i < n
        invariant
            n == results@.len(),
            0 <= i <= n,
            forall|j: int|
                0 <= j < results@.len() ==> (#[trigger] results@[j].1 matches Some(e) ==> e.wf()),
            forall|j: int| 0 <= j < i ==> result_views(results@)[j].0 != key@,
        decreases n - i,
    {
        if str_eq(results[i].0.as_str(), key) {
            proof {
                assert(result_views(results@)[i as int].0 == key@);
                lemma_result_for_spec(result_views(results@), key@, i as int);
            }
            let outcome = results[i].1.clone();
            proof {
                match results@[i as int].1 {
                    Some(e) => {
                        assert(cloned::<Embedding>(e, outcome->0));
                    },
                    None => {},
                }
            }
            return Some(outcome);
        }
        proof {
            assert(result_views(results@)[i as int].0 == results@[i as int].0@);
        }
        i += 1;
    }
    proof {
        lemma_result_for_spec(result_views(results@), key@, n as int);
    }
    None
}

impl Vault {
    /// The entries, as a model sequence of key/entry pairs.
    pub open spec fn entries(&self) -> Seq<(Seq<char>, FileView)> {
        entries_view(self.files@)
    }

    /// Keys are pairwise distinct and every entry is well-formed.
    pub open spec fn wf(&self) -> bool {
        keys_distinct(self.entries()) && entries_wf(self.entries())
    }

    /// Build a vault from a full snapshot of the root directory: one entry
    /// per observed file, keyed by its vault-relative path. The first file
    /// outside the root or without a supported extension is the error.
    pub fn from_snapshot(vault_root: String, files: Vec<FileData>) -> (r: Result<Vault, Error>)
        ensures
            match r {
                Ok(v) => {
                    &&& spec_ingest(
                        Seq::<(Seq<char>, FileView)>::empty(),
                        vault_root@,
                        file_data_views(files@),
                    ) == Ok::<_, ErrorView>(v.entries())
                    &&& v.vault_root@ == vault_root@
                    &&& v.provider is None
                    &&& v.wf()
                },
                Err(e) => spec_ingest(
                    Seq::<(Seq<char>, FileView)>::empty(),
                    vault_root@,
                    file_data_views(files@),
                ) == Err::<Seq<(Seq<char>, FileView)>, _>(e@),
            },
    {
        let mut entries: Vec<(String, File)> = Vec::new();
        let n = files.len();
        let mut i: usize = 0;
        proof {
            assert(entries_view(entries@) =~= Seq::<(Seq<char>, FileView)>::empty());
            assert(file_data_views(files@).skip(0) =~= file_data_views(files@));
        }
        while i < n
            invariant
                n == files@.len(),
                0 <= i <= n,
                keys_distinct(entries_view(entries@)),
                entries_wf(entries_view(entries@)),
                spec_ingest(
                    Seq::<(Seq<char>, FileView)>::empty(),
                    vault_root@,
                    file_data_views(files@),
                ) == spec_ingest(
                    entries_view(entries@),
                    vault_root@,
                    file_data_views(files@).skip(i as int),
                ),
            decreases n - i,
        {
            let ghost rest = file_data_views(files@).skip(i as int);
            proof {
                assert(rest[0] == files@[i as int]@);
                assert(rest.skip(1) =~= file_data_views(files@).skip(i as int + 1));
            }
            match read_entry(&vault_root, &files[i]) {
                Ok(kf) => {
                    let (key, file) = kf;
                    put_entry(&mut entries, key, file);
                },
                Err(e) => {
                    return Err(e);
                },
            }
            i += 1;
        }
        proof {
            assert(file_data_views(files@).skip(n as int) =~= Seq::<FileDataView>::empty());
        }
        Ok(Vault { files: entries, vault_root, provider: None })
    }

    /// Reconcile the entries against a later snapshot of the root directory.
    /// On an error nothing is changed.
    pub fn reconcile(&mut self, files: Vec<FileData>) -> (r: Result<(), Error>)
        requires
            old(self).wf(),
        ensures
            final(self).vault_root == old(self).vault_root,
            final(self).provider == old(self).provider,
            final(self).wf(),
            match r {
                Ok(_) => spec_reconcile(
                    old(self).entries(),
                    old(self).vault_root@,
                    file_data_views(files@),
                ) == Ok::<_, ErrorView>(final(self).entries()),
                Err(e) => {
                    &&& spec_reconcile(
                        old(self).entries(),
                        old(self).vault_root@,
                        file_data_views(files@),
                    ) == Err::<Seq<(Seq<char>, FileView)>, _>(e@)
                    &&& final(self).entries() == old(self).entries()
                },
            },
    {
        let ghost root = self.vault_root@;
        let ghost orig = self.entries();
        let mut updated = clone_entries(&self.files);
        let n = files.len();
        let mut i: usize = 0;
        proof {
            assert(file_data_views(files@).skip(0) =~= file_data_views(files@));
        }
        while i < n
            invariant
                n == files@.len(),
                0 <= i <= n,
                self.vault_root@ == root,
                old(self).vault_root@ == root,
                old(self).wf(),
                orig == old(self).entries(),
                self.entries() == orig,
                self.provider == old(self).provider,
                keys_distinct(entries_view(updated@)),
                entries_wf(entries_view(updated@)),
                spec_reconcile(orig, root, file_data_views(files@)) == spec_reconcile(
                    entries_view(updated@),
                    root,
                    file_data_views(files@).skip(i as int),
                ),
            decreases n - i,
        {
            let ghost rest = file_data_views(files@).skip(i as int);
            proof {
                assert(rest[0] == files@[i as int]@);
                assert(rest.skip(1) =~= file_data_views(files@).skip(i as int + 1));
            }
            let d = &files[i];
            if !check_inside_root(d.path.as_str(), self.vault_root.as_str()) {
                return Err(Error::PathNotInVaultRoot(d.path.clone(), self.vault_root.clone()));
            }
            let key = rel_path(d.path.as_str(), self.vault_root.as_str());
            let fresh = match find_index(&updated, key.as_str()) {
                Some(idx) => {
                    let recorded = updated[idx].1.last_modified;
                    proof {
                        assert(entries_view(updated@)[idx as int].1 == updated@[idx as int].1@);
                    }
                    match recorded {
                        None => true,
                        Some(t) => t < d.last_modified,
                    }
                },
                None => true,
            };
            if fresh {
                match read_entry(&self.vault_root, d) {
                    Ok(kf) => {
                        let (k, f) = kf;
                        put_entry(&mut updated, k, f);
                    },
                    Err(e) => {
                        return Err(e);
                    },
                }
            }
            i += 1;
        }
        proof {
            assert(file_data_views(files@).skip(n as int) =~= Seq::<FileDataView>::empty());
        }
        self.files = updated;
        Ok(())
    }

    /// Insert an explicit entry for a path strictly inside the root; a path
    /// outside the root or an already-taken key is rejected and nothing
    /// changes.
    pub fn add_file(&mut self, path: String, file: File) -> (r: Result<(), Error>)
        requires
            old(self).wf(),
            file.wf(),
        ensures
            final(self).vault_root == old(self).vault_root,
            final(self).provider == old(self).provider,
            final(self).wf(),
            match r {
                Ok(_) => {
                    &&& path_inside_root(path@, old(self).vault_root@)
                    &&& spec_find(
                        old(self).entries(),
                        rel_path_of(path@, old(self).vault_root@),
                    ) is None
                    &&& final(self).entries() == old(self).entries().push(
                        (rel_path_of(path@, old(self).vault_root@), file@),
                    )
                },
                Err(e) => {
                    &&& final(self).entries() == old(self).entries()
                    &&& match e@ {
                        ErrorView::PathNotInVaultRoot(p, rt) => {
                            &&& p == path@
                            &&& rt == old(self).vault_root@
                            &&& !path_inside_root(path@, old(self).vault_root@)
                        },
                        ErrorView::VaultAlreadyContainsPath(p) => {
                            &&& p == path@
                            &&& path_inside_root(path@, old(self).vault_root@)
                            &&& spec_find(
                                old(self).entries(),
                                rel_path_of(path@, old(self).vault_root@),
                            ) is Some
                        },
                        _ => false,
                    }
                },
            },
    {
        if !check_inside_root(path.as_str(), self.vault_root.as_str()) {
            let root = self.vault_root.clone();
            return Err(Error::PathNotInVaultRoot(path, root));
        }
        let key = rel_path(path.as_str(), self.vault_root.as_str());
        match find_index(&self.files, key.as_str()) {
            Some(_) => Err(Error::VaultAlreadyContainsPath(path)),
            None => {
                let ghost orig = self.entries();
                let ghost gkey = key@;
                let ghost gfile = file@;
                proof {
                    lemma_find_props(orig, gkey);
                }
                self.files.push((key, file));
                proof {
                    assert(self.entries() =~= orig.push((gkey, gfile)));
                    assert forall|a: int, b: int|
                        0 <= a < b < self.entries().len() implies self.entries()[a].0
                        != self.entries()[b].0 by {
                        if b < orig.len() {
                            assert(self.entries()[a].0 == orig[a].0);
                            assert(self.entries()[b].0 == orig[b].0);
                        } else {
                            assert(self.entries()[a].0 == orig[a].0);
                            assert(self.entries()[b].0 == gkey);
                        }
                    }
                }
                Ok(())
            },
        }
    }

    /// Read an observed file into a new entry at its vault-relative key. The
    /// path must lie strictly inside the root, carry a supported extension,
    /// and be new to the vault; otherwise nothing changes.
    pub fn add_path(&mut self, path: String, last_modified: u128, contents: String) -> (r: Result<
        (),
        Error,
    >)
        requires
            old(self).wf(),
        ensures
            final(self).vault_root == old(self).vault_root,
            final(self).provider == old(self).provider,
            final(self).wf(),
            match r {
                Ok(_) => {
                    &&& path_inside_root(path@, old(self).vault_root@)
                    &&& spec_extension(path@) == Some("md"@)
                    &&& spec_find(
                        old(self).entries(),
                        rel_path_of(path@, old(self).vault_root@),
                    ) is None
                    &&& final(self).entries() == old(self).entries().push(
                        (
                            rel_path_of(path@, old(self).vault_root@),
                            FileView {
                                path: path@,
                                last_modified: Some(last_modified),
                                doc: spec_doc_of(contents@),
                            },
                        ),
                    )
                },
                Err(e) => {
                    &&& final(self).entries() == old(self).entries()
                    &&& match e@ {
                        ErrorView::PathNotInVaultRoot(p, rt) => {
                            &&& p == path@
                            &&& rt == old(self).vault_root@
                            &&& !path_inside_root(path@, old(self).vault_root@)
                        },
                        ErrorView::UnsupportedFileType(p) => {
                            &&& p == path@
                            &&& path_inside_root(path@, old(self).vault_root@)
                            &&& spec_extension(path@) != Some("md"@)
                        },
                        ErrorView::VaultAlreadyContainsPath(p) => {
                            &&& p == path@
                            &&& path_inside_root(path@, old(self).vault_root@)
                            &&& spec_extension(path@) == Some("md"@)
                            &&& spec_find(
                                old(self).entries(),
                                rel_path_of(path@, old(self).vault_root@),
                            ) is Some
                        },
                        _ => false,
                    }
                },
            },
    {
        if !check_inside_root(path.as_str(), self.vault_root.as_str()) {
            let root = self.vault_root.clone();
            return Err(Error::PathNotInVaultRoot(path, root));
        }
        let ext_ok = match extension_of(path.as_str()) {
            Some(e) => str_eq(e.as_str(), "md"),
            None => false,
        };
        if !ext_ok {
            return Err(Error::UnsupportedFileType(path));
        }
        let file = match File::new_raw(path.clone(), "md", contents, Some(last_modified)) {
            Ok(f) => f,
            Err(_) => vstd::pervasive::unreached(),
        };
        self.add_file(path, file)
    }

    /// The entry at a vault-relative key.
    pub fn get_file(&self, path: &String) -> (r: Option<&File>)
        ensures
            match r {
                Some(f) => spec_get(self.entries(), path@) == Some(f@),
                None => spec_get(self.entries(), path@) is None,
            },
    {
        match find_index(&self.files, path.as_str()) {
            Some(i) => {
                proof {
                    assert(self.entries()[i as int].1 == self.files@[i as int].1@);
                }
                Some(&self.files[i].1)
            },
            None => None,
        }
    }

    /// The entry at a vault-relative key, mutably. This is the one route by
    /// which callers alter a document in place; the document's own mutators
    /// keep the embedding honest.
    pub fn get_file_mut(&mut self, path: &String) -> (r: Option<&mut File>)
        requires
            old(self).wf(),
        ensures
            match spec_find(old(self).entries(), path@) {
                Some(i) => {
                    &&& r matches Some(f)
                    &&& *f == old(self).files@[i].1
                    &&& final(self).vault_root == old(self).vault_root
                    &&& final(self).provider == old(self).provider
                    &&& final(self).files@ == old(self).files@.update(
                        i,
                        (old(self).files@[i].0, *final(f)),
                    )
                },
                None => r is None && *final(self) == *old(self),
            },
    {
        match find_index(&self.files, path.as_str()) {
            Some(i) => Some(&mut self.files[i].1),
            None => None,
        }
    }

    /// All entries, as key/entry pairs in insertion order.
    pub fn get_files(&self) -> (r: &Vec<(String, File)>)
        ensures
            r@ == self.files@,
    {
        &self.files
    }

    /// Plan a refresh batch: the keys of the stale entries, in entry order.
    /// `observed` carries the modification times a fresh scan found, one per
    /// vault-relative key. Planning requires an attached provider and fails
    /// with [`Error::NoAIDriver`] exactly when there is none; no entry is
    /// touched either way.
    pub fn plan_refresh(&self, observed: &Vec<(String, u128)>) -> (r: Result<Vec<String>, Error>)
        ensures
            match r {
                Ok(stale) => self.provider is Some && stale@.map_values(|s: String| s@)
                    == spec_stale_keys(self.entries(), observed_views(observed@)),
                Err(e) => self.provider is None && e@ == ErrorView::NoAIDriver,
            },
    {
        if self.provider.is_none() {
            return Err(Error::NoAIDriver);
        }
        let ghost obs = observed_views(observed@);
        let mut out: Vec<String> = Vec::new();
        let n = self.files.len();
        let mut i: usize = 0;
        proof {
            assert(self.entries().skip(0) =~= self.entries());
            assert(out@.map_values(|s: String| s@) =~= Seq::<Seq<char>>::empty());
            assert(Seq::<Seq<char>>::empty() + spec_stale_keys(self.entries(), obs)
                =~= spec_stale_keys(self.entries(), obs));
        }
        while i < n
            invariant
                self.provider is Some,
                n == self.files@.len(),
                0 <= i <= n,
                obs == observed_views(observed@),
                spec_stale_keys(self.entries(), obs) == out@.map_values(|s: String| s@)
                    + spec_stale_keys(self.entries().skip(i as int), obs),
            decreases n - i,
        {
            let ghost rest = self.entries().skip(i as int);
            proof {
                assert(rest[0] == self.entries()[i as int]);
                assert(rest.skip(1) =~= self.entries().skip(i as int + 1));
            }
            let no_embedding = match &self.files[i].1.contents {
                FileContents::MDFile(md) => md.embedding.is_none(),
            };
            let stale = if no_embedding {
                true
            } else {
                match observed_mtime(observed, self.files[i].0.as_str()) {
                    Some(m) => match self.files[i].1.last_modified {
                        None => true,
                        Some(t) => t < m,
                    },
                    None => false,
                }
            };
            proof {
                assert(stale == spec_is_stale(rest[0].0, rest[0].1, obs));
            }
            if stale {
                let ghost before = out@.map_values(|s: String| s@);
                out.push(self.files[i].0.clone());
                proof {
                    assert(out@.map_values(|s: String| s@) =~= before.push(rest[0].0));
                    assert(before.push(rest[0].0) =~= before + seq![rest[0].0]);
                    assert(before + (seq![rest[0].0] + spec_stale_keys(rest.skip(1), obs))
                        =~= (before + seq![rest[0].0]) + spec_stale_keys(rest.skip(1), obs));
                }
            }
            i += 1;
        }
        proof {
            assert(self.entries().skip(n as int) =~= Seq::<(Seq<char>, FileView)>::empty());
            assert(out@.map_values(|s: String| s@) + Seq::<Seq<char>>::empty()
                =~= out@.map_values(|s: String| s@));
        }
        Ok(out)
    }

    /// Apply the outcomes of one refresh batch: each entry with a successful
    /// outcome takes the produced embedding in place; a failed outcome
    /// leaves its entry untouched, and never aborts the batch.
    pub fn apply_refresh_results(&mut self, results: &Vec<(String, Option<Embedding>)>)
        requires
            old(self).wf(),
            forall|i: int|
                0 <= i < results@.len() ==> (#[trigger] results@[i].1 matches Some(e) ==> e.wf()),
        ensures
            final(self).vault_root == old(self).vault_root,
            final(self).provider == old(self).provider,
            final(self).wf(),
            final(self).entries() == spec_apply_results(
                old(self).entries(),
                result_views(results@),
            ),
    {
        let ghost orig = old(self).entries();
        let ghost rviews = result_views(results@);
        let n = self.files.len();
        let mut i: usize = 0;
        while i < n
            invariant
                old(self).wf(),
                orig == old(self).entries(),
                rviews == result_views(results@),
                forall|j: int|
                    0 <= j < results@.len() ==> (#[trigger] results@[j].1 matches Some(e)
                        ==> e.wf()),
                n == self.files@.len(),
                n == orig.len(),
                0 <= i <= n,
                self.vault_root == old(self).vault_root,
                self.provider == old(self).provider,
                entries_wf(self.entries()),
                forall|j: int|
                    0 <= j < i ==> self.entries()[j] == spec_apply_results(orig, rviews)[j],
                forall|j: int| i <= j < n ==> self.entries()[j] == orig[j],
            decreases n - i,
        {
            let found = lookup_result(results, self.files[i].0.as_str());
            match found {
                Some(Some(embedding)) => {
                    let ghost pre = self.entries();
                    let key = self.files[i].0.clone();
                    let mut file = self.files[i].1.clone();
                    match &mut file.contents {
                        FileContents::MDFile(md) => {
                            md.set_embedding(embedding);
                        },
                    }
                    let ghost gfile = file@;
                    proof {
                        assert(gfile == fv_with_embedding(orig[i as int].1, gfile.doc.embedding->0));
                        assert(gfile.wf());
                    }
                    self.files.set(i, (key, file));
                    proof {
                        let ghost cur = self.entries();
                        assert forall|j: int|
                            0 <= j < cur.len() implies (#[trigger] cur[j].1).wf() by {
                            if j != i {
                                assert(cur[j] == pre[j]);
                            } else {
                                assert(cur[j].1 == gfile);
                            }
                        }
                    }
                },
                _ => {},
            }
            proof {
                assert forall|j: int|
                    0 <= j < i + 1 implies self.entries()[j] == spec_apply_results(orig, rviews)[j]
                by {}
            }
            i += 1;
        }
        proof {
            assert(self.entries() =~= spec_apply_results(orig, rviews));
            assert forall|a: int, b: int|
                0 <= a < b < self.entries().len() implies self.entries()[a].0
                != self.entries()[b].0 by {
                assert(self.entries()[a].0 == orig[a].0);
                assert(self.entries()[b].0 == orig[b].0);
            }
        }
    }

    /// Attach an embedding provider.
    pub fn add_ai_driver(&mut self, config: OpenAIConfig)
        ensures
            final(self).provider == Some(config),
            final(self).files@ == old(self).files@,
            final(self).vault_root == old(self).vault_root,
    {
        self.provider = Some(config);
    }
}

} // verus!

//! Vault entries.
//!
//! A [`File`] is one tracked file: where it lives on disk, the modification
//! time its content was last read at, and the parsed document. The
//! modification time drives reconciliation and staleness: it reflects the
//! filesystem state at the moment the content was read, and `None` means the
//! entry was never read from disk.

use vstd::prelude::*;
use vstd::string::StringExecFns;

use crate::error::Error;
use crate::frontmatter::spec_render;
use crate::mdfile::DocView;
use crate::mdfile::MDFile;
use crate::mdfile::spec_doc_of;
use crate::text::str_eq;

verus! {

/// The parsed contents of a tracked file, by file type.
#[derive(Debug, PartialEq)]
pub enum FileContents {
    MDFile(MDFile),
}

/// One tracked file.
#[derive(Debug, PartialEq)]
pub struct File {
    /// The path the file was read from.
    pub path: String,
    /// Modification time, in milliseconds since the epoch, of the source at
    /// the moment the content was read; `None` when never read from disk.
    pub last_modified: Option<u128>,
    /// The parsed document.
    pub contents: FileContents,
}

/// The mathematical model of one entry.
pub ghost struct FileView {
    pub path: Seq<char>,
    pub last_modified: Option<u128>,
    pub doc: DocView,
}

impl View for FileContents {
    type V = DocView;

    open spec fn view(&self) -> DocView {
        match self {
            FileContents::MDFile(md) => md@,
        }
    }
}

impl View for File {
    type V = FileView;

    open spec fn view(&self) -> FileView {
        FileView { path: self.path@, last_modified: self.last_modified, doc: self.contents@ }
    }
}

impl FileView {
    /// The embedding, when present, has bounded coordinates.
    pub open spec fn wf(&self) -> bool {
        self.doc.wf()
    }
}

impl Clone for FileContents {
    /// File contents clone to contents with the same model.
    fn clone(&self) -> (r: Self)
        ensures
            r@ == self@,
    {
        match self {
            FileContents::MDFile(md) => FileContents::MDFile(md.clone()),
        }
    }
}

impl Clone for File {
    /// An entry clones to one with the same model.
    fn clone(&self) -> (r: Self)
        ensures
            r@ == self@,
    {
        File {
            path: self.path.clone(),
            last_modified: self.last_modified,
            contents: self.contents.clone(),
        }
    }
}

impl File {
    /// The embedding of the document, when present, has bounded coordinates.
    pub open spec fn wf(&self) -> bool {
        self@.wf()
    }

    /// Parse raw file text into an entry, dispatching on the extension; only
    /// `md` has a registered parser.
    pub fn new_raw(path: String, ext: &str, contents: String, last_modified: Option<u128>) -> (r:
        Result<File, Error>)
        ensures
            match r {
                Ok(f) => {
                    &&& ext@ == "md"@
                    &&& f@.path == path@
                    &&& f@.last_modified == last_modified
                    &&& f@.doc == spec_doc_of(contents@)
                    &&& f.wf()
                },
                Err(e) => {
                    &&& ext@ != "md"@
                    &&& e matches Error::UnsupportedFileType(p) && p@ == path@
                },
            },
    {
        if str_eq(ext, "md") {
            let md = MDFile::from_string(contents);
            Ok(File { path, last_modified, contents: FileContents::MDFile(md) })
        } else {
            Err(Error::UnsupportedFileType(path))
        }
    }

    /// Build an entry directly from a document; there is no source timestamp.
    pub fn from_mdfile(path: String, mdfile: MDFile) -> (r: File)
        ensures
            r@.path == path@,
            r@.last_modified is None,
            r@.doc == mdfile@,
    {
        File { path, last_modified: None, contents: FileContents::MDFile(mdfile) }
    }

    /// The document, when the file is a markdown file.
    pub fn get_mdfile(&self) -> (r: Option<&MDFile>)
        ensures
            match r {
                Some(md) => md@ == self@.doc,
                None => false,
            },
    {
        match &self.contents {
            FileContents::MDFile(md) => Some(md),
        }
    }

    /// Render this file's document back into raw text.
    pub fn rendered(&self) -> (r: String)
        ensures
            r@ == spec_render(self@.doc.yaml, self@.doc.body),
    {
        match &self.contents {
            FileContents::MDFile(md) => md.to_string(),
        }
    }

    /// The document, mutably, when the file is a markdown file. Whoever
    /// alters the content through it is responsible for the embedding: the
    /// document's own mutators clear it.
    pub fn get_mdfile_mut(&mut self) -> (r: Option<&mut MDFile>)
        ensures
            match r {
                Some(md) => {
                    &&& *md == (match old(self).contents {
                        FileContents::MDFile(m) => m,
                    })
                    &&& final(self).contents == FileContents::MDFile(*final(md))
                    &&& final(self).path == old(self).path
                    &&& final(self).last_modified == old(self).last_modified
                },
                None => false,
            },
    {
        match &mut self.contents {
            FileContents::MDFile(md) => Some(md),
        }
    }
}

/// The rendered documents of `files` in order, each followed by a blank
/// line: the notes block that a merge prompt substitutes in.
pub open spec fn spec_merge_notes(files: Seq<FileView>) -> Seq<char>
    decreases files.len(),
{
    if files.len() == 0 {
        Seq::empty()
    } else {
        spec_render(files[0].doc.yaml, files[0].doc.body) + seq!['\n', '\n'] + spec_merge_notes(
            files.skip(1),
        )
    }
}

/// Concatenate the rendered documents of `files`, each followed by a blank
/// line.
pub fn merge_notes(files: &Vec<File>) -> (r: String)
    ensures
        r@ == spec_merge_notes(files@.map_values(|f: File| f@)),
{
    let ghost views = files@.map_values(|f: File| f@);
    let mut out = String::new();
    let n = files.len();
    let mut i: usize = 0;
    proof {
        reveal_strlit("\n\n");
        assert("\n\n"@ =~= seq!['\n', '\n']);
        assert(views.skip(0) =~= views);
        assert(Seq::<char>::empty() + spec_merge_notes(views) =~= spec_merge_notes(views));
    }
    while i < n
        invariant
            n == files@.len(),
            0 <= i <= n,
            views == files@.map_values(|f: File| f@),
            "\n\n"@ == seq!['\n', '\n'],
            spec_merge_notes(views) == out@ + spec_merge_notes(views.skip(i as int)),
        decreases n - i,
    {
        let ghost rest = views.skip(i as int);
        proof {
            assert(rest[0] == views[i as int]);
            assert(rest.skip(1) =~= views.skip(i as int + 1));
        }
        let rendered = files[i].rendered();
        let ghost before = out@;
        out.append(rendered.as_str());
        out.append("\n\n");
        proof {
            let piece = spec_render(rest[0].doc.yaml, rest[0].doc.body) + seq!['\n', '\n'];
            assert(out@ =~= before + piece);
            assert(before + (piece + spec_merge_notes(rest.skip(1))) =~= (before + piece)
                + spec_merge_notes(rest.skip(1)));
        }
        i += 1;
    }
    proof {
        assert(views.skip(n as int) =~= Seq::<FileView>::empty());
        assert(out@ + Seq::<char>::empty() =~= out@);
    }
    out
}

} // verus!

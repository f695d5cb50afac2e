//! Markdown documents.
//!
//! An [`MDFile`] is one document: its front-matter text (if any), its body,
//! and the embedding derived from its content, if a current one is attached.
//! The front matter is kept as the raw text between the fences; reading or
//! updating it as a YAML mapping goes through `serde_yaml`.
//!
//! The derived embedding is valid only for the exact current content, so
//! every content mutation either clears it or proves the content unchanged.

use vstd::prelude::*;
use vstd::string::StrSliceExecFns;
use vstd::string::StringExecFns;

use crate::embedding::Embedding;
use crate::frontmatter::spec_parse;
use crate::frontmatter::spec_render;
use crate::frontmatter::split_front_matter;
use crate::frontmatter::render_document;
use crate::text::str_eq;

verus! {

/// One markdown document.
#[derive(Debug, PartialEq)]
pub struct MDFile {
    /// The raw front-matter text between the fences, without the fences and
    /// without a trailing newline; `None` when the document has none.
    pub yaml: Option<String>,
    /// The body below the front matter.
    pub body: String,
    /// The embedding computed from the current content, if any.
    pub embedding: Option<Embedding>,
}

/// The optional front matter, viewed as a sequence of characters.
pub open spec fn yaml_view(yaml: Option<String>) -> Option<Seq<char>> {
    match yaml {
        Some(s) => Some(s@),
        None => None,
    }
}

/// The mathematical model of one document.
pub ghost struct DocView {
    pub yaml: Option<Seq<char>>,
    pub body: Seq<char>,
    pub embedding: Option<Seq<i64>>,
}

impl DocView {
    /// The embedding, when present, has bounded coordinates.
    pub open spec fn wf(&self) -> bool {
        match self.embedding {
            Some(s) => crate::embedding::coords_bounded(s),
            None => true,
        }
    }
}

impl View for MDFile {
    type V = DocView;

    open spec fn view(&self) -> DocView {
        DocView {
            yaml: yaml_view(self.yaml),
            body: self.body@,
            embedding: match self.embedding {
                Some(e) => Some(e@),
                None => None,
            },
        }
    }
}

/// The document that splitting `contents` produces: its front matter and
/// body, with no embedding.
pub open spec fn spec_doc_of(contents: Seq<char>) -> DocView {
    DocView { yaml: spec_parse(contents).0, body: spec_parse(contents).1, embedding: None }
}

impl Clone for MDFile {
    /// A document clones to one with the same model.
    fn clone(&self) -> (r: Self)
        ensures
            r@ == self@,
    {
        let r = MDFile {
            yaml: self.yaml.clone(),
            body: self.body.clone(),
            embedding: self.embedding.clone(),
        };
        proof {
            match self.yaml {
                Some(_) => {
                    assert(cloned::<String>(self.yaml->0, r.yaml->0));
                },
                None => {},
            }
            match self.embedding {
                Some(_) => {
                    assert(cloned::<Embedding>(self.embedding->0, r.embedding->0));
                },
                None => {},
            }
        }
        r
    }
}

/// The string value at `key` when `raw` denotes a YAML mapping and the value
/// there is a string, as `serde_yaml` reads it.
pub uninterp spec fn yaml_string_at(raw: Seq<char>, key: Seq<char>) -> Option<Seq<char>>;

/// The rendered text of the mapping denoted by `raw` with `key` bound to the
/// string `value`; `None` when `raw` does not denote a mapping, as
/// `serde_yaml` reads and writes it.
pub uninterp spec fn yaml_with_key(raw: Seq<char>, key: Seq<char>, value: Seq<char>) -> Option<
    Seq<char>,
>;

/// Relies on `serde_yaml::from_str`, `serde_yaml::Value::get` and
/// `serde_yaml::Value::as_str`: the string value at `key` of the mapping that
/// `raw` denotes. The result depends on `raw` and `key` alone.
#[verifier::external_body]
fn yaml_lookup(raw: &str, key: &str) -> (r: Option<String>)
    ensures
        match (r, yaml_string_at(raw@, key@)) {
            (Some(v), Some(s)) => v@ == s,
            (None, None) => true,
            _ => false,
        },
{
    let value: serde_yaml::Value = serde_yaml::from_str(raw).ok()?;
    let entry = value.get(key)?;
    Some(entry.as_str()?.to_string())
}

/// Relies on `serde_yaml::from_str`, `serde_yaml::Mapping::insert` and
/// `serde_yaml::to_string`: parse `raw` as a mapping, bind `key` to the
/// string `value`, and render the result. The result depends on the
/// arguments alone.
#[verifier::external_body]
fn yaml_insert(raw: &str, key: &str, value: &str) -> (r: Option<String>)
    ensures
        match (r, yaml_with_key(raw@, key@, value@)) {
            (Some(v), Some(s)) => v@ == s,
            (None, None) => true,
            _ => false,
        },
{
    let mut mapping: serde_yaml::Mapping = serde_yaml::from_str(raw).ok()?;
    mapping.insert(
        serde_yaml::Value::String(key.to_string()),
        serde_yaml::Value::String(value.to_string()),
    );
    serde_yaml::to_string(&mapping).ok()
}

/// `s` without one trailing newline, if it ends with one.
pub open spec fn spec_strip_newline(s: Seq<char>) -> Seq<char> {
    if s.len() > 0 && s[s.len() - 1] == '\n' {
        s.take(s.len() - 1)
    } else {
        s
    }
}

/// The front matter after binding `key` to `value`: the re-rendered mapping
/// (an absent front matter counts as the empty mapping), or the old front
/// matter unchanged when it does not denote a mapping. The rendered text's
/// trailing newline is stripped, since the stored front matter carries none.
pub open spec fn spec_yaml_after_insert(
    yaml: Option<Seq<char>>,
    key: Seq<char>,
    value: Seq<char>,
) -> Option<Seq<char>> {
    let base = match yaml {
        Some(y) => y,
        None => "{}"@,
    };
    match yaml_with_key(base, key, value) {
        Some(rendered) => Some(spec_strip_newline(rendered)),
        None => yaml,
    }
}

/// `s` without one trailing newline, in executable code.
fn strip_trailing_newline(s: String) -> (r: String)
    ensures
        r@ == spec_strip_newline(s@),
{
    let len = s.as_str().unicode_len();
    if len > 0 && s.as_str().get_char(len - 1) == '\n' {
        s.as_str().substring_char(0, len - 1).to_owned()
    } else {
        s
    }
}

impl MDFile {
    /// The embedding, when present, has bounded coordinates.
    pub open spec fn wf(&self) -> bool {
        match self.embedding {
            Some(e) => e.wf(),
            None => true,
        }
    }

    /// A fresh document from explicit front matter and body; it carries no
    /// embedding.
    pub fn new(yaml: Option<String>, body: String) -> (r: MDFile)
        ensures
            r.yaml == yaml,
            r.body == body,
            r.embedding is None,
            r.wf(),
    {
        MDFile { yaml, body, embedding: None }
    }

    /// Split raw text into front matter and body; the document carries no
    /// embedding.
    pub fn from_string(contents: String) -> (r: MDFile)
        ensures
            yaml_view(r.yaml) == spec_parse(contents@).0,
            r.body@ == spec_parse(contents@).1,
            r.embedding is None,
            r.wf(),
    {
        let (yaml, body) = split_front_matter(contents.as_str());
        MDFile { yaml, body, embedding: None }
    }

    /// Render the document back into raw text.
    pub fn to_string(&self) -> (r: String)
        ensures
            r@ == spec_render(yaml_view(self.yaml), self.body@),
    {
        render_document(self.yaml.as_ref(), self.body.as_str())
    }

    /// Replace the front matter. The embedding is cleared unless the new
    /// front matter is equal to the old, in which case the content is
    /// unchanged and the embedding stays current.
    pub fn set_yaml(&mut self, yaml: String)
        ensures
            final(self).yaml == Some(yaml),
            final(self).body == old(self).body,
            final(self).embedding == if old(self).yaml matches Some(y) && y@ == yaml@ {
                old(self).embedding
            } else {
                None::<Embedding>
            },
            old(self).wf() ==> final(self).wf(),
    {
        let keep = match &self.yaml {
            Some(y) => str_eq(y.as_str(), yaml.as_str()),
            None => false,
        };
        if !keep {
            self.embedding = None;
        }
        self.yaml = Some(yaml);
    }

    /// Replace the body; the embedding is always cleared.
    pub fn set_body(&mut self, body: String)
        ensures
            final(self).body == body,
            final(self).yaml == old(self).yaml,
            final(self).embedding is None,
            final(self).wf(),
    {
        self.embedding = None;
        self.body = body;
    }

    /// The body text.
    pub fn get_body(&self) -> (r: &String)
        ensures
            r@ == self.body@,
    {
        &self.body
    }

    /// The raw front-matter text, if the document has front matter.
    pub fn get_yaml(&self) -> (r: Option<&String>)
        ensures
            match r {
                Some(y) => self.yaml == Some(*y),
                None => self.yaml is None,
            },
    {
        self.yaml.as_ref()
    }

    /// The string value bound to `key` in the front matter, read as a YAML
    /// mapping; `None` when there is no front matter, it is not a mapping,
    /// or the key is absent or not a string.
    pub fn get_yaml_key(&self, key: &str) -> (r: Option<String>)
        ensures
            match self.yaml {
                Some(y) => match (r, yaml_string_at(y@, key@)) {
                    (Some(v), Some(s)) => v@ == s,
                    (None, None) => true,
                    _ => false,
                },
                None => r is None,
            },
    {
        match &self.yaml {
            Some(y) => yaml_lookup(y.as_str(), key),
            None => None,
        }
    }

    /// Bind `key` to the string `value` in the front-matter mapping, creating
    /// the mapping when there is no front matter; the embedding is always
    /// cleared. Front matter that does not denote a mapping is left as it is.
    pub fn add_yaml_key(&mut self, key: String, value: String)
        ensures
            final(self).body == old(self).body,
            final(self).embedding is None,
            yaml_view(final(self).yaml) == spec_yaml_after_insert(
                yaml_view(old(self).yaml),
                key@,
                value@,
            ),
            final(self).wf(),
    {
        self.embedding = None;
        let inserted = match &self.yaml {
            Some(y) => yaml_insert(y.as_str(), key.as_str(), value.as_str()),
            None => yaml_insert("{}", key.as_str(), value.as_str()),
        };
        match inserted {
            Some(rendered) => {
                self.yaml = Some(strip_trailing_newline(rendered));
            },
            None => {},
        }
    }

    /// The embedding, if a current one is attached.
    pub fn get_embedding(&self) -> (r: Option<&Embedding>)
        ensures
            match r {
                Some(e) => self.embedding == Some(*e),
                None => self.embedding is None,
            },
    {
        self.embedding.as_ref()
    }

    /// Attach an embedding freshly computed from the current content.
    pub fn set_embedding(&mut self, embedding: Embedding)
        requires
            embedding.wf(),
        ensures
            final(self).yaml == old(self).yaml,
            final(self).body == old(self).body,
            final(self).embedding == Some(embedding),
            final(self).wf(),
    {
        self.embedding = Some(embedding);
    }
}

} // verus!

//! The front-matter frame grammar.
//!
//! A document's raw text may open with a fenced front-matter block:
//!
//! ```text
//! ---
//! <front matter>
//! ---
//! <body>
//! ```
//!
//! Splitting finds the earliest closing fence after the opening one; the
//! closing fence is `---` optionally preceded and optionally followed by a
//! newline, either of which it consumes. Text without an opening fence, or
//! without any closing fence, is all body. Rendering re-frames the front
//! matter and appends the body; [`lemma_parse_render_round_trip`] proves that
//! rendering is idempotent across a parse round trip.

use vstd::prelude::*;
use vstd::string::StrSliceExecFns;
use vstd::string::StringExecFns;

verus! {

/// The three dashes of a front-matter fence.
pub open spec fn fence() -> Seq<char> {
    seq!['-', '-', '-']
}

/// The opening fence: three dashes and a newline at the very start.
pub open spec fn open_fence() -> Seq<char> {
    seq!['-', '-', '-', '\n']
}

/// What rendering places between front matter and body.
pub open spec fn close_fence() -> Seq<char> {
    seq!['\n', '-', '-', '-', '\n']
}

/// The text opens with a front-matter fence.
pub open spec fn starts_with_fence(t: Seq<char>) -> bool {
    t.len() >= 4 && t.subrange(0, 4) == open_fence()
}

/// A closing fence matches with the front matter ending at position `j`:
/// either a newline followed by three dashes, or three dashes directly.
pub open spec fn closing_at(t: Seq<char>, j: int) -> bool {
    ||| (j + 4 <= t.len() && t[j] == '\n' && t.subrange(j + 1, j + 4) == fence())
    ||| (j + 3 <= t.len() && t.subrange(j, j + 3) == fence())
}

/// The earliest position `>= j` where a closing fence matches.
pub open spec fn find_closing(t: Seq<char>, j: int) -> Option<int>
    decreases t.len() - j when j <= t.len()
{
    if j + 3 > t.len() {
        None
    } else if closing_at(t, j) {
        Some(j)
    } else {
        find_closing(t, j + 1)
    }
}

/// Split raw text into optional front matter and body.
pub open spec fn spec_parse(t: Seq<char>) -> (Option<Seq<char>>, Seq<char>) {
    if starts_with_fence(t) {
        match find_closing(t, 4) {
            Some(j) => {
                let yaml = t.subrange(4, j);
                let after = if t[j] == '\n' {
                    j + 4
                } else {
                    j + 3
                };
                let body_start = if after < t.len() && t[after] == '\n' {
                    after + 1
                } else {
                    after
                };
                (Some(yaml), t.subrange(body_start, t.len() as int))
            },
            None => (None, t),
        }
    } else {
        (None, t)
    }
}

/// Re-frame the front matter, if any, and append the body.
pub open spec fn spec_render(yaml: Option<Seq<char>>, body: Seq<char>) -> Seq<char> {
    match yaml {
        Some(y) => open_fence() + y + close_fence() + body,
        None => body,
    }
}

/// No closing fence matches anywhere inside the front-matter text itself.
/// Splitting always produces clean front matter, because it stops at the
/// earliest closing fence.
pub open spec fn clean_yaml(y: Seq<char>) -> bool {
    forall|m: int| 0 <= m < y.len() ==> !closing_at(y, m)
}

/// What `find_closing` finds is a closing fence, and the earliest one.
proof fn lemma_find_closing_spec(t: Seq<char>, a: int)
    requires
        0 <= a <= t.len(),
    ensures
        match find_closing(t, a) {
            Some(j) => {
                &&& a <= j
                &&& j + 3 <= t.len()
                &&& closing_at(t, j)
                &&& forall|k: int| a <= k < j ==> !closing_at(t, k)
            },
            None => forall|k: int| a <= k ==> !closing_at(t, k),
        },
    decreases t.len() - a,
{
    if a + 3 > t.len() {
        assert forall|k: int| a <= k implies !closing_at(t, k) by {
            assert(k + 3 > t.len());
        }
    } else if closing_at(t, a) {
    } else {
        lemma_find_closing_spec(t, a + 1);
    }
}

/// A known earliest closing fence determines `find_closing`.
proof fn lemma_find_closing_at(t: Seq<char>, a: int, j: int)
    requires
        0 <= a <= j,
        j + 3 <= t.len(),
        closing_at(t, j),
        forall|k: int| a <= k < j ==> !closing_at(t, k),
    ensures
        find_closing(t, a) == Some(j),
    decreases j - a,
{
    if a < j {
        lemma_find_closing_at(t, a + 1, j);
    }
}

/// The front matter produced by a split is clean: a closing fence inside it
/// would have been an earlier closing fence of the whole text.
proof fn lemma_parsed_yaml_clean(t: Seq<char>, j: int)
    requires
        starts_with_fence(t),
        find_closing(t, 4) == Some(j),
    ensures
        clean_yaml(t.subrange(4, j)),
{
    lemma_find_closing_spec(t, 4);
    let y = t.subrange(4, j);
    assert forall|m: int| 0 <= m < y.len() implies !closing_at(y, m) by {
        if closing_at(y, m) {
            if m + 4 <= y.len() && y[m] == '\n' && y.subrange(m + 1, m + 4) == fence() {
                assert(t.subrange(m + 5, m + 8) =~= y.subrange(m + 1, m + 4));
                assert(t[m + 4] == y[m]);
                assert(closing_at(t, m + 4));
            } else {
                assert(t.subrange(m + 4, m + 7) =~= y.subrange(m, m + 3));
                assert(closing_at(t, m + 4));
            }
            assert(4 <= m + 4 < j);
        }
    }
}

/// Splitting a rendered document recovers exactly its parts, provided the
/// front matter is clean.
proof fn lemma_parse_of_render(y: Seq<char>, b: Seq<char>)
    requires
        clean_yaml(y),
    ensures
        spec_parse(spec_render(Some(y), b)) == (Some(y), b),
{
    let r = spec_render(Some(y), b);
    let yl = y.len() as int;
    let l = 4 + yl;
    assert(r.len() == yl + b.len() + 9);
    assert forall|x: int| 0 <= x < yl implies r[4 + x] == y[x] by {}
    assert(r.subrange(0, 4) =~= open_fence());
    assert(starts_with_fence(r));
    // the closing fence placed by rendering matches at position l
    assert(r[l] == '\n');
    assert(r.subrange(l + 1, l + 4) =~= fence());
    assert(closing_at(r, l));
    // and no closing fence matches earlier
    assert forall|k: int| 4 <= k < l implies !closing_at(r, k) by {
        if closing_at(r, k) {
            if k + 4 <= r.len() && r[k] == '\n' && r.subrange(k + 1, k + 4) == fence() {
                if k + 3 < l {
                    assert(y.subrange(k - 3, k) =~= r.subrange(k + 1, k + 4));
                    assert(y[k - 4] == r[k]);
                    assert(closing_at(y, k - 4));
                    assert(false);
                } else {
                    // the window covers position l, where a newline stands
                    assert(r.subrange(k + 1, k + 4)[l - k - 1] == r[l]);
                    assert(false);
                }
            } else {
                if k + 2 < l {
                    assert(y.subrange(k - 4, k - 1) =~= r.subrange(k, k + 3));
                    assert(closing_at(y, k - 4));
                    assert(false);
                } else {
                    assert(r.subrange(k, k + 3)[l - k] == r[l]);
                    assert(false);
                }
            }
        }
    }
    lemma_find_closing_at(r, 4, l);
    assert(r[l + 4] == '\n');
    assert(spec_parse(r).0 == Some(r.subrange(4, l)));
    assert(r.subrange(4, l) =~= y);
    assert(r.subrange(l + 5, r.len() as int) =~= b);
}

/// Splitting, re-rendering, and splitting again yields the same document, so
/// rendering is idempotent across a parse round trip.
pub proof fn lemma_parse_render_round_trip(t: Seq<char>)
    ensures
        spec_parse(spec_render(spec_parse(t).0, spec_parse(t).1)) == spec_parse(t),
        spec_render(
            spec_parse(spec_render(spec_parse(t).0, spec_parse(t).1)).0,
            spec_parse(spec_render(spec_parse(t).0, spec_parse(t).1)).1,
        ) == spec_render(spec_parse(t).0, spec_parse(t).1),
{
    let (y, b) = spec_parse(t);
    match y {
        None => {
            assert(b == t);
            assert(spec_render(None, b) == t);
        },
        Some(yy) => {
            let j = find_closing(t, 4)->Some_0;
            lemma_parsed_yaml_clean(t, j);
            lemma_parse_of_render(yy, b);
        },
    }
}

/// Split raw text into its front matter, if any, and its body.
pub fn split_front_matter(t: &str) -> (r: (Option<String>, String))
    ensures
        match (r.0, spec_parse(t@).0) {
            (Some(y), Some(sy)) => y@ == sy,
            (None, None) => true,
            _ => false,
        },
        r.1@ == spec_parse(t@).1,
{
    let len = t.unicode_len();
    if !(len >= 4 && t.get_char(0) == '-' && t.get_char(1) == '-' && t.get_char(2) == '-'
        && t.get_char(3) == '\n') {
        proof {
            if starts_with_fence(t@) {
                assert(t@.subrange(0, 4)[0] == t@[0]);
                assert(t@.subrange(0, 4)[1] == t@[1]);
                assert(t@.subrange(0, 4)[2] == t@[2]);
                assert(t@.subrange(0, 4)[3] == t@[3]);
                assert(false);
            }
        }
        return (None, t.to_owned());
    }
    proof {
        assert(t@.subrange(0, 4) =~= open_fence());
    }
    let mut j: usize = 4;
    loop
        invariant
            len == t@.len(),
            4 <= j <= len,
            starts_with_fence(t@),
            forall|k: int| 4 <= k < j ==> !closing_at(t@, k),
            find_closing(t@, 4) == find_closing(t@, j as int),
        decreases len - j,
    {
        if j > len - 3 {
            proof {
                assert(find_closing(t@, j as int) is None);
            }
            return (None, t.to_owned());
        }
        let opt1 = j <= len - 4 && t.get_char(j) == '\n' && t.get_char(j + 1) == '-'
            && t.get_char(j + 2) == '-' && t.get_char(j + 3) == '-';
        let opt2 = t.get_char(j) == '-' && t.get_char(j + 1) == '-' && t.get_char(j + 2) == '-';
        if opt1 || opt2 {
            proof {
                if opt1 {
                    assert(t@.subrange(j as int + 1, j as int + 4) =~= fence());
                } else {
                    assert(t@.subrange(j as int, j as int + 3) =~= fence());
                }
                assert(closing_at(t@, j as int));
                assert(find_closing(t@, 4) == Some(j as int));
            }
            let after: usize = if opt1 {
                j + 4
            } else {
                j + 3
            };
            let body_start: usize = if after < len && t.get_char(after) == '\n' {
                after + 1
            } else {
                after
            };
            let yaml = t.substring_char(4, j).to_owned();
            let body = t.substring_char(body_start, len).to_owned();
            return (Some(yaml), body);
        }
        proof {
            assert(!closing_at(t@, j as int)) by {
                if closing_at(t@, j as int) {
                    if t@[j as int] == '\n' && j + 4 <= len && t@.subrange(
                        j as int + 1,
                        j as int + 4,
                    ) == fence() {
                        assert(t@.subrange(j as int + 1, j as int + 4)[0] == t@[j as int + 1]);
                        assert(t@.subrange(j as int + 1, j as int + 4)[1] == t@[j as int + 2]);
                        assert(t@.subrange(j as int + 1, j as int + 4)[2] == t@[j as int + 3]);
                        assert(false);
                    } else {
                        assert(t@.subrange(j as int, j as int + 3)[0] == t@[j as int]);
                        assert(t@.subrange(j as int, j as int + 3)[1] == t@[j as int + 1]);
                        assert(t@.subrange(j as int, j as int + 3)[2] == t@[j as int + 2]);
                        assert(false);
                    }
                }
            }
        }
        j += 1;
    }
}

/// Render a document's parts back into raw text.
pub fn render_document(yaml: Option<&String>, body: &str) -> (r: String)
    ensures
        r@ == spec_render(
            match yaml {
                Some(y) => Some(y@),
                None => None,
            },
            body@,
        ),
{
    match yaml {
        Some(y) => {
            proof {
                reveal_strlit("---\n");
                reveal_strlit("\n---\n");
                assert("---\n"@ =~= open_fence());
                assert("\n---\n"@ =~= close_fence());
            }
            let mut out = String::from_str("---\n");
            out.append(y.as_str());
            out.append("\n---\n");
            out.append(body);
            out
        },
        None => body.to_owned(),
    }
}

} // verus!

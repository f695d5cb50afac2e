//! Prompts and substitution contexts.
//!
//! A [`Prompt`] carries a system part, a user part, and an optional response
//! budget in characters. Either part may contain placeholder tokens of the
//! shape `[word]`, where `word` is one or more ASCII word characters
//! (letters, digits, underscores). [`Prompt::substitute`] replaces every such
//! token by the value bound to `word` in a [`Context`], and fails on the
//! first token whose key has no binding.

use vstd::pervasive::VecAdditionalExecFns;
use vstd::prelude::*;
use vstd::string::StrSliceExecFns;
use vstd::string::StringExecFns;

use crate::error::Error;
use crate::text::str_eq;

verus! {

/// A chat prompt: a system part, a user part, and an optional cap on the
/// response length in characters.
#[derive(Clone, Debug, PartialEq)]
pub struct Prompt {
    pub system_prompt: String,
    pub user_prompt: String,
    pub max_characters: Option<u32>,
}

/// A substitution context: ordered key/value bindings with pairwise distinct
/// keys.
#[derive(Clone, Debug, PartialEq)]
pub struct Context {
    pub bindings: Vec<(String, String)>,
}

/// The mathematical model of a prompt.
pub ghost struct PromptView {
    pub system_prompt: Seq<char>,
    pub user_prompt: Seq<char>,
    pub max_characters: Option<u32>,
}

impl View for Prompt {
    type V = PromptView;

    open spec fn view(&self) -> PromptView {
        PromptView {
            system_prompt: self.system_prompt@,
            user_prompt: self.user_prompt@,
            max_characters: self.max_characters,
        }
    }
}

/// The keys of `bindings` are pairwise distinct.
pub open spec fn ctx_wf(bindings: Seq<(String, String)>) -> bool {
    forall|i: int, j: int|
        0 <= i < j < bindings.len() ==> bindings[i].0@ != bindings[j].0@
}

/// The value bound to `key`: the first binding whose key matches.
pub open spec fn spec_lookup(bindings: Seq<(String, String)>, key: Seq<char>) -> Option<Seq<char>>
    decreases bindings.len(),
{
    if bindings.len() == 0 {
        None
    } else if bindings[0].0@ == key {
        Some(bindings[0].1@)
    } else {
        spec_lookup(bindings.skip(1), key)
    }
}

/// A word character, as placeholder keys are made of.
pub open spec fn is_word_char(c: char) -> bool {
    ||| ('a' <= c && c <= 'z')
    ||| ('A' <= c && c <= 'Z')
    ||| ('0' <= c && c <= '9')
    ||| c == '_'
}

/// Length of the maximal run of word characters in `t` starting at `i`.
pub open spec fn word_run(t: Seq<char>, i: int) -> int
    decreases t.len() - i when i <= t.len()
{
    if 0 <= i < t.len() && is_word_char(t[i]) {
        1 + word_run(t, i + 1)
    } else {
        0
    }
}

/// A placeholder token `[word]` begins at position `i` of `t`.
pub open spec fn token_at(t: Seq<char>, i: int) -> bool {
    &&& 0 <= i < t.len()
    &&& t[i] == '['
    &&& word_run(t, i + 1) >= 1
    &&& i + 1 + word_run(t, i + 1) < t.len()
    &&& t[i + 1 + word_run(t, i + 1)] == ']'
}

/// The key of the token beginning at position `i` of `t`.
pub open spec fn token_key(t: Seq<char>, i: int) -> Seq<char> {
    t.subrange(i + 1, i + 1 + word_run(t, i + 1))
}

/// The substituted form of `t` under `bindings`: every placeholder token is
/// replaced by the value bound to its key, scanning left to right; the result
/// is `Err(key)` for the first key without a binding.
pub open spec fn spec_substitute(t: Seq<char>, bindings: Seq<(String, String)>) -> Result<
    Seq<char>,
    Seq<char>,
>
    decreases t.len(),
{
    if t.len() == 0 {
        Ok(Seq::empty())
    } else if token_at(t, 0) {
        let w = word_run(t, 1);
        let key = token_key(t, 0);
        match spec_lookup(bindings, key) {
            Some(v) => match spec_substitute(t.skip(w + 2), bindings) {
                Ok(rest) => Ok(v + rest),
                Err(k) => Err(k),
            },
            None => Err(key),
        }
    } else {
        match spec_substitute(t.skip(1), bindings) {
            Ok(rest) => Ok(seq![t[0]] + rest),
            Err(k) => Err(k),
        }
    }
}

/// Substituting both parts of a prompt: the system part first, then the user
/// part; the first missing key of either is the error.
pub open spec fn spec_prompt_substitute(
    sys: Seq<char>,
    user: Seq<char>,
    bindings: Seq<(String, String)>,
) -> Result<(Seq<char>, Seq<char>), Seq<char>> {
    match spec_substitute(sys, bindings) {
        Ok(s) => match spec_substitute(user, bindings) {
            Ok(u) => Ok((s, u)),
            Err(k) => Err(k),
        },
        Err(k) => Err(k),
    }
}

/// The message carried by the error for a missing context key.
pub open spec fn missing_key_message(key: Seq<char>) -> Seq<char> {
    "Key not found in context: "@ + key
}

impl Default for Context {
    /// An empty context.
    fn default() -> (r: Self)
        ensures
            r.bindings@.len() == 0,
    {
        Context { bindings: Vec::new() }
    }
}

impl Context {
    /// The keys of the context are pairwise distinct.
    pub open spec fn wf(&self) -> bool {
        ctx_wf(self.bindings@)
    }

    /// Bind `key` to `value`, replacing any existing binding for `key`.
    pub fn insert(&mut self, key: &str, value: &str)
        requires
            old(self).wf(),
        ensures
            final(self).wf(),
            spec_lookup(final(self).bindings@, key@) == Some(value@),
            forall|k: Seq<char>|
                k != key@ ==> spec_lookup(final(self).bindings@, k) == spec_lookup(
                    old(self).bindings@,
                    k,
                ),
    {
        let ghost orig = self.bindings@;
        let n = self.bindings.len();
        let mut i: usize = 0;
        while i < n
            invariant
                self.bindings@ == orig,
                old(self).bindings@ == orig,
                n == orig.len(),
                0 <= i <= n,
                ctx_wf(orig),
                forall|j: int| 0 <= j < i ==> orig[j].0@ != key@,
            decreases n - i,
        {
            if str_eq(self.bindings[i].0.as_str(), key) {
                let pair = (key.to_owned(), value.to_owned());
                let ghost gpair = pair;
                proof {
                    lemma_lookup_update(orig, i as int, gpair);
                    assert forall|a: int, b: int|
                        0 <= a < b < orig.len() implies orig.update(i as int, gpair)[a].0@
                        != orig.update(i as int, gpair)[b].0@ by {
                        assert(orig.update(i as int, gpair)[a].0@ == orig[a].0@);
                        assert(orig.update(i as int, gpair)[b].0@ == orig[b].0@);
                    }
                }
                self.bindings.set(i, pair);
                proof {
                    assert(self.bindings@ == orig.update(i as int, gpair));
                    assert(orig == old(self).bindings@);
                    assert forall|k: Seq<char>| k != key@ implies #[trigger] spec_lookup(
                        self.bindings@,
                        k,
                    ) == spec_lookup(orig, k) by {
                        assert(spec_lookup(orig.update(i as int, gpair), k) == spec_lookup(
                            orig,
                            k,
                        ));
                    }
                }
                return ;
            }
            i += 1;
        }
        let pair = (key.to_owned(), value.to_owned());
        let ghost gpair = pair;
        proof {
            lemma_lookup_push(orig, gpair);
        }
        self.bindings.push(pair);
        proof {
            assert(self.bindings@ == orig.push(gpair));
            assert forall|a: int, b: int|
                0 <= a < b < self.bindings@.len() implies self.bindings@[a].0@
                != self.bindings@[b].0@ by {
                if b < orig.len() {
                    assert(self.bindings@[a].0@ == orig[a].0@);
                    assert(self.bindings@[b].0@ == orig[b].0@);
                } else {
                    assert(self.bindings@[a].0@ == orig[a].0@);
                    assert(self.bindings@[b].0@ == key@);
                }
            }
            assert(orig == old(self).bindings@);
            assert forall|k: Seq<char>| k != key@ implies #[trigger] spec_lookup(self.bindings@, k)
                == spec_lookup(orig, k) by {
                assert(spec_lookup(orig.push(gpair), k) == spec_lookup(orig, k));
            }
        }
    }

    /// The value bound to `key`, if any.
    pub fn get(&self, key: &str) -> (r: Option<&String>)
        ensures
            match r {
                Some(v) => spec_lookup(self.bindings@, key@) == Some(v@),
                None => spec_lookup(self.bindings@, key@) is None,
            },
    {
        let n = self.bindings.len();
        let mut i: usize = 0;
        while i < n
            invariant
                n == self.bindings@.len(),
                0 <= i <= n,
                forall|j: int| 0 <= j < i ==> self.bindings@[j].0@ != key@,
            decreases n - i,
        {
            if str_eq(self.bindings[i].0.as_str(), key) {
                proof {
                    lemma_lookup_first_match(self.bindings@, i as int, key@);
                }
                return Some(&self.bindings[i].1);
            }
            i += 1;
        }
        proof {
            lemma_lookup_all_miss(self.bindings@, key@);
        }
        None
    }
}

/// Prefix a sequence onto the success value of a substitution result.
pub open spec fn prepend_result(prefix: Seq<char>, r: Result<Seq<char>, Seq<char>>) -> Result<
    Seq<char>,
    Seq<char>,
> {
    match r {
        Ok(s) => Ok(prefix + s),
        Err(k) => Err(k),
    }
}

impl Prompt {
    /// Build a prompt from its parts.
    pub fn new(system_prompt: &str, user_prompt: &str, max_characters: Option<u32>) -> (p: Prompt)
        ensures
            p.system_prompt@ == system_prompt@,
            p.user_prompt@ == user_prompt@,
            p.max_characters == max_characters,
    {
        Prompt {
            system_prompt: system_prompt.to_owned(),
            user_prompt: user_prompt.to_owned(),
            max_characters,
        }
    }

    /// Replace every `[word]` token of both parts by the context value bound
    /// to `word`; fail with the first key that has no binding.
    pub fn substitute(&self, context: &Context) -> (r: Result<Prompt, Error>)
        ensures
            match r {
                Ok(p) => {
                    &&& spec_prompt_substitute(
                        self.system_prompt@,
                        self.user_prompt@,
                        context.bindings@,
                    ) == Ok::<_, Seq<char>>((p.system_prompt@, p.user_prompt@))
                    &&& p.max_characters == self.max_characters
                },
                Err(e) => match spec_prompt_substitute(
                    self.system_prompt@,
                    self.user_prompt@,
                    context.bindings@,
                ) {
                    Err(k) => e matches Error::InvalidContextKey(m) && m@ == missing_key_message(
                        k,
                    ),
                    Ok(_) => false,
                },
            },
    {
        let system_prompt = match substitute_text(self.system_prompt.as_str(), context) {
            Ok(s) => s,
            Err(key) => {
                return Err(missing_key_error(&key));
            },
        };
        let user_prompt = match substitute_text(self.user_prompt.as_str(), context) {
            Ok(s) => s,
            Err(key) => {
                return Err(missing_key_error(&key));
            },
        };
        Ok(Prompt { system_prompt, user_prompt, max_characters: self.max_characters })
    }
}

/// The error reported for a placeholder key without a binding.
fn missing_key_error(key: &String) -> (e: Error)
    ensures
        e matches Error::InvalidContextKey(m) && m@ == missing_key_message(key@),
{
    let msg = String::from_str("Key not found in context: ").concat(key.as_str());
    Error::InvalidContextKey(msg)
}

/// Whether `c` is a word character, decided in executable code.
fn is_word_char_exec(c: char) -> (r: bool)
    ensures
        r == is_word_char(c),
{
    ('a' <= c && c <= 'z') || ('A' <= c && c <= 'Z') || ('0' <= c && c <= '9') || c == '_'
}

/// Length of the maximal run of word characters in `t` starting at `start`.
fn word_run_exec(t: &str, start: usize, len: usize) -> (w: usize)
    requires
        len == t@.len(),
        start <= len,
    ensures
        w == word_run(t@, start as int),
        start + w <= len,
{
    let mut i: usize = start;
    loop
        invariant
            len == t@.len(),
            start <= i <= len,
            word_run(t@, start as int) == i - start + word_run(t@, i as int),
        decreases len - i,
    {
        if i < len && is_word_char_exec(t.get_char(i)) {
            i += 1;
        } else {
            proof {
                assert(word_run(t@, i as int) == 0);
            }
            return i - start;
        }
    }
}

/// `word_run` looks only at the characters from its start position on, so it
/// is unchanged by dropping an earlier prefix.
proof fn lemma_word_run_skip(t: Seq<char>, i: int, j: int)
    requires
        0 <= i <= j <= t.len(),
    ensures
        word_run(t.skip(i), j - i) == word_run(t, j),
    decreases t.len() - j,
{
    if j < t.len() {
        assert(t.skip(i)[j - i] == t[j]);
        if is_word_char(t[j]) {
            lemma_word_run_skip(t, i, j + 1);
        }
    }
}

/// One substituted string, built by a left-to-right scan.
fn substitute_text(t: &str, ctx: &Context) -> (r: Result<String, String>)
    ensures
        match r {
            Ok(s) => spec_substitute(t@, ctx.bindings@) == Ok::<Seq<char>, Seq<char>>(s@),
            Err(k) => spec_substitute(t@, ctx.bindings@) == Err::<Seq<char>, Seq<char>>(k@),
        },
{
    let len = t.unicode_len();
    let mut out = String::new();
    let mut i: usize = 0;
    proof {
        assert(t@.skip(0) =~= t@);
        match spec_substitute(t@, ctx.bindings@) {
            Ok(s) => {
                assert(Seq::<char>::empty() + s =~= s);
            },
            Err(_) => {},
        }
    }
    while i < len
        invariant
            len == t@.len(),
            0 <= i <= len,
            spec_substitute(t@, ctx.bindings@) == prepend_result(
                out@,
                spec_substitute(t@.skip(i as int), ctx.bindings@),
            ),
        decreases len - i,
    {
        let ghost u = t@.skip(i as int);
        proof {
            assert(u.len() == len - i);
            assert(u[0] == t@[i as int]);
        }
        let c = t.get_char(i);
        let w = word_run_exec(t, i + 1, len);
        proof {
            lemma_word_run_skip(t@, i as int, i as int + 1);
        }
        if c == '[' && w >= 1 && i + 1 + w < len && t.get_char(i + 1 + w) == ']' {
            proof {
                assert(u[1 + w] == t@[i + 1 + w]);
                assert(token_at(u, 0));
                assert(token_key(u, 0) =~= t@.subrange(i as int + 1, i as int + 1 + w));
            }
            let key = t.substring_char(i + 1, i + 1 + w).to_owned();
            match ctx.get(key.as_str()) {
                Some(value) => {
                    proof {
                        assert(u.skip(w as int + 2) =~= t@.skip(i as int + 2 + w));
                        match spec_substitute(t@.skip(i as int + 2 + w), ctx.bindings@) {
                            Ok(rest) => {
                                assert(out@ + (value@ + rest) =~= (out@ + value@) + rest);
                            },
                            Err(_) => {},
                        }
                    }
                    out.append(value.as_str());
                    i = i + 2 + w;
                },
                None => {
                    return Err(key);
                },
            }
        } else {
            proof {
                assert(!token_at(u, 0));
                assert(u.skip(1) =~= t@.skip(i as int + 1));
                assert(seq![u[0]] =~= t@.subrange(i as int, i as int + 1));
                match spec_substitute(t@.skip(i as int + 1), ctx.bindings@) {
                    Ok(rest) => {
                        assert(out@ + (seq![u[0]] + rest) =~= (out@ + seq![u[0]]) + rest);
                    },
                    Err(_) => {},
                }
            }
            out.append(t.substring_char(i, i + 1));
            i += 1;
        }
    }
    proof {
        assert(t@.skip(len as int) =~= Seq::<char>::empty());
        assert(out@ + Seq::<char>::empty() =~= out@);
    }
    Ok(out)
}

/// If every key of `s` misses `key`, the lookup is `None`.
proof fn lemma_lookup_all_miss(s: Seq<(String, String)>, key: Seq<char>)
    requires
        forall|j: int| 0 <= j < s.len() ==> s[j].0@ != key,
    ensures
        spec_lookup(s, key) is None,
    decreases s.len(),
{
    if s.len() > 0 {
        lemma_lookup_all_miss(s.skip(1), key);
    }
}

/// If entry `i` is the first whose key matches, the lookup returns its value.
proof fn lemma_lookup_first_match(s: Seq<(String, String)>, i: int, key: Seq<char>)
    requires
        0 <= i < s.len(),
        s[i].0@ == key,
        forall|j: int| 0 <= j < i ==> s[j].0@ != key,
    ensures
        spec_lookup(s, key) == Some(s[i].1@),
    decreases i,
{
    if i > 0 {
        lemma_lookup_first_match(s.skip(1), i - 1, key);
    }
}

/// Replacing the first binding for a key changes only the value bound to it.
proof fn lemma_lookup_update(s: Seq<(String, String)>, i: int, p: (String, String))
    requires
        0 <= i < s.len(),
        s[i].0@ == p.0@,
        forall|j: int| 0 <= j < i ==> s[j].0@ != p.0@,
    ensures
        spec_lookup(s.update(i, p), p.0@) == Some(p.1@),
        forall|k: Seq<char>| k != p.0@ ==> spec_lookup(s.update(i, p), k) == spec_lookup(s, k),
    decreases i,
{
    let s2 = s.update(i, p);
    if i == 0 {
        assert(s2[0] == p);
        assert(s2.skip(1) =~= s.skip(1));
        assert forall|k: Seq<char>| k != p.0@ implies spec_lookup(s2, k) == spec_lookup(s, k) by {
            assert(s[0].0@ == p.0@);
        }
    } else {
        assert(s2[0] == s[0]);
        assert(s2.skip(1) =~= s.skip(1).update(i - 1, p));
        lemma_lookup_update(s.skip(1), i - 1, p);
        assert(spec_lookup(s2, p.0@) == Some(p.1@));
        assert forall|k: Seq<char>| k != p.0@ implies spec_lookup(s2, k) == spec_lookup(s, k) by {
            assert(spec_lookup(s.skip(1).update(i - 1, p), k) == spec_lookup(s.skip(1), k));
        }
    }
}

/// Appending a binding for a fresh key adds exactly that binding.
proof fn lemma_lookup_push(s: Seq<(String, String)>, p: (String, String))
    requires
        forall|j: int| 0 <= j < s.len() ==> s[j].0@ != p.0@,
    ensures
        spec_lookup(s.push(p), p.0@) == Some(p.1@),
        forall|k: Seq<char>| k != p.0@ ==> spec_lookup(s.push(p), k) == spec_lookup(s, k),
    decreases s.len(),
{
    let s2 = s.push(p);
    if s.len() == 0 {
        assert(s2[0] == p);
        assert(s2.skip(1) =~= Seq::<(String, String)>::empty());
        assert forall|k: Seq<char>| k != p.0@ implies spec_lookup(s2, k) == spec_lookup(s, k) by {
            assert(spec_lookup(s2.skip(1), k) is None);
        }
    } else {
        assert(s2[0] == s[0]);
        assert(s2.skip(1) =~= s.skip(1).push(p));
        lemma_lookup_push(s.skip(1), p);
        assert(spec_lookup(s2, p.0@) == Some(p.1@));
        assert forall|k: Seq<char>| k != p.0@ implies spec_lookup(s2, k) == spec_lookup(s, k) by {
            assert(spec_lookup(s.skip(1).push(p), k) == spec_lookup(s.skip(1), k));
        }
    }
}

} // verus!

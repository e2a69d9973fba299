//! Wordlist normalization and the lazy, sharded candidate-URL
//! generator.

use std::sync::Arc;
use vstd::prelude::*;
use vstd::string::*;
use crate::text::{
    last_index_of, lemma_last_index_none, lemma_last_index_some, lemma_lex_antisym,
    lemma_lex_refl, lemma_lex_total, lemma_lex_trans, lex_le, lex_lt, spec_last_index,
    starts_with_char, str_eq, str_lex_le,
};
use crate::validator::ValidatorProfile;

verus! {

/// One leading and one trailing slash removed, as the bootstrap does
/// before sorting.
pub open spec fn strip_word(w: Seq<char>) -> Seq<char> {
    let x = if w.len() > 0 && w[0] == '/' {
        w.drop_first()
    } else {
        w
    };
    if x.len() > 0 && x.last() == '/' {
        x.drop_last()
    } else {
        x
    }
}

/// A normalized entry neither begins nor ends with a slash, except
/// when the input word began with two slashes (the leading one left)
/// or ended with two (the trailing one left): stripping removes one
/// slash from each edge, exactly as the bootstrap does.
pub proof fn lemma_strip_edges(w: Seq<char>)
    ensures
        (strip_word(w).len() > 0 && strip_word(w)[0] == '/') ==> (w.len() >= 2 && w[0] == '/'
            && w[1] == '/'),
        (strip_word(w).len() > 0 && strip_word(w).last() == '/') ==> (w.len() >= 2 && w[
            w.len() - 1] == '/' && w[w.len() - 2] == '/'),
{
    let x = if w.len() > 0 && w[0] == '/' {
        w.drop_first()
    } else {
        w
    };
    let r = if x.len() > 0 && x.last() == '/' {
        x.drop_last()
    } else {
        x
    };
    if r.len() > 0 {
        assert(r[0] == x[0]);
        if w.len() > 0 && w[0] == '/' {
            assert(x[0] == w[1]);
        }
        if x.len() > 0 && x.last() == '/' {
            assert(r.last() == x[x.len() - 2]);
            if w.len() > 0 && w[0] == '/' {
                assert(x[x.len() - 1] == w[w.len() - 1] && x[x.len() - 2] == w[w.len() - 2]);
            }
        } else {
            assert(r.last() == x.last());
            if x.len() > 0 && w.len() > 0 && w[0] == '/' {
                assert(x.last() == w[w.len() - 1]);
            }
        }
    }
}

/// After normalization no entry begins or ends with a slash, for any
/// input whose words do not begin or end with two slashes. (A word
/// such as `//a` keeps one leading slash: only one is stripped.)
pub proof fn lemma_normalized_no_edge_slashes(words: Seq<String>, r: Seq<String>)
    requires
        forall|k: int| 0 <= k < r.len() ==> from_input(words, (#[trigger] r[k])@),
        forall|i: int| 0 <= i < words.len() ==> ((#[trigger] words[i])@.len() < 2 || !(
        words[i]@[0] == '/' && words[i]@[1] == '/')),
        forall|i: int| 0 <= i < words.len() ==> ((#[trigger] words[i])@.len() < 2 || !(
        words[i]@[words[i]@.len() - 1] == '/' && words[i]@[words[i]@.len() - 2] == '/')),
    ensures
        forall|k: int| 0 <= k < r.len() ==> ((#[trigger] r[k])@.len() == 0 || (r[k]@[0] != '/'
            && r[k]@.last() != '/')),
{
    assert forall|k: int| 0 <= k < r.len() implies ((#[trigger] r[k])@.len() == 0 || (r[k]@[0]
        != '/' && r[k]@.last() != '/')) by {
        let i = choose|i: int| 0 <= i < words.len() && strip_word((#[trigger] words[i])@)
            == r[k]@;
        lemma_strip_edges(words[i]@);
    }
}

/// Removes one leading and one trailing slash from a word.
pub fn strip_slashes(w: &str) -> (r: String)
    ensures
        r@ == strip_word(w@),
{
    let n = w.unicode_len();
    let start: usize = if starts_with_char(w, '/') {
        1
    } else {
        0
    };
    let end: usize = if n > start && w.get_char(n - 1) == '/' {
        n - 1
    } else {
        n
    };
    let r = w.substring_char(start, end).to_owned();
    proof {
        let x = if w@.len() > 0 && w@[0] == '/' {
            w@.drop_first()
        } else {
            w@
        };
        assert(x =~= w@.subrange(start as int, n as int));
        assert(strip_word(w@) =~= w@.subrange(start as int, end as int));
    }
    r
}

/// The entries are strictly increasing in lexicographic order: sorted,
/// with no duplicates.
pub open spec fn sorted_strings(s: Seq<String>) -> bool {
    forall|i: int, j: int| 0 <= i < j < s.len() ==> lex_lt((#[trigger] s[i])@, (#[trigger] s[j])@)
}

/// Some entry of `s` reads `x`.
pub open spec fn seq_has(s: Seq<String>, x: Seq<char>) -> bool {
    exists|k: int| 0 <= k < s.len() && (#[trigger] s[k])@ == x
}

/// `x` is the stripped form of some input word.
pub open spec fn from_input(words: Seq<String>, x: Seq<char>) -> bool {
    exists|i: int| 0 <= i < words.len() && strip_word((#[trigger] words[i])@) == x
}

/// Inserting between the entries below and above keeps the sequence
/// strictly sorted.
proof fn lemma_insert_sorted(s: Seq<String>, w: String, p: int)
    requires
        0 <= p <= s.len(),
        sorted_strings(s),
        forall|j: int| 0 <= j < p ==> lex_lt((#[trigger] s[j])@, w@),
        forall|j: int| p <= j < s.len() ==> lex_lt(w@, (#[trigger] s[j])@),
    ensures
        sorted_strings(s.insert(p, w)),
{
    let t = s.insert(p, w);
    s.insert_ensures(p, w);
    assert forall|i: int, j: int| 0 <= i < j < t.len() implies lex_lt(
        (#[trigger] t[i])@,
        (#[trigger] t[j])@,
    ) by {
        if i < p {
            assert(t[i] == s[i]);
        } else if i > p {
            assert(t[i] == s[i - 1]);
        }
        if j < p {
            assert(t[j] == s[j]);
        } else if j > p {
            assert(t[j] == s[j - 1]);
        }
    }
}

/// An entry stays present when another is inserted.
proof fn lemma_insert_keeps(s: Seq<String>, w: String, p: int, x: Seq<char>)
    requires
        0 <= p <= s.len(),
        seq_has(s, x),
    ensures
        seq_has(s.insert(p, w), x),
{
    s.insert_ensures(p, w);
    let k = choose|k: int| 0 <= k < s.len() && (#[trigger] s[k])@ == x;
    if k < p {
        assert(s.insert(p, w)[k]@ == x);
    } else {
        assert(s.insert(p, w)[k + 1]@ == x);
    }
}

/// Finds where `w` belongs in the sorted list: the index of the first
/// entry not below it, and whether that entry already reads `w`.
fn find_position(out: &Vec<String>, w: &str) -> (r: (usize, bool))
    requires
        sorted_strings(out@),
    ensures
        r.0 <= out@.len(),
        forall|j: int| 0 <= j < r.0 ==> lex_lt((#[trigger] out@[j])@, w@),
        r.1 <==> (r.0 < out@.len() && out@[r.0 as int]@ == w@),
        !r.1 ==> forall|j: int| r.0 <= j < out@.len() ==> lex_lt(w@, (#[trigger] out@[j])@),
{
    let n = out.len();
    let mut p: usize = 0;
    let mut scanning = true;
    while scanning
        invariant
            0 <= p <= n,
            n == out@.len(),
            sorted_strings(out@),
            forall|j: int| 0 <= j < p ==> lex_lt((#[trigger] out@[j])@, w@),
            !scanning ==> (p == n || lex_le(w@, out@[p as int]@)),
        decreases n - p + if scanning {
            1int
        } else {
            0int
        },
    {
        if p == n {
            scanning = false;
        } else {
            let le = str_lex_le(w, out[p].as_str());
            if le {
                scanning = false;
            } else {
                proof {
                    lemma_lex_total(w@, out@[p as int]@);
                    lemma_lex_refl(w@);
                    assert(out@[p as int]@ != w@);
                }
                p = p + 1;
            }
        }
    }
    let mut dup = false;
    if p < n {
        dup = str_eq(w, out[p].as_str());
    }
    proof {
        if !dup && p < n {
            assert forall|j: int| p <= j < n implies lex_lt(w@, (#[trigger] out@[j])@) by {
                assert(lex_le(w@, out@[p as int]@));
                if j > p {
                    assert(lex_lt(out@[p as int]@, out@[j]@));
                    lemma_lex_trans(w@, out@[p as int]@, out@[j]@);
                    if w@ == out@[j]@ {
                        lemma_lex_antisym(out@[p as int]@, out@[j]@);
                    }
                }
            }
        }
    }
    (p, dup)
}

/// Every entry of `r` is a stripped input word, every stripped input
/// word is present, and the entries are strictly sorted: the sorted,
/// deduplicated form of the stripped input.
pub fn normalize_wordlist(words: &Vec<String>) -> (r: Vec<String>)
    ensures
        sorted_strings(r@),
        forall|k: int| 0 <= k < r@.len() ==> from_input(words@, (#[trigger] r@[k])@),
        forall|i: int| 0 <= i < words@.len() ==> seq_has(r@, strip_word((#[trigger] words@[i])@)),
{
    let mut out: Vec<String> = Vec::new();
    let mut idx: usize = 0;
    while idx < words.len()
        invariant
            0 <= idx <= words@.len(),
            sorted_strings(out@),
            forall|k: int| 0 <= k < out@.len() ==> from_input(words@, (#[trigger] out@[k])@),
            forall|i: int| 0 <= i < idx ==> seq_has(out@, strip_word((#[trigger] words@[i])@)),
        decreases words@.len() - idx,
    {
        let w = strip_slashes(words[idx].as_str());
        let (p, duplicate) = find_position(&out, w.as_str());
        if duplicate {
            proof {
                assert(out@[p as int]@ == strip_word(words@[idx as int]@));
            }
        } else {
            let ghost old_out = out@;
            proof {
                lemma_insert_sorted(old_out, w, p as int);
                old_out.insert_ensures(p as int, w);
            }
            out.insert(p, w);
            proof {
                assert(out@ == old_out.insert(p as int, w));
                assert(strip_word(words@[idx as int]@) == w@);
                assert(from_input(words@, w@));
                assert forall|k: int| 0 <= k < out@.len() implies from_input(
                    words@,
                    (#[trigger] out@[k])@,
                ) by {
                    if k < p {
                        assert(out@[k] == old_out[k]);
                    } else if k == p {
                        assert(out@[k]@ == w@);
                    } else {
                        assert(out@[k] == old_out[k - 1]);
                    }
                }
                assert forall|i: int| 0 <= i < idx + 1 implies seq_has(
                    out@,
                    strip_word((#[trigger] words@[i])@),
                ) by {
                    if i < idx {
                        lemma_insert_keeps(old_out, w, p as int, strip_word(words@[i]@));
                    } else {
                        assert(out@[p as int]@ == strip_word(words@[idx as int]@));
                    }
                }
            }
        }
        idx = idx + 1;
    }
    out
}

/// A word's existing extension replaced or the configured extension
/// appended: with an empty extension the word passes through; in
/// substitution mode a word holding a dot is cut at its last dot
/// before the extension is appended.
pub open spec fn apply_extension_spec(word: Seq<char>, ext: Seq<char>, substitute: bool) -> Seq<
    char,
> {
    if ext.len() == 0 {
        word
    } else if substitute && spec_last_index(word, '.') >= 0 {
        word.subrange(0, spec_last_index(word, '.')) + ext
    } else {
        word + ext
    }
}

/// With an empty extension the word always passes through unchanged,
/// in either substitution mode.
pub proof fn lemma_empty_extension_identity(word: Seq<char>, substitute: bool)
    ensures
        apply_extension_spec(word, Seq::<char>::empty(), substitute) == word,
{
}

/// Applies the configured extension to one word.
pub fn apply_extension(word: &str, ext: &str, substitute: bool) -> (r: String)
    ensures
        r@ == apply_extension_spec(word@, ext@, substitute),
{
    if ext.unicode_len() == 0 {
        return word.to_owned();
    }
    if substitute {
        match last_index_of(word, '.') {
            Some(i) => {
                proof {
                    lemma_last_index_some(word@, '.', i as int);
                }
                let mut r = word.substring_char(0, i).to_owned();
                proof {
                    assert(word@.subrange(0, i as int) == r@);
                }
                r.append(ext);
                return r;
            },
            None => {
                proof {
                    lemma_last_index_none(word@, '.');
                }
            },
        }
    }
    word.to_owned().concat(ext)
}

/// A candidate URL: the base directory, the prefix, and the word with
/// the extension applied, concatenated verbatim.
pub open spec fn spec_candidate(
    base: Seq<char>,
    prefix: Seq<char>,
    word: Seq<char>,
    ext: Seq<char>,
    substitute: bool,
) -> Seq<char> {
    base + prefix + apply_extension_spec(word, ext, substitute)
}

/// The lazy sequence of candidate URLs for one
/// `(directory, prefix, extension, shard)` tuple. Shard `s` of `k`
/// yields the words at indices `s, s+k, s+2k, …`; the generator is
/// finite and not restartable.
pub struct UriGenerator {
    /// Base directory URL; always ends in a slash.
    pub base: String,
    /// Prepended verbatim to each word.
    pub prefix: String,
    /// Appended (or substituted) extension.
    pub extension: String,
    /// The shared, normalized wordlist.
    pub wordlist: Arc<Vec<String>>,
    /// This generator's shard.
    pub shard: usize,
    /// Total number of shards.
    pub step: usize,
    /// Next wordlist index to yield.
    pub current_index: usize,
    /// Index of the base host this directory belongs to.
    pub parent_index: usize,
    /// Path-segment count of the directory being scanned.
    pub parent_depth: u32,
    /// Profile consulted by workers for suppression.
    pub validator: Option<ValidatorProfile>,
    /// Replace an existing extension instead of appending.
    pub extension_substitution: bool,
}

impl UriGenerator {
    /// The generator's stride discipline: a live index stays on its
    /// shard.
    pub open spec fn wf(&self) -> bool {
        &&& self.step >= 1
        &&& self.shard < self.step
        &&& (self.current_index >= self.wordlist@.len() || self.current_index % self.step
            == self.shard)
    }

    /// A fresh generator for one `(directory, prefix, extension,
    /// shard)` tuple.
    pub fn new(
        base: String,
        prefix: String,
        extension: String,
        wordlist: Arc<Vec<String>>,
        start_index: usize,
        step: usize,
        parent_index: usize,
        parent_depth: u32,
        validator: Option<ValidatorProfile>,
        extension_substitution: bool,
    ) -> (r: UriGenerator)
        requires
            step >= 1,
            start_index < step,
        ensures
            r.base == base,
            r.prefix == prefix,
            r.extension == extension,
            r.wordlist == wordlist,
            r.shard == start_index,
            r.step == step,
            r.current_index == start_index,
            r.parent_index == parent_index,
            r.parent_depth == parent_depth,
            r.validator == validator,
            r.extension_substitution == extension_substitution,
            r.wf(),
    {
        proof {
            assert(start_index as int % step as int == start_index as int) by (nonlinear_arith)
                requires
                    0 <= start_index < step,
            ;
        }
        UriGenerator {
            base,
            prefix,
            extension,
            wordlist,
            shard: start_index,
            step,
            current_index: start_index,
            parent_index,
            parent_depth,
            validator,
            extension_substitution,
        }
    }

    /// Yields the next candidate URL, or nothing once the shard's
    /// indices are exhausted.
    pub fn next(&mut self) -> (r: Option<String>)
        requires
            old(self).wf(),
        ensures
            final(self).wf(),
            final(self).base == old(self).base,
            final(self).prefix == old(self).prefix,
            final(self).extension == old(self).extension,
            final(self).wordlist == old(self).wordlist,
            final(self).shard == old(self).shard,
            final(self).step == old(self).step,
            final(self).parent_index == old(self).parent_index,
            final(self).parent_depth == old(self).parent_depth,
            final(self).validator == old(self).validator,
            final(self).extension_substitution == old(self).extension_substitution,
            old(self).current_index >= old(self).wordlist@.len() ==> r is None
                && final(self).current_index == old(self).current_index,
            old(self).current_index < old(self).wordlist@.len() ==> {
                &&& (r matches Some(u) && u@ == spec_candidate(
                    old(self).base@,
                    old(self).prefix@,
                    old(self).wordlist@[old(self).current_index as int]@,
                    old(self).extension@,
                    old(self).extension_substitution,
                ))
                &&& old(self).current_index % old(self).step == old(self).shard
                &&& final(self).current_index >= old(self).current_index + old(self).step
                    || final(self).current_index >= old(self).wordlist@.len()
            },
    {
        if self.current_index >= self.wordlist.len() {
            return None;
        }
        let word: &String = &self.wordlist[self.current_index];
        let applied = apply_extension(
            word.as_str(),
            self.extension.as_str(),
            self.extension_substitution,
        );
        let mut uri = self.base.clone();
        uri.append(self.prefix.as_str());
        uri.append(applied.as_str());
        proof {
            assert(uri@ =~= spec_candidate(
                self.base@,
                self.prefix@,
                self.wordlist@[self.current_index as int]@,
                self.extension@,
                self.extension_substitution,
            ));
        }
        if self.step <= usize::MAX - self.current_index {
            proof {
                assert((self.current_index + self.step) as int % self.step as int
                    == self.current_index as int % self.step as int) by (nonlinear_arith)
                    requires
                        self.step >= 1,
                        self.current_index >= 0,
                ;
            }
            self.current_index = self.current_index + self.step;
        } else {
            self.current_index = usize::MAX;
        }
        Some(uri)
    }
}

/// The shard of `k` generators whose stride covers wordlist index `i`.
pub open spec fn shard_yields(shard: int, step: int, i: int) -> bool {
    i % step == shard
}

/// Sharding is a partition: for any wordlist index and any shard count
/// `k >= 1`, exactly one shard `s` in `[0, k)` yields the index, so
/// each word is produced by exactly one of the `k` generators of a
/// directory.
pub proof fn lemma_shard_partition(i: int, k: int)
    requires
        k >= 1,
        0 <= i,
    ensures
        exists|s: int| 0 <= s < k && shard_yields(s, k, i),
        forall|s1: int, s2: int|
            (0 <= s1 < k && 0 <= s2 < k && shard_yields(s1, k, i) && shard_yields(s2, k, i))
                ==> s1 == s2,
{
    assert(0 <= i % k < k) by (nonlinear_arith)
        requires
            k >= 1 && i >= 0,
    ;
    assert(shard_yields(i % k, k, i));
}

} // verus!

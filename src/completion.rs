//! Completion suggestions for the word being typed.
use vstd::prelude::*;
use vstd::string::*;

use crate::matcher::{MatchResult, MAX_PATTERN_BYTES};
use crate::registry::{ranked_hits, ConEntry, ConsoleRegistry};
use crate::text::{chars_of, is_white_space, trim_end, white_space};

verus! {

/// How many suggestions are offered at most.
pub const MAX_COMPLETION_SUGGESTIONS: usize = 6;

/// A suggested name, with the indices of the characters that matched.
pub struct CompletionSuggestion {
    pub suggestion: String,
    pub highlighted_indices: Vec<usize>,
}

/// The trailing run of non-whitespace characters of `t`.
pub open spec fn word_tail(t: Seq<char>) -> Seq<char>
    decreases t.len(),
{
    if t.len() == 0 || is_white_space(t.last()) {
        Seq::empty()
    } else {
        word_tail(t.drop_last()).push(t.last())
    }
}

/// The last whitespace-separated word of `s`, or empty.
pub open spec fn last_word(s: Seq<char>) -> Seq<char> {
    word_tail(trim_end(s))
}

/// The last whitespace-separated word of `s`.
pub fn last_word_of(s: &str) -> (r: &str)
    ensures
        r@ == last_word(s@),
{
    let cs = chars_of(s);
    let mut b: usize = cs.len();
    assert(cs@.subrange(0, b as int) =~= cs@);
    while b > 0 && white_space(cs[b - 1])
        invariant
            b <= cs@.len(),
            cs@ == s@,
            trim_end(s@) == trim_end(cs@.subrange(0, b as int)),
        decreases b,
    {
        assert(cs@.subrange(0, b as int).drop_last() =~= cs@.subrange(0, b - 1));
        b = b - 1;
    }
    assert(trim_end(s@) == cs@.subrange(0, b as int));
    let mut a: usize = b;
    while a > 0 && !white_space(cs[a - 1])
        invariant
            a <= b <= cs@.len(),
            cs@ == s@,
            word_tail(cs@.subrange(0, b as int)) == word_tail(cs@.subrange(0, a as int)) + cs@.subrange(a as int, b as int),
        decreases a,
    {
        assert(cs@.subrange(0, a as int).drop_last() =~= cs@.subrange(0, a - 1));
        assert(cs@.subrange(a - 1, b as int) =~= seq![cs@[a - 1]] + cs@.subrange(a as int, b as int));
        assert(word_tail(cs@.subrange(0, a - 1)).push(cs@[a - 1]) + cs@.subrange(a as int, b as int)
            =~= word_tail(cs@.subrange(0, a - 1)) + cs@.subrange(a - 1, b as int));
        a = a - 1;
    }
    assert(word_tail(cs@.subrange(0, a as int)) =~= Seq::<char>::empty());
    assert(word_tail(cs@.subrange(0, b as int)) =~= cs@.subrange(a as int, b as int));
    s.substring_char(a, b)
}

/// Suggestions for the last word of `text`: the best-ranked fuzzy matches
/// among the visible entries, at most `MAX_COMPLETION_SUGGESTIONS`, best
/// first. None when there is no word, or the word is too long to score.
pub fn suggest_completions(registry: &ConsoleRegistry, text: &str) -> (r: Vec<CompletionSuggestion>)
    requires
        registry.wf(),
    ensures
        ({
            let w = last_word(text@);
            if w.len() == 0 || vstd::utf8::encode_utf8(w).len() > MAX_PATTERN_BYTES {
                r@.len() == 0
            } else {
                exists|f: Seq<(String, &ConEntry, MatchResult)>|
                    ranked_hits(registry@, vstd::utf8::encode_utf8(w), f) && r@.len() == (if f.len()
                        < MAX_COMPLETION_SUGGESTIONS {
                        f.len()
                    } else {
                        MAX_COMPLETION_SUGGESTIONS as nat
                    }) && forall|a: int|
                        0 <= a < r@.len() ==> (#[trigger] r@[a]).suggestion@ == f[a].0@
                            && r@[a].highlighted_indices@ == f[a].2.indices@
            }
        }),
{
    let word = last_word_of(text);
    if word.is_empty() || word.as_bytes().len() > MAX_PATTERN_BYTES {
        return Vec::new();
    }
    let found = registry.fuzzy_find(word);
    let mut out: Vec<CompletionSuggestion> = Vec::new();
    let mut i: usize = 0;
    while i < found.len() && i < MAX_COMPLETION_SUGGESTIONS
        invariant
            i <= found@.len(),
            i <= MAX_COMPLETION_SUGGESTIONS,
            out@.len() == i,
            forall|a: int|
                0 <= a < i ==> (#[trigger] out@[a]).suggestion@ == found@[a].0@
                    && out@[a].highlighted_indices@ == found@[a].2.indices@,
        decreases found.len() - i,
    {
        let idx = found[i].2.indices.clone();
        out.push(CompletionSuggestion { suggestion: found[i].0.clone(), highlighted_indices: idx });
        i = i + 1;
    }
    proof {
        let f = found@;
        assert(ranked_hits(registry@, vstd::utf8::encode_utf8(last_word(text@)), f));
        assert(out@.len() == (if f.len() < MAX_COMPLETION_SUGGESTIONS {
            f.len()
        } else {
            MAX_COMPLETION_SUGGESTIONS as nat
        }));
        assert(forall|a: int|
            0 <= a < out@.len() ==> (#[trigger] out@[a]).suggestion@ == f[a].0@
                && out@[a].highlighted_indices@ == f[a].2.indices@);
    }
    out
}

} // verus!

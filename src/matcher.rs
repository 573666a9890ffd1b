//! Fuzzy subsequence matching with scoring, for autocomplete and search.
use vstd::prelude::*;
use vstd::string::*;

verus! {

broadcast use vstd::seq_lib::to_multiset_insert, vstd::seq_lib::to_multiset_build;

/// Result of a fuzzy match.
#[derive(Debug, Clone, PartialEq, Eq)]
pub struct MatchResult {
    /// The match score (higher is better).
    pub score: i32,
    /// Byte indices of the matched characters in the text.
    pub indices: Vec<usize>,
}

impl MatchResult {
    /// A match result with the given score and indices.
    pub fn new(score: i32, indices: Vec<usize>) -> (r: Self)
        ensures
            r.score == score,
            r.indices@ == indices@,
    {
        MatchResult { score, indices }
    }
}

/// Largest pattern length, in bytes, whose score fits in an `i32`.
pub const MAX_PATTERN_BYTES: usize = 100_000_000;

/// ASCII lower case of a byte; other bytes are unchanged.
pub open spec fn lower(b: u8) -> u8 {
    if 65 <= b && b <= 90 {
        (b + 32) as u8
    } else {
        b
    }
}

/// Bytes equal up to ASCII case.
pub open spec fn eq_ic(a: u8, b: u8) -> bool {
    lower(a) == lower(b)
}

/// `t` begins with `p`, up to ASCII case.
pub open spec fn starts_with_ic(t: Seq<u8>, p: Seq<u8>) -> bool {
    p.len() <= t.len() && forall|i: int| 0 <= i < p.len() ==> eq_ic(#[trigger] t[i], p[i])
}

/// A byte after which a word starts.
pub open spec fn is_word_break(b: u8) -> bool {
    b == 95 || b == 32 || b == 46
}

/// Points for matching `t[i]`, where the previous match was at `prev`: one
/// point, ten more if it directly follows the previous match, five more at a
/// word start.
pub open spec fn char_bonus(t: Seq<u8>, i: int, prev: Option<int>) -> int {
    1 + (if prev == Some(i - 1) {
        10int
    } else {
        0int
    }) + (if i == 0 || is_word_break(t[i - 1]) {
        5int
    } else {
        0int
    })
}

/// Greedy left-to-right matching of `p[pi..]` against `t[i..]`: the points
/// gained, the matched indices, and how far into `p` it got.
pub open spec fn greedy(p: Seq<u8>, t: Seq<u8>, i: int, pi: int, prev: Option<int>) -> (
    int,
    Seq<usize>,
    int,
)
    decreases t.len() - i,
{
    if i < 0 || i >= t.len() || pi < 0 || pi >= p.len() {
        (0, Seq::empty(), pi)
    } else if eq_ic(t[i], p[pi]) {
        let rest = greedy(p, t, i + 1, pi + 1, Some(i));
        (rest.0 + char_bonus(t, i, prev), seq![i as usize] + rest.1, rest.2)
    } else {
        greedy(p, t, i + 1, pi, prev)
    }
}

/// The match of pattern bytes `p` in text bytes `t`: score and indices, or
/// `None` if `p` is not a subsequence of `t` up to ASCII case.
pub open spec fn match_spec(p: Seq<u8>, t: Seq<u8>) -> Option<(int, Seq<usize>)> {
    if p.len() == 0 {
        Some((0, Seq::empty()))
    } else {
        let g = greedy(p, t, 0, 0, None);
        if g.2 == p.len() {
            Some(
                (g.0 + (if starts_with_ic(t, p) {
                    20int
                } else {
                    0int
                }), g.1),
            )
        } else {
            None
        }
    }
}

/// `r` is the match of `pattern` in `text`, as `match_spec` gives it.
pub open spec fn is_match_of(r: Option<MatchResult>, pattern: &str, text: &str) -> bool {
    match match_spec(pattern.spec_bytes(), text.spec_bytes()) {
        Some(m) => r matches Some(res) && res.score as int == m.0 && res.indices@ == m.1,
        None => r is None,
    }
}

/// Decides `lower`.
fn ascii_lower(b: u8) -> (r: u8)
    ensures
        r == lower(b),
{
    if 65 <= b && b <= 90 {
        b + 32
    } else {
        b
    }
}

/// Decides `starts_with_ic`.
fn starts_with_ignore_case(t: &[u8], p: &[u8]) -> (r: bool)
    ensures
        r == starts_with_ic(t@, p@),
{
    if p.len() > t.len() {
        return false;
    }
    let mut i: usize = 0;
    while i < p.len()
        invariant
            p@.len() <= t@.len(),
            i <= p@.len(),
            forall|k: int| 0 <= k < i ==> eq_ic(#[trigger] t@[k], p@[k]),
        decreases p.len() - i,
    {
        if ascii_lower(t[i]) != ascii_lower(p[i]) {
            return false;
        }
        i = i + 1;
    }
    true
}

/// Fuzzy subsequence match of `pattern` in `text`, by bytes and up to ASCII case.
///
/// Every pattern byte must occur in `text` in order; each is matched at its
/// first occurrence after the previous match. Each matched byte scores one
/// point, ten more when it directly follows the previous match, five more at
/// the start of `text` or after `_`, space or `.`; twenty more once if `text`
/// starts with `pattern`. The empty pattern matches with score 0.
pub fn subsequence_match(pattern: &str, text: &str) -> (r: Option<MatchResult>)
    requires
        pattern.spec_bytes().len() <= MAX_PATTERN_BYTES,
    ensures
        is_match_of(r, pattern, text),
{
    let pb = pattern.as_bytes();
    let tb = text.as_bytes();
    let ghost p = pb@;
    let ghost t = tb@;
    if pb.len() == 0 {
        return Some(MatchResult::new(0, Vec::new()));
    }
    let mut score: i32 = 0;
    let mut indices: Vec<usize> = Vec::new();
    let mut pi: usize = 0;
    let mut prev: Option<usize> = None;
    let mut i: usize = 0;
    let ghost whole = greedy(p, t, 0, 0, None);
    while i < tb.len() && pi < pb.len()
        invariant
            p == pb@,
            t == tb@,
            p.len() <= MAX_PATTERN_BYTES,
            pi <= p.len(),
            i <= t.len(),
            0 <= score <= 16 * pi,
            whole == greedy(p, t, 0, 0, None),
            prev matches Some(q) ==> q < i,
            ({
                let rest = greedy(
                    p,
                    t,
                    i as int,
                    pi as int,
                    match prev {
                        Some(q) => Some(q as int),
                        None => None,
                    },
                );
                whole.0 == score + rest.0 && whole.1 == indices@ + rest.1 && whole.2 == rest.2
            }),
        decreases t.len() - i,
    {
        let tc = tb[i];
        if ascii_lower(tc) == ascii_lower(pb[pi]) {
            let ghost old_indices = indices@;
            indices.push(i);
            score = score + 1;
            if let Some(q) = prev {
                if q == i - 1 {
                    score = score + 10;
                }
            }
            if i == 0 {
                score = score + 5;
            } else {
                let b = tb[i - 1];
                if b == 95 || b == 32 || b == 46 {
                    score = score + 5;
                }
            }
            prev = Some(i);
            pi = pi + 1;
            proof {
                let rest = greedy(p, t, i + 1, pi as int, Some(i as int));
                assert(indices@ + rest.1 =~= old_indices + (seq![i as usize] + rest.1));
            }
        }
        i = i + 1;
    }
    assert(indices@ + Seq::<usize>::empty() =~= indices@);
    if pi == pb.len() {
        if starts_with_ignore_case(tb, pb) {
            score = score + 20;
        }
        Some(MatchResult::new(score, indices))
    } else {
        None
    }
}

/// Byte strings in lexicographic order.
pub open spec fn lex_le(a: Seq<u8>, b: Seq<u8>) -> bool
    decreases a.len(),
{
    if a.len() == 0 {
        true
    } else if b.len() == 0 {
        false
    } else if a[0] != b[0] {
        a[0] < b[0]
    } else {
        lex_le(a.drop_first(), b.drop_first())
    }
}

/// Of two byte strings, one is `lex_le` the other.
pub proof fn lemma_lex_total(a: Seq<u8>, b: Seq<u8>)
    ensures
        lex_le(a, b) || lex_le(b, a),
    decreases a.len(),
{
    if a.len() > 0 && b.len() > 0 && a[0] == b[0] {
        lemma_lex_total(a.drop_first(), b.drop_first());
    }
}

/// Decides `lex_le`.
pub fn bytes_le(a: &[u8], b: &[u8]) -> (r: bool)
    ensures
        r == lex_le(a@, b@),
{
    let mut i: usize = 0;
    assert(a@.skip(0) =~= a@);
    assert(b@.skip(0) =~= b@);
    while i < a.len() && i < b.len() && a[i] == b[i]
        invariant
            i <= a@.len(),
            i <= b@.len(),
            lex_le(a@, b@) == lex_le(a@.skip(i as int), b@.skip(i as int)),
        decreases a.len() - i,
    {
        assert(a@.skip(i as int).drop_first() =~= a@.skip(i + 1));
        assert(b@.skip(i as int).drop_first() =~= b@.skip(i + 1));
        i = i + 1;
    }
    if i == a.len() {
        true
    } else if i == b.len() {
        false
    } else {
        a[i] < b[i]
    }
}

/// Ranking of scored names: higher score first, then by name.
pub open spec fn ranks_before(s1: int, n1: Seq<u8>, s2: int, n2: Seq<u8>) -> bool {
    s1 > s2 || (s1 == s2 && lex_le(n1, n2))
}

/// Decides `ranks_before`.
pub fn rank_le(s1: i32, n1: &str, s2: i32, n2: &str) -> (r: bool)
    ensures
        r == ranks_before(s1 as int, n1.spec_bytes(), s2 as int, n2.spec_bytes()),
{
    s1 > s2 || (s1 == s2 && bytes_le(n1.as_bytes(), n2.as_bytes()))
}

/// The candidates that match `pattern`.
pub open spec fn matching<'a>(pattern: &str, cands: Seq<&'a str>) -> Seq<&'a str> {
    cands.filter(|c: &'a str| match_spec(pattern.spec_bytes(), c.spec_bytes()) is Some)
}

/// Fuzzy-matches `pattern` against every candidate and ranks the matches:
/// higher score first, ties by name.
pub fn match_and_sort<'a>(pattern: &str, candidates: &[&'a str]) -> (r: Vec<(&'a str, MatchResult)>)
    requires
        pattern.spec_bytes().len() <= MAX_PATTERN_BYTES,
    ensures
        r@.map_values(|e: (&'a str, MatchResult)| e.0).to_multiset() == matching(
            pattern,
            candidates@,
        ).to_multiset(),
        forall|i: int| 0 <= i < r@.len() ==> is_match_of(Some(#[trigger] r@[i].1), pattern, r@[i].0),
        forall|i: int|
            0 <= i < r@.len() - 1 ==> ranks_before(
                (#[trigger] r@[i]).1.score as int,
                r@[i].0.spec_bytes(),
                r@[i + 1].1.score as int,
                r@[i + 1].0.spec_bytes(),
            ),
{
    let mut out: Vec<(&'a str, MatchResult)> = Vec::new();
    let ghost keep = |c: &'a str| match_spec(pattern.spec_bytes(), c.spec_bytes()) is Some;
    let mut k: usize = 0;
    proof {
        reveal(Seq::filter);
        assert(candidates@.take(0) =~= Seq::<&'a str>::empty());
        assert(out@.map_values(|e: (&'a str, MatchResult)| e.0) =~= Seq::<&'a str>::empty());
    }
    while k < candidates.len()
        invariant
            pattern.spec_bytes().len() <= MAX_PATTERN_BYTES,
            k <= candidates@.len(),
            keep == (|c: &'a str| match_spec(pattern.spec_bytes(), c.spec_bytes()) is Some),
            out@.map_values(|e: (&'a str, MatchResult)| e.0).to_multiset()
                == candidates@.take(k as int).filter(keep).to_multiset(),
            forall|i: int| 0 <= i < out@.len() ==> is_match_of(Some(#[trigger] out@[i].1), pattern, out@[i].0),
            forall|i: int|
                0 <= i < out@.len() - 1 ==> ranks_before(
                    (#[trigger] out@[i]).1.score as int,
                    out@[i].0.spec_bytes(),
                    out@[i + 1].1.score as int,
                    out@[i + 1].0.spec_bytes(),
                ),
        decreases candidates.len() - k,
    {
        let c = candidates[k];
        let m = subsequence_match(pattern, c);
        proof {
            reveal(Seq::filter);
            assert(candidates@.take(k + 1).drop_last() =~= candidates@.take(k as int));
        }
        match m {
            Some(res) => {
                let mut pos: usize = 0;
                while pos < out.len() && rank_le(out[pos].1.score, out[pos].0, res.score, c)
                    invariant
                        pos <= out@.len(),
                        pos > 0 ==> ranks_before(
                            out@[pos - 1].1.score as int,
                            out@[pos - 1].0.spec_bytes(),
                            res.score as int,
                            c.spec_bytes(),
                        ),
                    decreases out.len() - pos,
                {
                    pos = pos + 1;
                }
                proof {
                    if pos < out@.len() {
                        lemma_lex_total(out@[pos as int].0.spec_bytes(), c.spec_bytes());
                    }
                }
                let ghost old_out = out@;
                out.insert(pos, (c, res));
                proof {
                    assert(out@.map_values(|e: (&'a str, MatchResult)| e.0) =~= old_out.map_values(
                        |e: (&'a str, MatchResult)| e.0,
                    ).insert(pos as int, c));
                }
            },
            None => {},
        }
        k = k + 1;
    }
    assert(candidates@.take(candidates@.len() as int) =~= candidates@);
    out
}

} // verus!

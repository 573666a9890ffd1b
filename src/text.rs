//! Character-level helpers shared by the tokenizer, the registry and the
//! variable model: whitespace, trimming, ASCII case folding and substrings.
use vstd::prelude::*;
use vstd::string::*;

verus! {

/// Characters with the Unicode `White_Space` property.
pub open spec fn is_white_space(c: char) -> bool {
    let u = c as u32;
    (0x09 <= u && u <= 0x0D) || u == 0x20 || u == 0x85 || u == 0xA0 || u == 0x1680 || (0x2000
        <= u && u <= 0x200A) || u == 0x2028 || u == 0x2029 || u == 0x202F || u == 0x205F || u
        == 0x3000
}

/// `s` without its leading whitespace.
pub open spec fn trim_start(s: Seq<char>) -> Seq<char>
    decreases s.len(),
{
    if s.len() > 0 && is_white_space(s[0]) {
        trim_start(s.drop_first())
    } else {
        s
    }
}

/// `s` without its trailing whitespace.
pub open spec fn trim_end(s: Seq<char>) -> Seq<char>
    decreases s.len(),
{
    if s.len() > 0 && is_white_space(s.last()) {
        trim_end(s.drop_last())
    } else {
        s
    }
}

/// `s` without leading and trailing whitespace.
pub open spec fn trim(s: Seq<char>) -> Seq<char> {
    trim_end(trim_start(s))
}

/// Decides `is_white_space`.
pub fn white_space(c: char) -> (r: bool)
    ensures
        r == is_white_space(c),
{
    let u = c as u32;
    (0x09 <= u && u <= 0x0D) || u == 0x20 || u == 0x85 || u == 0xA0 || u == 0x1680 || (0x2000
        <= u && u <= 0x200A) || u == 0x2028 || u == 0x2029 || u == 0x202F || u == 0x205F || u
        == 0x3000
}

/// The characters of `s`, in order.
pub fn chars_of(s: &str) -> (r: Vec<char>)
    ensures
        r@ == s@,
{
    let mut v: Vec<char> = Vec::new();
    for c in it: s.chars()
        invariant
            v@ == it.seq().take(it.index() as int),
    {
        v.push(c);
    }
    v
}

/// `s` without leading and trailing whitespace (`str::trim`).
pub fn trimmed(s: &str) -> (r: &str)
    ensures
        r@ == trim(s@),
{
    let cs = chars_of(s);
    let n = cs.len();
    let mut a: usize = 0;
    assert(cs@.subrange(0, n as int) =~= cs@);
    while a < n && white_space(cs[a])
        invariant
            0 <= a <= n,
            n == cs@.len(),
            trim_start(cs@) == trim_start(cs@.subrange(a as int, n as int)),
        decreases n - a,
    {
        assert(cs@.subrange(a as int, n as int).drop_first() =~= cs@.subrange(a + 1, n as int));
        a = a + 1;
    }
    assert(trim_start(cs@) == cs@.subrange(a as int, n as int));
    let mut b: usize = n;
    while b > a && white_space(cs[b - 1])
        invariant
            a <= b <= n,
            n == cs@.len(),
            trim(cs@) == trim_end(cs@.subrange(a as int, b as int)),
        decreases b,
    {
        assert(cs@.subrange(a as int, b as int).drop_last() =~= cs@.subrange(a as int, b - 1));
        b = b - 1;
    }
    assert(trim(cs@) == cs@.subrange(a as int, b as int));
    s.substring_char(a, b)
}

} // verus!

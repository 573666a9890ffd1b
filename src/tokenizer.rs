//! Tokenizer for console input lines: whitespace-separated words, single- or
//! double-quoted runs, `//` comments, and `;`-separated command lists.
use vstd::prelude::*;
use vstd::string::*;
use vstd::utf8::encode_utf8;

use crate::text::{chars_of, trim, trimmed};

verus! {

/// A tokenized command line.
#[derive(Debug, Clone, PartialEq, Eq)]
pub struct TokenizedCommand {
    /// The command name (first token).
    pub command: String,
    /// The arguments (remaining tokens).
    pub args: Vec<String>,
    /// The raw input line.
    pub raw: String,
}

/// Why a line could not be tokenized.
#[derive(Debug, Clone, Copy, PartialEq, Eq, Structural)]
pub enum TokenizeError {
    /// Nothing to run once whitespace and comments are removed.
    EmptyInput,
    /// A quote opened at byte offset `position` is never closed.
    UnterminatedString { position: usize },
}

/// The description of a tokenize error.
pub open spec fn error_text(e: TokenizeError) -> Seq<char> {
    match e {
        TokenizeError::EmptyInput => "empty input"@,
        TokenizeError::UnterminatedString { position } => "unterminated string at position "@
            + crate::number::decimal(position as nat),
    }
}

impl TokenizeError {
    /// Human-readable description of the error.
    pub fn message(&self) -> (r: String)
        ensures
            r@ == error_text(*self),
    {
        match self {
            TokenizeError::EmptyInput => {
                String::from_str("empty input")
            },
            TokenizeError::UnterminatedString { position } => {
                let mut m = String::from_str("unterminated string at position ");
                let digits = crate::number::format_u64(*position as u64);
                m.append(digits.as_str());
                m
            },
        }
    }
}

/// Characters that separate tokens.
pub open spec fn is_sep(c: char) -> bool {
    c == ' ' || c == '\t' || c == '\r' || c == '\n'
}

/// Characters that open a quoted run.
pub open spec fn is_quote(c: char) -> bool {
    c == '"' || c == '\''
}

/// Index of the quote `q` that closes a run scanned from `j`: a backslash
/// escapes the character after it, and the run is unterminated if the line
/// ends first.
pub open spec fn quote_close(s: Seq<char>, j: int, q: char) -> Option<int>
    decreases s.len() - j,
{
    if j < 0 || j >= s.len() {
        None
    } else if s[j] == q {
        Some(j)
    } else if s[j] == '\\' {
        if j + 1 < s.len() {
            quote_close(s, j + 2, q)
        } else {
            None
        }
    } else {
        quote_close(s, j + 1, q)
    }
}

/// End of the unquoted word scanned from `j`.
pub open spec fn word_end(s: Seq<char>, j: int) -> int
    decreases s.len() - j,
{
    if j < 0 || j >= s.len() || is_sep(s[j]) || is_quote(s[j]) {
        j
    } else {
        word_end(s, j + 1)
    }
}

/// `t` in front of the tokens in `r`, or the error in `r`.
pub open spec fn prepend_token(t: Seq<char>, r: Result<Seq<Seq<char>>, int>) -> Result<
    Seq<Seq<char>>,
    int,
> {
    match r {
        Ok(ts) => Ok(seq![t] + ts),
        Err(k) => Err(k),
    }
}

/// `acc` in front of the tokens in `r`, or the error in `r`.
pub open spec fn prepend_tokens(acc: Seq<Seq<char>>, r: Result<Seq<Seq<char>>, int>) -> Result<
    Seq<Seq<char>>,
    int,
> {
    match r {
        Ok(ts) => Ok(acc + ts),
        Err(k) => Err(k),
    }
}

/// The tokens of `s` from index `i` on, or the index of the first quote that
/// is never closed.
pub open spec fn tokens_from(s: Seq<char>, i: int) -> Result<Seq<Seq<char>>, int>
    decreases s.len() - i,
{
    if i < 0 || i >= s.len() {
        Ok(Seq::empty())
    } else if is_sep(s[i]) {
        tokens_from(s, i + 1)
    } else if is_quote(s[i]) {
        match quote_close(s, i + 1, s[i]) {
            None => Err(i),
            Some(k) => if i < k && k < s.len() {
                prepend_token(s.subrange(i + 1, k), tokens_from(s, k + 1))
            } else {
                Ok(Seq::empty())
            },
        }
    } else {
        let e = word_end(s, i + 1);
        if i < e && e <= s.len() {
            prepend_token(s.subrange(i, e), tokens_from(s, e))
        } else {
            Ok(Seq::empty())
        }
    }
}

/// The tokens of `s`, or the index of the first quote that is never closed.
pub open spec fn tokens(s: Seq<char>) -> Result<Seq<Seq<char>>, int> {
    tokens_from(s, 0)
}

/// Byte offset of character index `k` in the UTF-8 encoding of `s`.
pub open spec fn byte_offset(s: Seq<char>, k: int) -> usize {
    encode_utf8(s.take(k)).len() as usize
}

/// The views of a sequence of strings.
pub open spec fn views(v: Seq<String>) -> Seq<Seq<char>> {
    v.map_values(|t: String| t@)
}

proof fn lemma_quote_close_after(s: Seq<char>, j: int, q: char)
    requires
        j >= 0,
    ensures
        quote_close(s, j, q) matches Some(k) ==> j <= k < s.len() && s[k] == q,
    decreases s.len() - j,
{
    if j < s.len() && s[j] != q {
        if s[j] == '\\' {
            if j + 1 < s.len() {
                lemma_quote_close_after(s, j + 2, q);
            }
        } else {
            lemma_quote_close_after(s, j + 1, q);
        }
    }
}

/// Splits `input` into tokens.
///
/// Whitespace (space, tab, CR, LF) separates tokens; a single- or
/// double-quoted run is one token holding the text between the quotes, where a
/// backslash keeps the next character from closing the run and stays in the
/// token. Fails with the byte offset of a quote that is never closed.
pub fn tokenize_string(input: &str) -> (r: Result<Vec<String>, TokenizeError>)
    ensures
        match tokens(input@) {
            Ok(ts) => r matches Ok(v) && views(v@) == ts,
            Err(k) => r == Err::<Vec<String>, TokenizeError>(
                TokenizeError::UnterminatedString { position: byte_offset(input@, k) },
            ),
        },
{
    let cs = chars_of(input);
    let n = cs.len();
    let ghost s = input@;
    let mut toks: Vec<String> = Vec::new();
    let mut i: usize = 0;
    while i < n
        invariant
            cs@ == s,
            s == input@,
            n == s.len(),
            0 <= i <= n,
            tokens(s) == prepend_tokens(views(toks@), tokens_from(s, i as int)),
        decreases n - i,
    {
        let c = cs[i];
        if c == ' ' || c == '\t' || c == '\r' || c == '\n' {
            i = i + 1;
        } else if c == '"' || c == '\'' {
            let mut j: usize = i + 1;
            while j < n && cs[j] != c
                invariant
                    cs@ == s,
                    n == s.len(),
                    i < j <= n,
                    quote_close(s, i + 1, c) == quote_close(s, j as int, c),
                decreases n - j,
            {
                if cs[j] == '\\' && j + 1 < n {
                    j = j + 2;
                } else if cs[j] == '\\' {
                    j = n;
                } else {
                    j = j + 1;
                }
            }
            let closed = j < n;
            if !closed {
                let pos = input.substring_char(0, i).len();
                assert(s.take(i as int) =~= s.subrange(0, i as int));
                return Err(TokenizeError::UnterminatedString { position: pos });
            }
            let tok = input.substring_char(i + 1, j).to_owned();
            proof {
                lemma_quote_close_after(s, i + 1, c);
                assert(views(toks@.push(tok)) =~= views(toks@) + seq![tok@]);
                match tokens_from(s, j + 1) {
                    Ok(ts) => {
                        assert(views(toks@) + (seq![tok@] + ts) =~= views(toks@.push(tok))
                            + ts);
                    },
                    Err(_) => {},
                }
            }
            toks.push(tok);
            i = j + 1;
        } else {
            let mut j: usize = i + 1;
            while j < n && !(cs[j] == ' ' || cs[j] == '\t' || cs[j] == '\r' || cs[j] == '\n'
                || cs[j] == '"' || cs[j] == '\'')
                invariant
                    cs@ == s,
                    n == s.len(),
                    i < j <= n,
                    word_end(s, i + 1) == word_end(s, j as int),
                decreases n - j,
            {
                j = j + 1;
            }
            let tok = input.substring_char(i, j).to_owned();
            proof {
                assert(views(toks@.push(tok)) =~= views(toks@) + seq![tok@]);
                match tokens_from(s, j as int) {
                    Ok(ts) => {
                        assert(views(toks@) + (seq![tok@] + ts) =~= views(toks@.push(tok))
                            + ts);
                    },
                    Err(_) => {},
                }
            }
            toks.push(tok);
            i = j;
        }
    }
    assert(views(toks@) + Seq::<Seq<char>>::empty() =~= views(toks@));
    Ok(toks)
}

/// Index of the first `//` outside quotes in `t`, scanning from `i`, where
/// `dq` / `sq` tell whether a double / single quote is open and `odd`
/// whether an odd number of backslashes precedes `i`. Quotes are tracked as
/// `split_from` tracks them: a quote preceded by an odd number of
/// backslashes does not open or close a run.
pub open spec fn comment_from(t: Seq<char>, i: int, dq: bool, sq: bool, odd: bool) -> Option<int>
    decreases t.len() - i,
{
    if i < 0 || i >= t.len() {
        None
    } else if t[i] == '\\' {
        comment_from(t, i + 1, dq, sq, !odd)
    } else if t[i] == '"' && !sq {
        comment_from(t, i + 1, if odd { dq } else { !dq }, sq, false)
    } else if t[i] == '\'' && !dq {
        comment_from(t, i + 1, dq, if odd { sq } else { !sq }, false)
    } else if t[i] == '/' && !dq && !sq && i + 1 < t.len() && t[i + 1] == '/' {
        Some(i)
    } else {
        comment_from(t, i + 1, dq, sq, false)
    }
}

/// Index of the first `//` outside quotes in `t`.
pub open spec fn comment_at(t: Seq<char>) -> Option<int> {
    comment_from(t, 0, false, false, false)
}

/// The text of a line that is run: trimmed, cut at the first `//` outside
/// quotes, and trimmed again.
pub open spec fn command_text(s: Seq<char>) -> Seq<char> {
    let t = trim(s);
    match comment_at(t) {
        Some(p) => trim(t.take(p)),
        None => t,
    }
}

/// The tokens of the command in `s`, or why there is none.
pub open spec fn tokenize_spec(s: Seq<char>) -> Result<Seq<Seq<char>>, TokenizeError> {
    let line = command_text(s);
    if line.len() == 0 {
        Err(TokenizeError::EmptyInput)
    } else {
        match tokens(line) {
            Err(k) => Err(TokenizeError::UnterminatedString { position: byte_offset(line, k) }),
            Ok(ts) => if ts.len() == 0 {
                Err(TokenizeError::EmptyInput)
            } else {
                Ok(ts)
            },
        }
    }
}

/// Index of the first `//` outside quotes in `cs`.
fn find_comment(cs: &Vec<char>) -> (r: Option<usize>)
    ensures
        r matches Some(p) ==> comment_at(cs@) == Some(p as int) && p < cs@.len(),
        r is None ==> comment_at(cs@) is None,
{
    let n = cs.len();
    let mut i: usize = 0;
    let mut dq = false;
    let mut sq = false;
    let mut odd = false;
    while i < n
        invariant
            n == cs@.len(),
            i <= n,
            comment_at(cs@) == comment_from(cs@, i as int, dq, sq, odd),
        decreases n - i,
    {
        let c = cs[i];
        if c == '\\' {
            odd = !odd;
        } else {
            if c == '"' && !sq {
                if !odd {
                    dq = !dq;
                }
            } else if c == '\'' && !dq {
                if !odd {
                    sq = !sq;
                }
            } else if c == '/' && !dq && !sq && i + 1 < n && cs[i + 1] == '/' {
                return Some(i);
            }
            odd = false;
        }
        i = i + 1;
    }
    None
}

/// Tokenizes one command line into its command name and arguments.
///
/// The line is trimmed, a `//` comment outside quotes is cut off, and what remains is split
/// by `tokenize_string`. Empty input, after that, is `EmptyInput`; an
/// unterminated quote reports its byte offset in the trimmed command text.
pub fn tokenize(input: &str) -> (r: Result<TokenizedCommand, TokenizeError>)
    ensures
        match tokenize_spec(input@) {
            Ok(ts) => r matches Ok(tc) && tc.command@ == ts[0] && views(tc.args@)
                == ts.drop_first() && tc.raw@ == input@,
            Err(e) => r matches Err(e2) && e2 == e,
        },
{
    let t = trimmed(input);
    let tcs = chars_of(t);
    let line = match find_comment(&tcs) {
        Some(p) => trimmed(t.substring_char(0, p)),
        None => t,
    };
    proof {
        if let Some(p) = comment_at(t@) {
            assert(t@.take(p) =~= t@.subrange(0, p));
        }
    }
    if line.is_empty() {
        return Err(TokenizeError::EmptyInput);
    }
    let mut toks = match tokenize_string(line) {
        Ok(v) => v,
        Err(e) => {
            return Err(e);
        },
    };
    if toks.len() == 0 {
        return Err(TokenizeError::EmptyInput);
    }
    let ghost all = views(toks@);
    let command = toks.remove(0);
    assert(views(toks@) =~= all.drop_first());
    Ok(TokenizedCommand { command, args: toks, raw: input.to_owned() })
}

/// The trimmed text of `t` as a list of zero or one commands.
pub open spec fn piece(t: Seq<char>) -> Seq<Seq<char>> {
    if trim(t).len() > 0 {
        seq![trim(t)]
    } else {
        Seq::empty()
    }
}

/// The commands of `s` from index `i` on, where the current command began at
/// `start`, `dq` / `sq` tell whether a double / single quote is open, and
/// `odd` whether an odd number of backslashes precedes `i`.
pub open spec fn split_from(s: Seq<char>, i: int, start: int, dq: bool, sq: bool, odd: bool) -> Seq<
    Seq<char>,
>
    decreases s.len() - i,
{
    if i < 0 || i >= s.len() {
        piece(s.subrange(start, s.len() as int))
    } else if s[i] == '\\' {
        split_from(s, i + 1, start, dq, sq, !odd)
    } else if s[i] == '"' && !sq {
        split_from(s, i + 1, start, if odd { dq } else { !dq }, sq, false)
    } else if s[i] == '\'' && !dq {
        split_from(s, i + 1, start, dq, if odd { sq } else { !sq }, false)
    } else if s[i] == ';' && !dq && !sq {
        piece(s.subrange(start, i)) + split_from(s, i + 1, i + 1, dq, sq, false)
    } else {
        split_from(s, i + 1, start, dq, sq, false)
    }
}

/// The commands of a line: its `;`-separated parts, trimmed, empty ones left out.
pub open spec fn split_spec(s: Seq<char>) -> Seq<Seq<char>> {
    split_from(s, 0, 0, false, false, false)
}

/// Splits a line on every `;` outside quotes.
///
/// A quote toggles only if an even number of backslashes precedes it, and a
/// double quote is literal inside single quotes and the other way round. Each
/// part is trimmed; empty parts are dropped.
pub fn split_commands(input: &str) -> (r: Vec<String>)
    ensures
        views(r@) == split_spec(input@),
{
    let cs = chars_of(input);
    let n = cs.len();
    let ghost s = input@;
    let mut out: Vec<String> = Vec::new();
    let mut start: usize = 0;
    let mut dq = false;
    let mut sq = false;
    let mut odd = false;
    let mut i: usize = 0;
    while i < n
        invariant
            cs@ == s,
            s == input@,
            n == s.len(),
            0 <= start <= i <= n,
            split_spec(s) == views(out@) + split_from(s, i as int, start as int, dq, sq, odd),
        decreases n - i,
    {
        let c = cs[i];
        if c == '\\' {
            odd = !odd;
        } else {
            if c == '"' && !sq {
                if !odd {
                    dq = !dq;
                }
            } else if c == '\'' && !dq {
                if !odd {
                    sq = !sq;
                }
            } else if c == ';' && !dq && !sq {
                let ghost before = views(out@);
                let ghost sub = s.subrange(start as int, i as int);
                let part = trimmed(input.substring_char(start, i));
                if !part.is_empty() {
                    let p = part.to_owned();
                    out.push(p);
                }
                proof {
                    let rest = split_from(s, i + 1, i + 1, false, false, false);
                    assert(views(out@) + rest =~= before + (piece(sub) + rest));
                }
                start = i + 1;
            }
            odd = false;
        }
        i = i + 1;
    }
    let ghost before = views(out@);
    let part = trimmed(input.substring_char(start, n));
    if !part.is_empty() {
        let p = part.to_owned();
        out.push(p);
    }
    assert(views(out@) =~= before + piece(s.subrange(start as int, n as int)));
    out
}

} // verus!

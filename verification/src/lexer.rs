//! Tokenizer: turns raw source text into an ordered sequence of lexical
//! tokens, discarding whitespace.
//!
//! Parentheses are always split into their own single-character tokens, and a
//! quoted run (an opening `"` through the next `"`, inclusive) is kept
//! verbatim as one token.  A quoted run that is never closed is malformed
//! input and is reported as an error rather than read past the end.

use vstd::prelude::*;

verus! {

/// Error raised by the tokenizer.
#[derive(Clone, Copy, Debug, PartialEq, Eq, Structural)]
pub enum LexError {
    /// A `"` was opened but never closed before the input ended.
    UnterminatedString,
}

/// Whitespace characters that separate tokens.
pub open spec fn spec_is_empty_char(c: char) -> bool {
    c == ' ' || c == '\n' || c == '\t'
}

/// A parenthesis always forms a token of its own.
pub open spec fn spec_is_paren(c: char) -> bool {
    c == '(' || c == ')'
}

/// Returns whether `c` is one of the whitespace characters that the
/// tokenizer skips: space, newline, or tab.
pub fn is_empty_char(c: char) -> (r: bool)
    ensures
        r == spec_is_empty_char(c),
{
    c == ' ' || c == '\n' || c == '\t'
}

/// Length of the symbol token starting at the front of `s`: the longest
/// prefix free of whitespace and parentheses.
pub open spec fn sym_len(s: Seq<char>) -> nat
    decreases s.len(),
{
    if s.len() == 0 || spec_is_empty_char(s[0]) || spec_is_paren(s[0]) {
        0
    } else {
        1 + sym_len(s.skip(1))
    }
}

/// Index of the first `"` in `s`, if any.
pub open spec fn close_quote_idx(s: Seq<char>) -> Option<nat>
    decreases s.len(),
{
    if s.len() == 0 {
        None
    } else if s[0] == '"' {
        Some(0nat)
    } else {
        match close_quote_idx(s.skip(1)) {
            None => None,
            Some(j) => Some(j + 1),
        }
    }
}

/// A symbol token never runs past the end of the input.
pub proof fn lemma_sym_len_le(s: Seq<char>)
    ensures
        sym_len(s) <= s.len(),
    decreases s.len(),
{
    if s.len() > 0 && !spec_is_empty_char(s[0]) && !spec_is_paren(s[0]) {
        lemma_sym_len_le(s.skip(1));
    }
}

/// A found closing quote lies inside the input.
pub proof fn lemma_close_quote_idx_le(s: Seq<char>)
    ensures
        close_quote_idx(s) is Some ==> close_quote_idx(s)->Some_0 < s.len(),
    decreases s.len(),
{
    if s.len() > 0 && s[0] != '"' {
        lemma_close_quote_idx_le(s.skip(1));
    }
}

/// Prepends a token to a tokenization outcome, keeping failure as failure.
pub open spec fn tok_cons(t: Seq<char>, rest: Option<Seq<Seq<char>>>) -> Option<Seq<Seq<char>>> {
    match rest {
        None => None,
        Some(ts) => Some(seq![t] + ts),
    }
}

/// The tokenization of `s`: `None` exactly when a quoted run is opened but
/// never closed.  Whitespace is skipped; each parenthesis is its own token;
/// a `"` at the start of a token takes everything through the next `"` as
/// one token; any other character starts a symbol token that runs until
/// whitespace or a parenthesis.
pub open spec fn spec_tokenize(s: Seq<char>) -> Option<Seq<Seq<char>>>
    decreases s.len(),
    via spec_tokenize_decreases
{
    if s.len() == 0 {
        Some(Seq::empty())
    } else if spec_is_empty_char(s[0]) {
        spec_tokenize(s.skip(1))
    } else if spec_is_paren(s[0]) {
        tok_cons(seq![s[0]], spec_tokenize(s.skip(1)))
    } else if s[0] == '"' {
        match close_quote_idx(s.skip(1)) {
            None => None,
            Some(j) => tok_cons(s.take(j + 2 as int), spec_tokenize(s.skip(j + 2 as int))),
        }
    } else {
        tok_cons(s.take(sym_len(s) as int), spec_tokenize(s.skip(sym_len(s) as int)))
    }
}

#[via_fn]
proof fn spec_tokenize_decreases(s: Seq<char>) {
    lemma_sym_len_le(s);
    if s.len() > 0 {
        lemma_close_quote_idx_le(s.skip(1));
    }
}

/// Appends already-produced tokens in front of a tokenization outcome.
pub open spec fn tok_concat(done: Seq<Seq<char>>, rest: Option<Seq<Seq<char>>>) -> Option<
    Seq<Seq<char>>,
> {
    match rest {
        None => None,
        Some(ts) => Some(done + ts),
    }
}

proof fn lemma_close_quote_at(s: Seq<char>, j: int)
    requires
        0 <= j < s.len(),
        s[j] == '"',
        forall|k: int| 0 <= k < j ==> s[k] != '"',
    ensures
        close_quote_idx(s) == Some(j as nat),
    decreases j,
{
    if j > 0 {
        assert forall|k: int| 0 <= k < j - 1 implies s.skip(1)[k] != '"' by {
            assert(s.skip(1)[k] == s[k + 1]);
        }
        assert(s.skip(1)[j - 1] == s[j]);
        lemma_close_quote_at(s.skip(1), j - 1);
    }
}

proof fn lemma_close_quote_none(s: Seq<char>)
    requires
        forall|k: int| 0 <= k < s.len() ==> s[k] != '"',
    ensures
        close_quote_idx(s) is None,
    decreases s.len(),
{
    if s.len() > 0 {
        assert forall|k: int| 0 <= k < s.skip(1).len() implies s.skip(1)[k] != '"' by {
            assert(s.skip(1)[k] == s[k + 1]);
        }
        lemma_close_quote_none(s.skip(1));
    }
}

/// The symbol token at the front of `s` ends exactly at the first
/// whitespace or parenthesis.
pub proof fn lemma_sym_len_at(s: Seq<char>, j: int)
    requires
        0 <= j <= s.len(),
        forall|k: int| 0 <= k < j ==> !spec_is_empty_char(s[k]) && !spec_is_paren(s[k]),
        j == s.len() || spec_is_empty_char(s[j]) || spec_is_paren(s[j]),
    ensures
        sym_len(s) == j,
    decreases j,
{
    if j > 0 {
        assert forall|k: int| 0 <= k < j - 1 implies !spec_is_empty_char(s.skip(1)[k])
            && !spec_is_paren(s.skip(1)[k]) by {
            assert(s.skip(1)[k] == s[k + 1]);
        }
        if j < s.len() {
            assert(s.skip(1)[j - 1] == s[j]);
        }
        lemma_sym_len_at(s.skip(1), j - 1);
    }
}

/// Returns whether the character at position `j` of `s` ends a symbol token.
fn is_delimiter_at(s: &str, j: usize) -> (r: bool)
    requires
        j < s@.len(),
    ensures
        r == (spec_is_empty_char(s@[j as int]) || spec_is_paren(s@[j as int])),
{
    let d = s.get_char(j);
    is_empty_char(d) || d == '(' || d == ')'
}

/// Breaks `s` into its tokens, in source order: each parenthesis alone, each
/// quoted run (quotes included) as one token, every other maximal run of
/// non-whitespace, non-parenthesis characters as one token, with whitespace
/// dropped.  Fails exactly when a quoted run is opened but never closed.
pub fn lexer(s: &str) -> (r: Result<Vec<String>, LexError>)
    ensures
        match r {
            Ok(ts) => spec_tokenize(s@) == Some(ts.deep_view()),
            Err(e) => spec_tokenize(s@) is None && e == LexError::UnterminatedString,
        },
{
    let len = s.unicode_len();
    let mut i: usize = 0;
    let mut result: Vec<String> = Vec::new();
    proof {
        assert(s@.skip(0) =~= s@);
        assert(result.deep_view() =~= Seq::<Seq<char>>::empty());
        if spec_tokenize(s@) is Some {
            assert(Seq::<Seq<char>>::empty() + spec_tokenize(s@)->Some_0 =~= spec_tokenize(
                s@,
            )->Some_0);
        }
    }
    while i < len
        invariant
            i <= len,
            len == s@.len(),
            spec_tokenize(s@) == tok_concat(result.deep_view(), spec_tokenize(s@.skip(i as int))),
        decreases len - i,
    {
        let ghost pre = s@.skip(i as int);
        let ghost done = result.deep_view();
        assert(pre[0] == s@[i as int]);
        let c = s.get_char(i);
        if is_empty_char(c) {
            i = i + 1;
            proof {
                assert(pre.skip(1) =~= s@.skip(i as int));
            }
        } else if c == '(' || c == ')' {
            let token = s.substring_char(i, i + 1).to_owned();
            result.push(token);
            i = i + 1;
            proof {
                assert(token@ =~= seq![c]);
                assert(pre.skip(1) =~= s@.skip(i as int));
                assert(result.deep_view() =~= done.push(token@));
                assert(spec_tokenize(s@) == tok_concat(
                    result.deep_view(),
                    spec_tokenize(s@.skip(i as int)),
                ));
            }
        } else if c == '"' {
            let mut j: usize = i + 1;
            while j < len && s.get_char(j) != '"'
                invariant
                    i + 1 <= j <= len,
                    len == s@.len(),
                    forall|k: int| i + 1 <= k < j ==> s@[k] != '"',
                decreases len - j,
            {
                j = j + 1;
            }
            if j == len {
                proof {
                    assert forall|k: int| 0 <= k < pre.skip(1).len() implies pre.skip(1)[k]
                        != '"' by {
                        assert(pre.skip(1)[k] == s@[i + 1 + k]);
                    }
                    lemma_close_quote_none(pre.skip(1));
                }
                return Err(LexError::UnterminatedString);
            }
            let token = s.substring_char(i, j + 1).to_owned();
            result.push(token);
            proof {
                assert forall|k: int| 0 <= k < j - (i + 1) implies pre.skip(1)[k] != '"' by {
                    assert(pre.skip(1)[k] == s@[i + 1 + k]);
                }
                assert(pre.skip(1)[j - (i + 1)] == s@[j as int]);
                lemma_close_quote_at(pre.skip(1), j - (i + 1));
                assert(token@ =~= pre.take(j + 1 - i));
                assert(pre.skip(j + 1 - i) =~= s@.skip(j + 1));
                assert(result.deep_view() =~= done.push(token@));
            }
            i = j + 1;
        } else {
            let mut j: usize = i + 1;
            while j < len && !is_delimiter_at(s, j)
                invariant
                    i + 1 <= j <= len,
                    len == s@.len(),
                    forall|k: int|
                        i <= k < j ==> !spec_is_empty_char(s@[k]) && !spec_is_paren(s@[k]),
                decreases len - j,
            {
                j = j + 1;
            }
            let token = s.substring_char(i, j).to_owned();
            result.push(token);
            proof {
                assert forall|k: int| 0 <= k < j - i implies !spec_is_empty_char(pre[k])
                    && !spec_is_paren(pre[k]) by {
                    assert(pre[k] == s@[i + k]);
                }
                if j < len {
                    assert(pre[j - i] == s@[j as int]);
                }
                lemma_sym_len_at(pre, j - i);
                assert(token@ =~= pre.take(j - i));
                assert(pre.skip(j - i) =~= s@.skip(j as int));
                assert(result.deep_view() =~= done.push(token@));
            }
            i = j;
        }
    }
    proof {
        assert(s@.skip(len as int) =~= Seq::<char>::empty());
        assert(result.deep_view() + Seq::<Seq<char>>::empty() =~= result.deep_view());
    }
    Ok(result)
}

} // verus!

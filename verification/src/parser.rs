//! Tree builder: consumes a token sequence from the front and assembles a
//! nested expression tree.
//!
//! Classification of a leaf token follows a fixed order: list-open,
//! list-close, number (first character a decimal digit, the rest digits or
//! `.`), string (first character `"`), and symbol as the fallback.  A `)`
//! with no open `(`, or input that ends while a list is still open, is
//! reported as unbalanced parentheses rather than a crash.

use vstd::prelude::*;

use crate::exp::{exps_view, ExpV, LispExp};

verus! {

/// Error raised by the tree builder.
#[derive(Clone, Copy, Debug, PartialEq, Eq, Structural)]
pub enum ParseError {
    /// A `)` appeared with no open `(`, or the input ended inside a list.
    UnbalancedParentheses,
    /// A numeric token does not denote a machine-representable whole number:
    /// it contains a `.`, or its value is too large.
    InvalidNumber,
}

/// A decimal digit.
pub open spec fn is_digit(c: char) -> bool {
    48 <= c as u32 <= 57
}

/// The value of a decimal digit.
pub open spec fn digit_val(c: char) -> int {
    c as u32 - 48
}

/// A token classified as a number: its first character is a decimal digit
/// and the remaining characters are digits or `.`.
pub open spec fn is_number_token(t: Seq<char>) -> bool {
    &&& t.len() > 0
    &&& is_digit(t[0])
    &&& forall|k: int| 1 <= k < t.len() ==> is_digit(t[k]) || t[k] == '.'
}

/// A token made of decimal digits only.
pub open spec fn all_digits(t: Seq<char>) -> bool {
    forall|k: int| 0 <= k < t.len() ==> is_digit(t[k])
}

/// The value of a run of decimal digits, most significant first.
pub open spec fn digits_val(t: Seq<char>) -> int
    decreases t.len(),
{
    if t.len() == 0 {
        0
    } else {
        digits_val(t.drop_last()) * 10 + digit_val(t.last())
    }
}

/// Classification of a leaf token, in the fixed order number, string,
/// symbol; the first matching rule wins.
pub open spec fn classify(t: Seq<char>) -> Result<ExpV, ParseError> {
    if is_number_token(t) {
        if all_digits(t) && digits_val(t) <= i64::MAX {
            Ok(ExpV::Number(digits_val(t)))
        } else {
            Err(ParseError::InvalidNumber)
        }
    } else if t.len() > 0 && t[0] == '"' {
        Ok(ExpV::Str(t))
    } else {
        Ok(ExpV::Symbol(t))
    }
}

/// One step per token: `stack` holds the partially built lists, outermost
/// first.  Returns the first complete expression together with the tokens
/// that follow it; tokens after the first complete expression are left
/// untouched.
pub open spec fn parse_run(ts: Seq<Seq<char>>, stack: Seq<Seq<ExpV>>) -> (Result<
    ExpV,
    ParseError,
>, Seq<Seq<char>>)
    decreases ts.len(),
{
    if ts.len() == 0 {
        (Err(ParseError::UnbalancedParentheses), ts)
    } else {
        let t = ts[0];
        if t == seq!['('] {
            parse_run(ts.skip(1), stack.push(Seq::empty()))
        } else if t == seq![')'] {
            if stack.len() == 0 {
                (Err(ParseError::UnbalancedParentheses), ts)
            } else {
                let done = ExpV::List(stack.last());
                if stack.len() == 1 {
                    (Ok(done), ts.skip(1))
                } else {
                    parse_run(
                        ts.skip(1),
                        stack.drop_last().update(
                            stack.len() - 2,
                            stack[stack.len() - 2].push(done),
                        ),
                    )
                }
            }
        } else {
            match classify(t) {
                Err(e) => (Err(e), ts),
                Ok(e) => {
                    if stack.len() == 0 {
                        (Ok(e), ts.skip(1))
                    } else {
                        parse_run(
                            ts.skip(1),
                            stack.update(stack.len() - 1, stack.last().push(e)),
                        )
                    }
                },
            }
        }
    }
}

/// The parse of a token sequence: an empty sequence denotes "no expression"
/// and parses to the sentinel symbol `nil`.
pub open spec fn spec_parse(ts: Seq<Seq<char>>) -> (Result<ExpV, ParseError>, Seq<Seq<char>>) {
    if ts.len() == 0 {
        (Ok(ExpV::Symbol("nil"@)), ts)
    } else {
        parse_run(ts, Seq::empty())
    }
}

proof fn lemma_digits_val_nonneg(t: Seq<char>)
    requires
        all_digits(t),
    ensures
        digits_val(t) >= 0,
    decreases t.len(),
{
    if t.len() > 0 {
        assert(all_digits(t.drop_last()));
        lemma_digits_val_nonneg(t.drop_last());
    }
}

/// Appending digits can only increase the value of a digit run.
proof fn lemma_digits_val_prefix(t: Seq<char>, i: int)
    requires
        all_digits(t),
        0 <= i <= t.len(),
    ensures
        digits_val(t.take(i)) <= digits_val(t),
    decreases t.len() - i,
{
    if i < t.len() {
        lemma_digits_val_prefix(t, i + 1);
        assert(t.take(i + 1).drop_last() =~= t.take(i));
        assert(t.take(i + 1).last() == t[i]);
        assert(all_digits(t.take(i)));
        lemma_digits_val_nonneg(t.take(i));
        assert(digits_val(t.take(i)) <= digits_val(t.take(i + 1)));
    } else {
        assert(t.take(i) =~= t);
    }
}

/// Classifies one token, building the leaf expression it denotes.
fn classify_token(t: &String) -> (r: Result<LispExp, ParseError>)
    ensures
        match (r, classify(t@)) {
            (Ok(e), Ok(ev)) => e@ == ev,
            (Err(a), Err(b)) => a == b,
            _ => false,
        },
{
    let tlen = t.as_str().unicode_len();
    if tlen == 0 {
        return Ok(LispExp::Symbol(t.clone()));
    }
    let first = t.as_str().get_char(0);
    if 48 <= first as u32 && first as u32 <= 57 {
        let mut shaped = true;
        let mut digits_only = true;
        let mut i: usize = 1;
        while i < tlen
            invariant
                1 <= i <= tlen,
                tlen == t@.len(),
                is_digit(t@[0]),
                shaped == (forall|k: int| 1 <= k < i ==> is_digit(t@[k]) || t@[k] == '.'),
                digits_only == (forall|k: int| 1 <= k < i ==> is_digit(t@[k])),
            decreases tlen - i,
        {
            let c = t.as_str().get_char(i);
            let u = c as u32;
            if 48 <= u && u <= 57 {
                proof {
                    assert(is_digit(t@[i as int]));
                }
            } else if c == '.' {
                digits_only = false;
            } else {
                shaped = false;
                digits_only = false;
            }
            i = i + 1;
        }
        if !shaped {
            return Ok(LispExp::Symbol(t.clone()));
        }
        if !digits_only {
            return Err(ParseError::InvalidNumber);
        }
        assert(all_digits(t@));
        let mut value: i64 = 0;
        let mut j: usize = 0;
        while j < tlen
            invariant
                0 <= j <= tlen,
                tlen == t@.len(),
                all_digits(t@),
                0 <= value,
                value as int == digits_val(t@.take(j as int)),
            decreases tlen - j,
        {
            let d = (t.as_str().get_char(j) as u32 - 48) as i64;
            proof {
                assert(t@.take(j + 1).drop_last() =~= t@.take(j as int));
                assert(t@.take(j + 1).last() == t@[j as int]);
                assert(all_digits(t@.take(j + 1)));
            }
            let scaled = match value.checked_mul(10) {
                Some(s) => s,
                None => {
                    proof {
                        lemma_digits_val_nonneg(t@.take(j + 1));
                        lemma_digits_val_prefix(t@, j + 1);
                    }
                    return Err(ParseError::InvalidNumber);
                },
            };
            let next = match scaled.checked_add(d) {
                Some(s) => s,
                None => {
                    proof {
                        lemma_digits_val_prefix(t@, j + 1);
                    }
                    return Err(ParseError::InvalidNumber);
                },
            };
            value = next;
            j = j + 1;
        }
        proof {
            assert(t@.take(tlen as int) =~= t@);
        }
        Ok(LispExp::Number(value))
    } else if first == '"' {
        Ok(LispExp::Str(t.clone()))
    } else {
        Ok(LispExp::Symbol(t.clone()))
    }
}

/// Builds the first expression denoted by `nodes`, consuming its tokens from
/// the front and leaving the tokens that follow it.  An empty sequence
/// parses to the sentinel symbol `nil`; a `)` with no open `(`, or input
/// that ends inside a list, is reported as unbalanced parentheses.
pub fn parser(nodes: &mut Vec<String>) -> (r: Result<LispExp, ParseError>)
    ensures
        ({
            let (sr, rest) = spec_parse(old(nodes).deep_view());
            &&& final(nodes).deep_view() == rest
            &&& match (r, sr) {
                (Ok(e), Ok(ev)) => e@ == ev,
                (Err(a), Err(b)) => a == b,
                _ => false,
            }
        }),
{
    broadcast use crate::exp::lemma_exps_view_is_deep_view;

    let ghost full = nodes.deep_view();
    if nodes.len() == 0 {
        return Ok(LispExp::Symbol(String::from_str("nil")));
    }
    let mut stack: Vec<Vec<LispExp>> = Vec::new();
    proof {
        assert(stack.deep_view() =~= Seq::<Seq<ExpV>>::empty());
    }
    loop
        invariant
            full == old(nodes).deep_view(),
            full.len() > 0,
            parse_run(full, Seq::empty()) == parse_run(nodes.deep_view(), stack.deep_view()),
        decreases nodes@.len(),
    {
        let ghost cur = nodes.deep_view();
        let ghost sv = stack.deep_view();
        if nodes.len() == 0 {
            proof {
                assert(cur =~= Seq::<Seq<char>>::empty());
            }
            return Err(ParseError::UnbalancedParentheses);
        }
        let tlen = nodes[0].as_str().unicode_len();
        proof {
            assert(cur[0] == nodes@[0]@);
        }
        if tlen == 1 && nodes[0].as_str().get_char(0) == '(' {
            nodes.remove(0);
            stack.push(Vec::new());
            proof {
                assert(cur[0] =~= seq!['(']);
                assert(nodes.deep_view() =~= cur.skip(1));
                assert(stack.deep_view() =~~= sv.push(Seq::<ExpV>::empty()));
            }
        } else if tlen == 1 && nodes[0].as_str().get_char(0) == ')' {
            proof {
                assert(cur[0] =~= seq![')']);
            }
            if stack.len() == 0 {
                return Err(ParseError::UnbalancedParentheses);
            }
            nodes.remove(0);
            proof {
                assert(nodes.deep_view() =~= cur.skip(1));
            }
            let top = match stack.pop() {
                Some(v) => v,
                None => {
                    proof {
                        assert(false);
                    }
                    Vec::new()
                },
            };
            let done = LispExp::List(top);
            proof {
                assert(exps_view(top@) =~= sv.last());
                assert(done@ == ExpV::List(sv.last()));
            }
            if stack.len() == 0 {
                return Ok(done);
            }
            let mut outer = match stack.pop() {
                Some(v) => v,
                None => {
                    proof {
                        assert(false);
                    }
                    Vec::new()
                },
            };
            outer.push(done);
            stack.push(outer);
            proof {
                assert(stack.deep_view() =~~= sv.drop_last().update(
                    sv.len() - 2,
                    sv[sv.len() - 2].push(ExpV::List(sv.last())),
                ));
            }
        } else {
            proof {
                assert(cur[0] != seq!['(']);
                assert(cur[0] != seq![')']);
            }
            let e = match classify_token(&nodes[0]) {
                Ok(e) => e,
                Err(pe) => {
                    return Err(pe);
                },
            };
            nodes.remove(0);
            proof {
                assert(nodes.deep_view() =~= cur.skip(1));
            }
            if stack.len() == 0 {
                return Ok(e);
            }
            let mut top = match stack.pop() {
                Some(v) => v,
                None => {
                    proof {
                        assert(false);
                    }
                    Vec::new()
                },
            };
            top.push(e);
            stack.push(top);
            proof {
                assert(stack.deep_view() =~~= sv.update(sv.len() - 1, sv.last().push(e@)));
            }
        }
    }
}

} // verus!

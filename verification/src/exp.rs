//! The expression tree: a tagged value with one case per literal kind, plus
//! list nodes and built-in function values.
//!
//! Equality is structural over booleans, numbers, strings, symbols and lists
//! (element-wise); two function values are never considered equal, since
//! built-ins are not first-class comparable data in this language.

use vstd::prelude::*;

verus! {

/// A built-in arithmetic operator, stored as the payload of a function value.
#[derive(Clone, Copy, Debug, PartialEq, Eq, Structural)]
pub enum Builtin {
    /// `+`: sum of all arguments, seeded with the additive identity 0.
    Add,
    /// `-`: left-associative subtraction seeded with the first argument.
    Sub,
    /// `*`: product of all arguments, seeded with the multiplicative identity 1.
    Mul,
    /// `/`: left-associative division seeded with the first argument.
    Div,
}

/// A node of the expression tree.
#[derive(Debug)]
pub enum LispExp {
    /// A boolean literal; reserved for future literals, never produced by the
    /// tokenizer or the tree builder.
    Bool(bool),
    /// A numeric literal, produced from a token whose first character is a
    /// decimal digit.
    Number(i64),
    /// A quoted string, stored verbatim with its surrounding quotes.
    Str(String),
    /// A bare symbol: an operator name or identifier.
    Symbol(String),
    /// A matched `(...)` span; the elements are the recursively parsed
    /// contents.
    List(Vec<LispExp>),
    /// A built-in operator; stored only as environment bindings, never
    /// produced by parsing.
    Func(Builtin),
}

/// The mathematical shape of an expression tree: numbers as unbounded
/// integers, text as character sequences.
pub enum ExpV {
    /// A boolean literal.
    Bool(bool),
    /// A numeric literal.
    Number(int),
    /// A quoted string, quotes included.
    Str(Seq<char>),
    /// A bare symbol.
    Symbol(Seq<char>),
    /// A list node.
    List(Seq<ExpV>),
    /// A built-in operator.
    Func(Builtin),
}

/// The shape of an expression tree.
pub open spec fn exp_view(e: LispExp) -> ExpV
    decreases e,
    via exp_view_decreases
{
    match e {
        LispExp::Bool(b) => ExpV::Bool(b),
        LispExp::Number(n) => ExpV::Number(n as int),
        LispExp::Str(s) => ExpV::Str(s@),
        LispExp::Symbol(s) => ExpV::Symbol(s@),
        LispExp::List(v) => ExpV::List(exps_view(v@)),
        LispExp::Func(b) => ExpV::Func(b),
    }
}

/// The shapes of a sequence of expression trees, element-wise.
pub open spec fn exps_view(s: Seq<LispExp>) -> Seq<ExpV>
    decreases s,
{
    Seq::new(
        s.len(),
        |i: int|
            if 0 <= i < s.len() {
                exp_view(s[i])
            } else {
                ExpV::Bool(false)
            },
    )
}

#[via_fn]
proof fn exp_view_decreases(e: LispExp) {
    match e {
        LispExp::List(v) => {
            assert(decreases_to!(e => v));
            assert(decreases_to!(v => v@));
        },
        _ => {},
    }
}

/// The two ways of taking the shape of a vector of expressions agree.
pub broadcast proof fn lemma_exps_view_is_deep_view(v: Vec<LispExp>)
    ensures
        #[trigger] exps_view(v@) == v.deep_view(),
{
    assert(exps_view(v@) =~= v.deep_view());
}

impl View for LispExp {
    type V = ExpV;

    open spec fn view(&self) -> ExpV {
        exp_view(*self)
    }
}

impl DeepView for LispExp {
    type V = ExpV;

    open spec fn deep_view(&self) -> ExpV {
        self@
    }
}

/// Structural equality of two expression shapes; function values never
/// compare equal.
pub open spec fn exp_eq(a: ExpV, b: ExpV) -> bool
    decreases a,
{
    match (a, b) {
        (ExpV::Bool(x), ExpV::Bool(y)) => x == y,
        (ExpV::Number(x), ExpV::Number(y)) => x == y,
        (ExpV::Str(x), ExpV::Str(y)) => x == y,
        (ExpV::Symbol(x), ExpV::Symbol(y)) => x == y,
        (ExpV::List(x), ExpV::List(y)) => x.len() == y.len() && (forall|i: int|
            0 <= i < x.len() ==> exp_eq(x[i], y[i])),
        _ => false,
    }
}

impl Clone for LispExp {
    /// A clone has the same shape as the original.
    fn clone(&self) -> (r: Self)
        ensures
            r@ == self@,
        decreases self,
    {
        match self {
            LispExp::Bool(b) => LispExp::Bool(*b),
            LispExp::Number(n) => LispExp::Number(*n),
            LispExp::Str(s) => LispExp::Str(s.clone()),
            LispExp::Symbol(s) => LispExp::Symbol(s.clone()),
            LispExp::List(v) => {
                let mut copy: Vec<LispExp> = Vec::new();
                let mut i: usize = 0;
                while i < v.len()
                    invariant
                        i <= v.len(),
                        copy@.len() == i,
                        *self == LispExp::List(*v),
                        forall|k: int| 0 <= k < i ==> copy@[k]@ == v@[k]@,
                    decreases v.len() - i,
                {
                    proof {
                        assert(decreases_to!(*self => v@[i as int])) by {
                            match *self {
                                LispExp::List(inner) => {
                                    assert(decreases_to!(*self => inner));
                                    assert(inner == *v);
                                    assert(decreases_to!(inner => inner@));
                                },
                                _ => {},
                            }
                        }
                    }
                    copy.push(v[i].clone());
                    i = i + 1;
                }
                proof {
                    assert(exps_view(copy@) =~= exps_view(v@));
                }
                LispExp::List(copy)
            },
            LispExp::Func(b) => LispExp::Func(*b),
        }
    }
}

impl PartialEq for LispExp {
    /// Structural equality; `==` on two function values is always false.
    fn eq(&self, other: &LispExp) -> (r: bool)
        ensures
            r == exp_eq(self@, other@),
        decreases self,
    {
        let r = match (self, other) {
            (LispExp::Bool(x), LispExp::Bool(y)) => x == y,
            (LispExp::Number(x), LispExp::Number(y)) => x == y,
            (LispExp::Str(x), LispExp::Str(y)) => *x == *y,
            (LispExp::Symbol(x), LispExp::Symbol(y)) => *x == *y,
            (LispExp::List(x), LispExp::List(y)) => {
                if x.len() != y.len() {
                    return false;
                }
                let mut i: usize = 0;
                while i < x.len()
                    invariant
                        i <= x.len(),
                        x@.len() == y@.len(),
                        *self == LispExp::List(*x),
                        *other == LispExp::List(*y),
                        forall|k: int| 0 <= k < i ==> exp_eq(x@[k]@, y@[k]@),
                    decreases x.len() - i,
                {
                    proof {
                        assert(decreases_to!(*self => x@[i as int])) by {
                            match *self {
                                LispExp::List(inner) => {
                                    assert(decreases_to!(*self => inner));
                                    assert(inner == *x);
                                    assert(decreases_to!(inner => inner@));
                                },
                                _ => {},
                            }
                        }
                    }
                    if !x[i].eq(&y[i]) {
                        proof {
                            assert(exps_view(x@)[i as int] == exp_view(x@[i as int]));
                            assert(exps_view(y@)[i as int] == exp_view(y@[i as int]));
                            assert(!exp_eq(self@, other@));
                        }
                        return false;
                    }
                    i = i + 1;
                }
                proof {
                    assert forall|k: int| 0 <= k < exps_view(x@).len() implies exp_eq(
                        exps_view(x@)[k],
                        exps_view(y@)[k],
                    ) by {
                        assert(exp_eq(x@[k]@, y@[k]@));
                    }
                    assert(exp_eq(self@, other@));
                }
                true
            },
            _ => false,
        };
        r
    }
}

impl vstd::std_specs::cmp::PartialEqSpecImpl for LispExp {
    open spec fn obeys_eq_spec() -> bool {
        true
    }

    open spec fn eq_spec(&self, other: &LispExp) -> bool {
        exp_eq(self@, other@)
    }
}

} // verus!

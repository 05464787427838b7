//! The environment: a flat symbol table mapping names to expressions,
//! mutable only through explicit insertion, and pre-seeded with the four
//! arithmetic operators at startup.

use vstd::prelude::*;

use crate::exp::{exp_view, Builtin, ExpV, LispExp};

verus! {

/// The mapping that a sequence of bindings denotes: an earlier binding for a
/// name shadows any later one.
pub open spec fn bindings_map(s: Seq<(String, LispExp)>) -> Map<Seq<char>, ExpV>
    decreases s.len(),
{
    if s.len() == 0 {
        Map::empty()
    } else {
        bindings_map(s.skip(1)).insert(s[0].0@, exp_view(s[0].1))
    }
}

/// A symbol table for one evaluation session.
pub struct LispEnv {
    variables: Vec<(String, LispExp)>,
}

impl View for LispEnv {
    type V = Map<Seq<char>, ExpV>;

    closed spec fn view(&self) -> Map<Seq<char>, ExpV> {
        bindings_map(self.variables@)
    }
}

proof fn lemma_bindings_map_skip(s: Seq<(String, LispExp)>, k: Seq<char>, i: int)
    requires
        0 <= i <= s.len(),
        forall|j: int| 0 <= j < i ==> s[j].0@ != k,
    ensures
        bindings_map(s).contains_key(k) <==> bindings_map(s.skip(i)).contains_key(k),
        bindings_map(s).contains_key(k) ==> bindings_map(s)[k] == bindings_map(s.skip(i))[k],
    decreases i,
{
    if i > 0 {
        assert forall|j: int| 0 <= j < i - 1 implies s.skip(1)[j].0@ != k by {
            assert(s.skip(1)[j] == s[j + 1]);
        }
        lemma_bindings_map_skip(s.skip(1), k, i - 1);
        assert(s.skip(1).skip(i - 1) =~= s.skip(i));
    } else {
        assert(s.skip(0) =~= s);
    }
}

impl LispEnv {
    /// Creates an empty symbol table.
    pub fn new() -> (r: LispEnv)
        ensures
            r@ == Map::<Seq<char>, ExpV>::empty(),
    {
        LispEnv { variables: Vec::new() }
    }

    /// Inserts a binding for `name`, overwriting any binding it had.
    pub fn bind(&mut self, name: String, value: LispExp)
        ensures
            final(self)@ == old(self)@.insert(name@, value@),
    {
        let ghost before = self.variables@;
        let ghost k = name@;
        let ghost v = value@;
        self.variables.insert(0, (name, value));
        proof {
            assert(self.variables@.skip(1) =~= before);
            assert(bindings_map(self.variables@) == bindings_map(before).insert(k, v));
        }
    }

    /// Returns a copy of the value bound to `name`, or `None` if `name` has
    /// no binding.
    pub fn lookup(&self, name: &String) -> (r: Option<LispExp>)
        ensures
            match r {
                Some(v) => self@.contains_key(name@) && v@ == self@[name@],
                None => !self@.contains_key(name@),
            },
    {
        let n = self.variables.len();
        let mut i: usize = 0;
        while i < n
            invariant
                i <= n,
                n == self.variables@.len(),
                forall|j: int| 0 <= j < i ==> self.variables@[j].0@ != name@,
            decreases n - i,
        {
            let entry = &self.variables[i];
            if *name == entry.0 {
                let value = entry.1.clone();
                proof {
                    lemma_bindings_map_skip(self.variables@, name@, i as int);
                }
                return Some(value);
            }
            i = i + 1;
        }
        proof {
            lemma_bindings_map_skip(self.variables@, name@, n as int);
            assert(self.variables@.skip(n as int) =~= Seq::<(String, LispExp)>::empty());
        }
        None
    }
}

/// The seeding of `m` with the four built-in arithmetic operators.
pub open spec fn with_builtins(m: Map<Seq<char>, ExpV>) -> Map<Seq<char>, ExpV> {
    m.insert("+"@, ExpV::Func(Builtin::Add)).insert("-"@, ExpV::Func(Builtin::Sub)).insert(
        "*"@,
        ExpV::Func(Builtin::Mul),
    ).insert("/"@, ExpV::Func(Builtin::Div))
}

/// Binds the four arithmetic operators `+`, `-`, `*` and `/` in `env`.
pub fn default_env(env: &mut LispEnv)
    ensures
        final(env)@ == with_builtins(old(env)@),
{
    env.bind(String::from_str("+"), LispExp::Func(Builtin::Add));
    env.bind(String::from_str("-"), LispExp::Func(Builtin::Sub));
    env.bind(String::from_str("*"), LispExp::Func(Builtin::Mul));
    env.bind(String::from_str("/"), LispExp::Func(Builtin::Div));
}

} // verus!

use crate::number::{power_spec, product_spec, reciprocal_spec, sum_spec, NumError, Number};
use vstd::prelude::*;

verus! {

/// An algebraic term: a number, a named variable, or an operation on two
/// sub-terms.
#[derive(Debug)]
pub enum Term {
    Value(Number),
    Variable(String),
    Addition(Box<Term>, Box<Term>),
    Multiplication(Box<Term>, Box<Term>),
    Exponentiation(Box<Term>, Box<Term>),
    /// The `degree`-th root of the `radicand`: the radicand raised to the
    /// reciprocal of the degree.
    RootExtraction(Box<Term>, Box<Term>),
}

/// Whether no variable is reachable from the root of `t`.
pub open spec fn bound(t: Term) -> bool
    decreases t,
{
    match t {
        Term::Value(_) => true,
        Term::Variable(_) => false,
        Term::Addition(l, r) => bound(*l) && bound(*r),
        Term::Multiplication(l, r) => bound(*l) && bound(*r),
        Term::Exponentiation(l, r) => bound(*l) && bound(*r),
        Term::RootExtraction(l, r) => bound(*l) && bound(*r),
    }
}

/// The names of the variables reachable from the root of `t`.
pub open spec fn vars(t: Term) -> Set<Seq<char>>
    decreases t,
{
    match t {
        Term::Value(_) => Set::empty(),
        Term::Variable(name) => set![name@],
        Term::Addition(l, r) => vars(*l).union(vars(*r)),
        Term::Multiplication(l, r) => vars(*l).union(vars(*r)),
        Term::Exponentiation(l, r) => vars(*l).union(vars(*r)),
        Term::RootExtraction(l, r) => vars(*l).union(vars(*r)),
    }
}

/// Every number held by `t` is well formed.
pub open spec fn term_wf(t: Term) -> bool
    decreases t,
{
    match t {
        Term::Value(v) => v.wf(),
        Term::Variable(_) => true,
        Term::Addition(l, r) => term_wf(*l) && term_wf(*r),
        Term::Multiplication(l, r) => term_wf(*l) && term_wf(*r),
        Term::Exponentiation(l, r) => term_wf(*l) && term_wf(*r),
        Term::RootExtraction(l, r) => term_wf(*l) && term_wf(*r),
    }
}

/// `t` with every variable called `name` replaced by the value `v`.
pub open spec fn subst(t: Term, name: Seq<char>, v: Number) -> Term
    decreases t,
{
    match t {
        Term::Value(_) => t,
        Term::Variable(n) => if n@ == name {
            Term::Value(v)
        } else {
            t
        },
        Term::Addition(l, r) => Term::Addition(
            Box::new(subst(*l, name, v)),
            Box::new(subst(*r, name, v)),
        ),
        Term::Multiplication(l, r) => Term::Multiplication(
            Box::new(subst(*l, name, v)),
            Box::new(subst(*r, name, v)),
        ),
        Term::Exponentiation(l, r) => Term::Exponentiation(
            Box::new(subst(*l, name, v)),
            Box::new(subst(*r, name, v)),
        ),
        Term::RootExtraction(l, r) => Term::RootExtraction(
            Box::new(subst(*l, name, v)),
            Box::new(subst(*r, name, v)),
        ),
    }
}

/// `t` with each binding, in order, substituted.
pub open spec fn subst_all(t: Term, bindings: Seq<(Seq<char>, Number)>) -> Term
    decreases bindings.len(),
{
    if bindings.len() == 0 {
        t
    } else {
        subst_all(subst(t, bindings[0].0, bindings[0].1), bindings.drop_first())
    }
}

/// The arithmetic of an operation node.
#[derive(Clone, Copy, Debug, PartialEq, Eq, Structural)]
pub enum Operation {
    Add,
    Multiply,
    Power,
    Root,
}

/// The radicand raised to the reciprocal of the degree.
pub open spec fn root_spec(radicand: Number, degree: Number) -> Result<Number, NumError> {
    match reciprocal_spec(degree) {
        Ok(inv) => power_spec(radicand, inv),
        Err(e) => Err(e),
    }
}

pub open spec fn operation_spec(op: Operation, x: Number, y: Number) -> Result<Number, NumError> {
    match op {
        Operation::Add => sum_spec(x, y),
        Operation::Multiply => product_spec(x, y),
        Operation::Power => power_spec(x, y),
        Operation::Root => root_spec(x, y),
    }
}

/// Applies `op` to two evaluated operands: nothing where either is unbound,
/// the first error met, or the result of the arithmetic.
pub open spec fn combine(
    op: Operation,
    a: Option<Result<Number, NumError>>,
    b: Option<Result<Number, NumError>>,
) -> Option<Result<Number, NumError>> {
    match (a, b) {
        (Some(Ok(x)), Some(Ok(y))) => Some(operation_spec(op, x, y)),
        (Some(Err(e)), Some(_)) => Some(Err(e)),
        (Some(Ok(_)), Some(Err(e))) => Some(Err(e)),
        _ => None,
    }
}

/// The value of `t`: nothing where a variable remains, otherwise the result
/// of the arithmetic.
pub open spec fn eval(t: Term) -> Option<Result<Number, NumError>>
    decreases t,
{
    match t {
        Term::Value(v) => Some(Ok(v)),
        Term::Variable(_) => None,
        Term::Addition(l, r) => combine(Operation::Add, eval(*l), eval(*r)),
        Term::Multiplication(l, r) => combine(Operation::Multiply, eval(*l), eval(*r)),
        Term::Exponentiation(l, r) => combine(Operation::Power, eval(*l), eval(*r)),
        Term::RootExtraction(l, r) => combine(Operation::Root, eval(*l), eval(*r)),
    }
}

impl Operation {
    /// Applies this operation to two numbers.
    pub fn apply(self, x: &Number, y: &Number) -> (r: Result<Number, NumError>)
        requires
            x.wf(),
            y.wf(),
        ensures
            r == operation_spec(self, *x, *y),
            r matches Ok(n) ==> n.wf(),
    {
        match self {
            Operation::Add => x.add(y),
            Operation::Multiply => x.mul(y),
            Operation::Power => x.pow(y),
            Operation::Root => match y.reciprocal() {
                Ok(inv) => x.pow(&inv),
                Err(e) => Err(e),
            },
        }
    }

    /// Applies this operation to two evaluated operands.
    pub fn combine(
        self,
        a: Option<Result<Number, NumError>>,
        b: Option<Result<Number, NumError>>,
    ) -> (r: Option<Result<Number, NumError>>)
        requires
            a matches Some(Ok(x)) ==> x.wf(),
            b matches Some(Ok(y)) ==> y.wf(),
        ensures
            r == combine(self, a, b),
            r matches Some(Ok(n)) ==> n.wf(),
    {
        match (a, b) {
            (Some(Ok(x)), Some(Ok(y))) => Some(self.apply(&x, &y)),
            (Some(Err(e)), Some(_)) => Some(Err(e)),
            (Some(Ok(_)), Some(Err(e))) => Some(Err(e)),
            _ => None,
        }
    }
}

impl Term {
    /// Whether no variable is reachable from this term.
    pub fn has_value(&self) -> (r: bool)
        ensures
            r == bound(*self),
        decreases self,
    {
        match self {
            Term::Value(_) => true,
            Term::Variable(_) => false,
            Term::Addition(l, r) => l.has_value() && r.has_value(),
            Term::Multiplication(l, r) => l.has_value() && r.has_value(),
            Term::Exponentiation(l, r) => l.has_value() && r.has_value(),
            Term::RootExtraction(l, r) => l.has_value() && r.has_value(),
        }
    }

    /// This term with every variable called `name` replaced by `value`.
    pub fn substitute(self, name: &str, value: Number) -> (r: Term)
        ensures
            r == subst(self, name@, value),
            term_wf(self) && value.wf() ==> term_wf(r),
    {
        let owned = name.to_owned();
        let r = self.replace(&owned, &value);
        proof {
            if term_wf(self) && value.wf() {
                lemma_subst_wf(self, name@, value);
            }
        }
        r
    }

    fn replace(self, name: &String, value: &Number) -> (r: Term)
        ensures
            r == subst(self, name@, *value),
        decreases self,
    {
        match self {
            Term::Value(v) => Term::Value(v),
            Term::Variable(n) => {
                if n == *name {
                    Term::Value(value.duplicate())
                } else {
                    Term::Variable(n)
                }
            },
            Term::Addition(l, r) => Term::Addition(
                Box::new(l.replace(name, value)),
                Box::new(r.replace(name, value)),
            ),
            Term::Multiplication(l, r) => Term::Multiplication(
                Box::new(l.replace(name, value)),
                Box::new(r.replace(name, value)),
            ),
            Term::Exponentiation(l, r) => Term::Exponentiation(
                Box::new(l.replace(name, value)),
                Box::new(r.replace(name, value)),
            ),
            Term::RootExtraction(l, r) => Term::RootExtraction(
                Box::new(l.replace(name, value)),
                Box::new(r.replace(name, value)),
            ),
        }
    }

    /// The value of this term, or `None` while a variable remains in it.
    pub fn get_value(&self) -> (r: Option<Result<Number, NumError>>)
        requires
            term_wf(*self),
        ensures
            r == eval(*self),
            r is None <==> !bound(*self),
            r matches Some(Ok(n)) ==> n.wf(),
        decreases self,
    {
        proof {
            lemma_eval_some_iff_bound(*self);
        }
        match self {
            Term::Value(v) => Some(Ok(v.duplicate())),
            Term::Variable(_) => None,
            Term::Addition(l, r) => Operation::Add.combine(l.get_value(), r.get_value()),
            Term::Multiplication(l, r) => Operation::Multiply.combine(l.get_value(), r.get_value()),
            Term::Exponentiation(l, r) => Operation::Power.combine(l.get_value(), r.get_value()),
            Term::RootExtraction(l, r) => Operation::Root.combine(l.get_value(), r.get_value()),
        }
    }
}

pub proof fn lemma_subst_wf(t: Term, name: Seq<char>, v: Number)
    requires
        term_wf(t),
        v.wf(),
    ensures
        term_wf(subst(t, name, v)),
    decreases t,
{
    match t {
        Term::Addition(l, r) => {
            lemma_subst_wf(*l, name, v);
            lemma_subst_wf(*r, name, v);
        },
        Term::Multiplication(l, r) => {
            lemma_subst_wf(*l, name, v);
            lemma_subst_wf(*r, name, v);
        },
        Term::Exponentiation(l, r) => {
            lemma_subst_wf(*l, name, v);
            lemma_subst_wf(*r, name, v);
        },
        Term::RootExtraction(l, r) => {
            lemma_subst_wf(*l, name, v);
            lemma_subst_wf(*r, name, v);
        },
        _ => {},
    }
}

/// A term has a value exactly when it is bound.
pub proof fn lemma_eval_some_iff_bound(t: Term)
    ensures
        eval(t) is Some <==> bound(t),
    decreases t,
{
    match t {
        Term::Addition(l, r) => {
            lemma_eval_some_iff_bound(*l);
            lemma_eval_some_iff_bound(*r);
        },
        Term::Multiplication(l, r) => {
            lemma_eval_some_iff_bound(*l);
            lemma_eval_some_iff_bound(*r);
        },
        Term::Exponentiation(l, r) => {
            lemma_eval_some_iff_bound(*l);
            lemma_eval_some_iff_bound(*r);
        },
        Term::RootExtraction(l, r) => {
            lemma_eval_some_iff_bound(*l);
            lemma_eval_some_iff_bound(*r);
        },
        _ => {},
    }
}

/// A term is bound exactly when no variable is reachable from its root: a
/// tree of values alone is bound, one with any variable leaf is not.
pub proof fn lemma_bound_iff_no_variable(t: Term)
    ensures
        bound(t) <==> vars(t) =~= Set::<Seq<char>>::empty(),
    decreases t,
{
    match t {
        Term::Variable(n) => {
            assert(vars(t).contains(n@));
        },
        Term::Addition(l, r) => {
            lemma_bound_iff_no_variable(*l);
            lemma_bound_iff_no_variable(*r);
            lemma_union_empty(vars(*l), vars(*r));
        },
        Term::Multiplication(l, r) => {
            lemma_bound_iff_no_variable(*l);
            lemma_bound_iff_no_variable(*r);
            lemma_union_empty(vars(*l), vars(*r));
        },
        Term::Exponentiation(l, r) => {
            lemma_bound_iff_no_variable(*l);
            lemma_bound_iff_no_variable(*r);
            lemma_union_empty(vars(*l), vars(*r));
        },
        Term::RootExtraction(l, r) => {
            lemma_bound_iff_no_variable(*l);
            lemma_bound_iff_no_variable(*r);
            lemma_union_empty(vars(*l), vars(*r));
        },
        _ => {},
    }
}

proof fn lemma_union_empty(a: Set<Seq<char>>, b: Set<Seq<char>>)
    ensures
        a.union(b) =~= Set::<Seq<char>>::empty() <==> (a =~= Set::<Seq<char>>::empty() && b
            =~= Set::<Seq<char>>::empty()),
{
    if a.union(b) =~= Set::<Seq<char>>::empty() {
        assert forall|x| !a.contains(x) && !b.contains(x) by {
            assert(!a.union(b).contains(x));
        }
    }
}

/// Substituting a name that does not occur in a term leaves the term, and so
/// its value, unchanged.
pub proof fn lemma_substitute_absent(t: Term, name: Seq<char>, v: Number)
    requires
        !vars(t).contains(name),
    ensures
        subst(t, name, v) == t,
        eval(subst(t, name, v)) == eval(t),
    decreases t,
{
    match t {
        Term::Variable(n) => {
            assert(vars(t).contains(n@));
        },
        Term::Addition(l, r) => {
            lemma_substitute_absent(*l, name, v);
            lemma_substitute_absent(*r, name, v);
        },
        Term::Multiplication(l, r) => {
            lemma_substitute_absent(*l, name, v);
            lemma_substitute_absent(*r, name, v);
        },
        Term::Exponentiation(l, r) => {
            lemma_substitute_absent(*l, name, v);
            lemma_substitute_absent(*r, name, v);
        },
        Term::RootExtraction(l, r) => {
            lemma_substitute_absent(*l, name, v);
            lemma_substitute_absent(*r, name, v);
        },
        _ => {},
    }
}

/// Substituting a name removes it, and only it, from the term's variables.
pub proof fn lemma_vars_subst(t: Term, name: Seq<char>, v: Number)
    ensures
        vars(subst(t, name, v)) =~= vars(t).remove(name),
    decreases t,
{
    match t {
        Term::Addition(l, r) => {
            lemma_vars_subst(*l, name, v);
            lemma_vars_subst(*r, name, v);
        },
        Term::Multiplication(l, r) => {
            lemma_vars_subst(*l, name, v);
            lemma_vars_subst(*r, name, v);
        },
        Term::Exponentiation(l, r) => {
            lemma_vars_subst(*l, name, v);
            lemma_vars_subst(*r, name, v);
        },
        Term::RootExtraction(l, r) => {
            lemma_vars_subst(*l, name, v);
            lemma_vars_subst(*r, name, v);
        },
        _ => {},
    }
}

/// After a sequence of substitutions a term keeps only the variables that
/// none of them named.
pub proof fn lemma_vars_subst_all(t: Term, bindings: Seq<(Seq<char>, Number)>)
    ensures
        forall|n: Seq<char>|
            #![trigger vars(subst_all(t, bindings)).contains(n)]
            vars(subst_all(t, bindings)).contains(n) ==> vars(t).contains(n) && forall|i: int|
                0 <= i < bindings.len() ==> bindings[i].0 != n,
    decreases bindings.len(),
{
    if bindings.len() > 0 {
        let t1 = subst(t, bindings[0].0, bindings[0].1);
        let rest = bindings.drop_first();
        lemma_vars_subst(t, bindings[0].0, bindings[0].1);
        lemma_vars_subst_all(t1, rest);
        assert forall|n: Seq<char>| #[trigger] vars(subst_all(t, bindings)).contains(n) implies vars(
            t,
        ).contains(n) && forall|i: int| 0 <= i < bindings.len() ==> bindings[i].0 != n by {
            assert(vars(t1).contains(n));
            assert forall|i: int| 0 <= i < bindings.len() implies bindings[i].0 != n by {
                if i > 0 {
                    assert(rest[i - 1] == bindings[i]);
                }
            }
        }
    }
}

/// Once every variable name of a term has been substituted, the term is
/// bound and has a value.
pub proof fn lemma_substitute_all_binds(t: Term, bindings: Seq<(Seq<char>, Number)>)
    requires
        forall|n: Seq<char>|
            #[trigger] vars(t).contains(n) ==> exists|i: int|
                0 <= i < bindings.len() && bindings[i].0 == n,
    ensures
        bound(subst_all(t, bindings)),
        eval(subst_all(t, bindings)) is Some,
{
    let s = subst_all(t, bindings);
    lemma_vars_subst_all(t, bindings);
    assert forall|n: Seq<char>| !vars(s).contains(n) by {
        if vars(s).contains(n) {
            let i = choose|i: int| 0 <= i < bindings.len() && bindings[i].0 == n;
            assert(bindings[i].0 != n);
        }
    }
    assert(vars(s) =~= Set::<Seq<char>>::empty());
    lemma_bound_iff_no_variable(s);
    lemma_eval_some_iff_bound(s);
}

} // verus!

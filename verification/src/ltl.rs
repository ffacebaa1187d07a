//! The bounded linear-temporal-logic verifier: formula syntax,
//! negation normal form, and the one-step evaluator that consumes one
//! snapshot and yields a definite verdict or a residual formula to
//! carry into the next step.
//!
//! Thunks — callables of the specification that produce a formula when
//! evaluated against the current snapshot — are represented by
//! identifiers. The embedded-interpreter side evaluates them once per
//! step and hands their results in as a resolution table, so the whole
//! evaluation step is a function of its inputs.

use vstd::prelude::*;

verus! {

/// A point in time, in milliseconds since the epoch.
pub type Time = u64;

/// A formula as the specification loader builds it.
#[derive(Debug)]
pub enum Syntax {
    Pure(bool),
    Thunk(u64),
    Not(Box<Syntax>),
    And(Box<Syntax>, Box<Syntax>),
    Or(Box<Syntax>, Box<Syntax>),
    Implies(Box<Syntax>, Box<Syntax>),
    Next(Box<Syntax>),
    Always(Box<Syntax>, Option<u64>),
    Eventually(Box<Syntax>, Option<u64>),
}

/// The temporal bound of an `Always` or `Eventually` node. A relative
/// bound becomes an absolute deadline the first time the node is
/// evaluated.
#[derive(Clone, Copy, Debug, PartialEq, Eq, Structural)]
pub enum Bound {
    Unbounded,
    Relative(u64),
    Deadline(Time),
}

/// A formula in negation normal form: negation survives only as the
/// flag on thunk leaves.
#[derive(Debug)]
pub enum Formula {
    Pure(bool),
    Thunk(u64, bool),
    And(Box<Formula>, Box<Formula>),
    Or(Box<Formula>, Box<Formula>),
    Next(Box<Formula>),
    Always(Box<Formula>, Bound),
    Eventually(Box<Formula>, Bound),
}

/// The relative form of a loader bound.
pub open spec fn spec_bound_of(b: Option<u64>) -> Bound {
    match b {
        Option::None => Bound::Unbounded,
        Option::Some(m) => Bound::Relative(m),
    }
}

/// Negation normal form: `Not` is pushed to the leaves, `Implies`
/// rewritten, temporal operators dualised.
pub open spec fn spec_nnf(s: Syntax, neg: bool) -> Formula
    decreases s,
{
    match s {
        Syntax::Pure(b) => Formula::Pure(b != neg),
        Syntax::Thunk(id) => Formula::Thunk(id, neg),
        Syntax::Not(x) => spec_nnf(*x, !neg),
        Syntax::And(a, b) => if !neg {
            Formula::And(Box::new(spec_nnf(*a, false)), Box::new(spec_nnf(*b, false)))
        } else {
            Formula::Or(Box::new(spec_nnf(*a, true)), Box::new(spec_nnf(*b, true)))
        },
        Syntax::Or(a, b) => if !neg {
            Formula::Or(Box::new(spec_nnf(*a, false)), Box::new(spec_nnf(*b, false)))
        } else {
            Formula::And(Box::new(spec_nnf(*a, true)), Box::new(spec_nnf(*b, true)))
        },
        Syntax::Implies(a, b) => if !neg {
            Formula::Or(Box::new(spec_nnf(*a, true)), Box::new(spec_nnf(*b, false)))
        } else {
            Formula::And(Box::new(spec_nnf(*a, false)), Box::new(spec_nnf(*b, true)))
        },
        Syntax::Next(x) => Formula::Next(Box::new(spec_nnf(*x, neg))),
        Syntax::Always(x, b) => if !neg {
            Formula::Always(Box::new(spec_nnf(*x, false)), spec_bound_of(b))
        } else {
            Formula::Eventually(Box::new(spec_nnf(*x, true)), spec_bound_of(b))
        },
        Syntax::Eventually(x, b) => if !neg {
            Formula::Eventually(Box::new(spec_nnf(*x, false)), spec_bound_of(b))
        } else {
            Formula::Always(Box::new(spec_nnf(*x, true)), spec_bound_of(b))
        },
    }
}

/// Negation survives only on leaves.
pub open spec fn is_nnf(f: Formula) -> bool
    decreases f,
{
    match f {
        Formula::Pure(_) => true,
        Formula::Thunk(_, _) => true,
        Formula::And(a, b) => is_nnf(*a) && is_nnf(*b),
        Formula::Or(a, b) => is_nnf(*a) && is_nnf(*b),
        Formula::Next(x) => is_nnf(*x),
        Formula::Always(x, _) => is_nnf(*x),
        Formula::Eventually(x, _) => is_nnf(*x),
    }
}

/// Normalisation yields negation normal form.
pub proof fn lemma_nnf_is_nnf(s: Syntax, neg: bool)
    ensures
        is_nnf(spec_nnf(s, neg)),
    decreases s,
{
    match s {
        Syntax::Pure(_) => {}
        Syntax::Thunk(_) => {}
        Syntax::Not(x) => {
            lemma_nnf_is_nnf(*x, !neg);
        }
        Syntax::And(a, b) => {
            lemma_nnf_is_nnf(*a, neg);
            lemma_nnf_is_nnf(*b, neg);
            lemma_nnf_is_nnf(*a, !neg);
            lemma_nnf_is_nnf(*b, !neg);
        }
        Syntax::Or(a, b) => {
            lemma_nnf_is_nnf(*a, neg);
            lemma_nnf_is_nnf(*b, neg);
            lemma_nnf_is_nnf(*a, !neg);
            lemma_nnf_is_nnf(*b, !neg);
        }
        Syntax::Implies(a, b) => {
            lemma_nnf_is_nnf(*a, neg);
            lemma_nnf_is_nnf(*b, neg);
            lemma_nnf_is_nnf(*a, !neg);
            lemma_nnf_is_nnf(*b, !neg);
        }
        Syntax::Next(x) => {
            lemma_nnf_is_nnf(*x, neg);
        }
        Syntax::Always(x, _) => {
            lemma_nnf_is_nnf(*x, false);
            lemma_nnf_is_nnf(*x, true);
        }
        Syntax::Eventually(x, _) => {
            lemma_nnf_is_nnf(*x, false);
            lemma_nnf_is_nnf(*x, true);
        }
    }
}

/// Normalises a formula, negated when `neg` holds.
pub fn nnf(s: &Syntax, neg: bool) -> (r: Formula)
    ensures
        r == spec_nnf(*s, neg),
    decreases *s,
{
    match s {
        Syntax::Pure(b) => Formula::Pure(*b != neg),
        Syntax::Thunk(id) => Formula::Thunk(*id, neg),
        Syntax::Not(x) => nnf(x, !neg),
        Syntax::And(a, b) => {
            if !neg {
                Formula::And(Box::new(nnf(a, false)), Box::new(nnf(b, false)))
            } else {
                Formula::Or(Box::new(nnf(a, true)), Box::new(nnf(b, true)))
            }
        }
        Syntax::Or(a, b) => {
            if !neg {
                Formula::Or(Box::new(nnf(a, false)), Box::new(nnf(b, false)))
            } else {
                Formula::And(Box::new(nnf(a, true)), Box::new(nnf(b, true)))
            }
        }
        Syntax::Implies(a, b) => {
            if !neg {
                Formula::Or(Box::new(nnf(a, true)), Box::new(nnf(b, false)))
            } else {
                Formula::And(Box::new(nnf(a, false)), Box::new(nnf(b, true)))
            }
        }
        Syntax::Next(x) => Formula::Next(Box::new(nnf(x, neg))),
        Syntax::Always(x, b) => {
            let bound = bound_of(b);
            if !neg {
                Formula::Always(Box::new(nnf(x, false)), bound)
            } else {
                Formula::Eventually(Box::new(nnf(x, true)), bound)
            }
        }
        Syntax::Eventually(x, b) => {
            let bound = bound_of(b);
            if !neg {
                Formula::Eventually(Box::new(nnf(x, false)), bound)
            } else {
                Formula::Always(Box::new(nnf(x, true)), bound)
            }
        }
    }
}

fn bound_of(b: &Option<u64>) -> (r: Bound)
    ensures
        r == spec_bound_of(*b),
{
    match b {
        Option::None => Bound::Unbounded,
        Option::Some(m) => Bound::Relative(*m),
    }
}

/// Why a property failed: the evidence carried with a `False` verdict.
#[derive(Debug)]
pub enum Violation {
    /// A constant-false leaf.
    Pure,
    /// Both sides of a disjunction failed.
    Both(Box<Violation>, Box<Violation>),
    /// An `Always` saw its subformula fail at the given time.
    Always { at: Time, witness: Box<Violation> },
    /// An `Eventually` ran past its deadline without turning true.
    Deadline(Time),
}

/// One step's verdict on a formula.
#[derive(Debug)]
pub enum Value {
    True,
    False(Violation),
    Residual(Formula),
}

/// A failure of evaluation itself, as opposed to of the property.
#[derive(Clone, Copy, Debug, PartialEq, Eq, Structural)]
pub enum LtlError {
    /// A thunk had no resolution in this step's table.
    UnresolvedThunk(u64),
    /// Thunk expansion recursed past the depth limit.
    ThunkDepth,
}

/// How deep thunk results may nest further thunks within one step.
pub const THUNK_DEPTH_MAX: u32 = 64;

/// The per-step thunk resolution table: what each thunk returned when
/// evaluated against the current snapshot.
pub struct ThunkEnv {
    pub entries: Vec<(u64, Syntax)>,
}

impl ThunkEnv {
    pub open spec fn view(self) -> Seq<(u64, Syntax)> {
        self.entries@
    }
}

/// The first resolution of a thunk identifier, if any.
pub open spec fn env_lookup(env: Seq<(u64, Syntax)>, id: u64) -> Option<Syntax>
    decreases env.len(),
{
    if env.len() == 0 {
        Option::None
    } else if env[0].0 == id {
        Option::Some(env[0].1)
    } else {
        env_lookup(env.drop_first(), id)
    }
}

proof fn lemma_env_lookup_step(env: Seq<(u64, Syntax)>, id: u64, i: int)
    requires
        0 <= i <= env.len(),
        forall|j: int| 0 <= j < i ==> (#[trigger] env[j]).0 != id,
    ensures
        i == env.len() ==> env_lookup(env, id) is None,
        i < env.len() && env[i].0 == id ==> env_lookup(env, id) == Option::Some(env[i].1),
    decreases env.len(),
{
    if env.len() > 0 && env[0].0 != id && i > 0 {
        lemma_env_lookup_step(env.drop_first(), id, i - 1);
        assert forall|j: int| 0 <= j < i - 1 implies (#[trigger] env.drop_first()[j]).0 != id by {
            assert(env.drop_first()[j] == env[j + 1]);
        }
        if i < env.len() {
            assert(env.drop_first()[i - 1] == env[i]);
        }
    }
}

impl ThunkEnv {
    pub fn new() -> (r: ThunkEnv)
        ensures
            r@ == Seq::<(u64, Syntax)>::empty(),
    {
        let r = ThunkEnv { entries: Vec::new() };
        proof {
            assert(r@ =~= Seq::<(u64, Syntax)>::empty());
        }
        r
    }

    /// Adds one resolution at the end of the table.
    pub fn insert(&mut self, id: u64, resolved: Syntax)
        ensures
            final(self)@ == old(self)@.push((id, resolved)),
    {
        self.entries.push((id, resolved));
    }

    /// Looks a thunk up; the first entry with the identifier wins.
    pub fn lookup(&self, id: u64) -> (r: Option<&Syntax>)
        ensures
            match r {
                Some(s) => env_lookup(self@, id) == Option::Some(*s),
                None => env_lookup(self@, id) is None,
            },
    {
        let n = self.entries.len();
        let mut i: usize = 0;
        while i < n
            invariant
                n == self.entries@.len(),
                0 <= i <= n,
                forall|j: int| 0 <= j < i ==> (#[trigger] self.entries@[j]).0 != id,
            decreases n - i,
        {
            proof {
                lemma_env_lookup_step(self@, id, i as int);
            }
            if self.entries[i].0 == id {
                return Some(&self.entries[i].1);
            }
            i = i + 1;
        }
        proof {
            lemma_env_lookup_step(self@, id, n as int);
        }
        None
    }
}

/// A bound brought to absolute form at time `t`; deadlines saturate
/// rather than overflow.
pub open spec fn spec_resolve_bound(b: Bound, t: Time) -> Bound {
    match b {
        Bound::Unbounded => Bound::Unbounded,
        Bound::Relative(m) => Bound::Deadline(
            if t + m <= u64::MAX {
                (t + m) as u64
            } else {
                u64::MAX
            },
        ),
        Bound::Deadline(d) => Bound::Deadline(d),
    }
}

/// Has the bound expired at time `t`?
pub open spec fn spec_expired(b: Bound, t: Time) -> bool {
    match b {
        Bound::Deadline(d) => t > d,
        _ => false,
    }
}

/// One evaluation step at time `t` under resolution table `env`, with
/// `fuel` bounding nested thunk expansion.
pub open spec fn spec_step(f: Formula, t: Time, env: Seq<(u64, Syntax)>, fuel: nat) -> Result<
    Value,
    LtlError,
>
    decreases fuel, f,
{
    match f {
        Formula::Pure(b) => Ok(
            if b {
                Value::True
            } else {
                Value::False(Violation::Pure)
            },
        ),
        Formula::Thunk(id, neg) => match env_lookup(env, id) {
            Option::Some(s) => if fuel == 0 {
                Err(LtlError::ThunkDepth)
            } else {
                spec_step(spec_nnf(s, neg), t, env, (fuel - 1) as nat)
            },
            Option::None => Err(LtlError::UnresolvedThunk(id)),
        },
        Formula::And(a, b) => match spec_step(*a, t, env, fuel) {
            Err(e) => Err(e),
            Ok(Value::False(w)) => Ok(Value::False(w)),
            Ok(va) => match spec_step(*b, t, env, fuel) {
                Err(e) => Err(e),
                Ok(Value::False(w)) => Ok(Value::False(w)),
                Ok(Value::True) => Ok(va),
                Ok(Value::Residual(rb)) => Ok(
                    match va {
                        Value::True => Value::Residual(rb),
                        Value::Residual(ra) => Value::Residual(
                            Formula::And(Box::new(ra), Box::new(rb)),
                        ),
                        Value::False(w) => Value::False(w),
                    },
                ),
            },
        },
        Formula::Or(a, b) => match spec_step(*a, t, env, fuel) {
            Err(e) => Err(e),
            Ok(Value::True) => Ok(Value::True),
            Ok(va) => match spec_step(*b, t, env, fuel) {
                Err(e) => Err(e),
                Ok(Value::True) => Ok(Value::True),
                Ok(Value::False(wb)) => Ok(
                    match va {
                        Value::False(wa) => Value::False(
                            Violation::Both(Box::new(wa), Box::new(wb)),
                        ),
                        Value::Residual(ra) => Value::Residual(ra),
                        Value::True => Value::True,
                    },
                ),
                Ok(Value::Residual(rb)) => Ok(
                    match va {
                        Value::False(_) => Value::Residual(rb),
                        Value::Residual(ra) => Value::Residual(
                            Formula::Or(Box::new(ra), Box::new(rb)),
                        ),
                        Value::True => Value::True,
                    },
                ),
            },
        },
        Formula::Next(x) => Ok(Value::Residual(*x)),
        Formula::Always(x, b) => {
            let rb = spec_resolve_bound(b, t);
            if spec_expired(rb, t) {
                Ok(Value::True)
            } else {
                match spec_step(*x, t, env, fuel) {
                    Err(e) => Err(e),
                    Ok(Value::False(w)) => Ok(
                        Value::False(Violation::Always { at: t, witness: Box::new(w) }),
                    ),
                    Ok(Value::True) => Ok(Value::Residual(Formula::Always(x, rb))),
                    Ok(Value::Residual(rx)) => Ok(
                        Value::Residual(
                            Formula::And(Box::new(rx), Box::new(Formula::Always(x, rb))),
                        ),
                    ),
                }
            }
        }
        Formula::Eventually(x, b) => {
            let rb = spec_resolve_bound(b, t);
            if spec_expired(rb, t) {
                Ok(Value::False(Violation::Deadline(rb->Deadline_0)))
            } else {
                match spec_step(*x, t, env, fuel) {
                    Err(e) => Err(e),
                    Ok(Value::True) => Ok(Value::True),
                    Ok(Value::False(_)) => Ok(Value::Residual(Formula::Eventually(x, rb))),
                    Ok(Value::Residual(rx)) => Ok(
                        Value::Residual(
                            Formula::Or(Box::new(rx), Box::new(Formula::Eventually(x, rb))),
                        ),
                    ),
                }
            }
        }
    }
}

/// A structural copy of a formula.
pub fn clone_formula(f: &Formula) -> (r: Formula)
    ensures
        r == *f,
    decreases *f,
{
    match f {
        Formula::Pure(b) => Formula::Pure(*b),
        Formula::Thunk(id, neg) => Formula::Thunk(*id, *neg),
        Formula::And(a, b) => Formula::And(Box::new(clone_formula(a)), Box::new(clone_formula(b))),
        Formula::Or(a, b) => Formula::Or(Box::new(clone_formula(a)), Box::new(clone_formula(b))),
        Formula::Next(x) => Formula::Next(Box::new(clone_formula(x))),
        Formula::Always(x, b) => Formula::Always(Box::new(clone_formula(x)), *b),
        Formula::Eventually(x, b) => Formula::Eventually(Box::new(clone_formula(x)), *b),
    }
}

/// A structural copy of a violation.
pub fn clone_violation(v: &Violation) -> (r: Violation)
    ensures
        r == *v,
    decreases *v,
{
    match v {
        Violation::Pure => Violation::Pure,
        Violation::Both(a, b) => Violation::Both(
            Box::new(clone_violation(a)),
            Box::new(clone_violation(b)),
        ),
        Violation::Always { at, witness } => Violation::Always {
            at: *at,
            witness: Box::new(clone_violation(witness)),
        },
        Violation::Deadline(d) => Violation::Deadline(*d),
    }
}

fn resolve_bound(b: &Bound, t: Time) -> (r: Bound)
    ensures
        r == spec_resolve_bound(*b, t),
{
    match b {
        Bound::Unbounded => Bound::Unbounded,
        Bound::Relative(m) => Bound::Deadline(t.saturating_add(*m)),
        Bound::Deadline(d) => Bound::Deadline(*d),
    }
}

/// One evaluation step of a formula, with bounded thunk expansion.
pub fn step_formula(f: &Formula, t: Time, env: &ThunkEnv, fuel: u32) -> (r: Result<
    Value,
    LtlError,
>)
    ensures
        r == spec_step(*f, t, env@, fuel as nat),
    decreases fuel, *f,
{
    match f {
        Formula::Pure(b) => {
            if *b {
                Ok(Value::True)
            } else {
                Ok(Value::False(Violation::Pure))
            }
        }
        Formula::Thunk(id, neg) => {
            match env.lookup(*id) {
                Some(s) => {
                    if fuel == 0 {
                        Err(LtlError::ThunkDepth)
                    } else {
                        let expanded = nnf(s, *neg);
                        step_formula(&expanded, t, env, fuel - 1)
                    }
                }
                None => Err(LtlError::UnresolvedThunk(*id)),
            }
        }
        Formula::And(a, b) => {
            match step_formula(a, t, env, fuel) {
                Err(e) => Err(e),
                Ok(Value::False(w)) => Ok(Value::False(w)),
                Ok(va) => match step_formula(b, t, env, fuel) {
                    Err(e) => Err(e),
                    Ok(Value::False(w)) => Ok(Value::False(w)),
                    Ok(Value::True) => Ok(va),
                    Ok(Value::Residual(rb)) => Ok(
                        match va {
                            Value::True => Value::Residual(rb),
                            Value::Residual(ra) => Value::Residual(
                                Formula::And(Box::new(ra), Box::new(rb)),
                            ),
                            Value::False(w) => Value::False(w),
                        },
                    ),
                },
            }
        }
        Formula::Or(a, b) => {
            match step_formula(a, t, env, fuel) {
                Err(e) => Err(e),
                Ok(Value::True) => Ok(Value::True),
                Ok(va) => match step_formula(b, t, env, fuel) {
                    Err(e) => Err(e),
                    Ok(Value::True) => Ok(Value::True),
                    Ok(Value::False(wb)) => Ok(
                        match va {
                            Value::False(wa) => Value::False(
                                Violation::Both(Box::new(wa), Box::new(wb)),
                            ),
                            Value::Residual(ra) => Value::Residual(ra),
                            Value::True => Value::True,
                        },
                    ),
                    Ok(Value::Residual(rb)) => Ok(
                        match va {
                            Value::False(_) => Value::Residual(rb),
                            Value::Residual(ra) => Value::Residual(
                                Formula::Or(Box::new(ra), Box::new(rb)),
                            ),
                            Value::True => Value::True,
                        },
                    ),
                },
            }
        }
        Formula::Next(x) => Ok(Value::Residual(clone_formula(x))),
        Formula::Always(x, b) => {
            let rb = resolve_bound(b, t);
            let expired = match rb {
                Bound::Deadline(d) => t > d,
                _ => false,
            };
            if expired {
                Ok(Value::True)
            } else {
                match step_formula(x, t, env, fuel) {
                    Err(e) => Err(e),
                    Ok(Value::False(w)) => Ok(
                        Value::False(Violation::Always { at: t, witness: Box::new(w) }),
                    ),
                    Ok(Value::True) => Ok(
                        Value::Residual(Formula::Always(Box::new(clone_formula(x)), rb)),
                    ),
                    Ok(Value::Residual(rx)) => Ok(
                        Value::Residual(
                            Formula::And(
                                Box::new(rx),
                                Box::new(Formula::Always(Box::new(clone_formula(x)), rb)),
                            ),
                        ),
                    ),
                }
            }
        }
        Formula::Eventually(x, b) => {
            let rb = resolve_bound(b, t);
            let expired_deadline: Option<u64> = match rb {
                Bound::Deadline(d) => {
                    if t > d {
                        Some(d)
                    } else {
                        None
                    }
                }
                _ => None,
            };
            match expired_deadline {
                Some(d) => Ok(Value::False(Violation::Deadline(d))),
                None => {
                    match step_formula(x, t, env, fuel) {
                        Err(e) => Err(e),
                        Ok(Value::True) => Ok(Value::True),
                        Ok(Value::False(_)) => Ok(
                            Value::Residual(Formula::Eventually(Box::new(clone_formula(x)), rb)),
                        ),
                        Ok(Value::Residual(rx)) => Ok(
                            Value::Residual(
                                Formula::Or(
                                    Box::new(rx),
                                    Box::new(
                                        Formula::Eventually(Box::new(clone_formula(x)), rb),
                                    ),
                                ),
                            ),
                        ),
                    }
                }
            }
        }
    }
}

/// One evaluation step at the default thunk-expansion depth.
pub fn evaluate(f: &Formula, t: Time, env: &ThunkEnv) -> (r: Result<Value, LtlError>)
    ensures
        r == spec_step(*f, t, env@, THUNK_DEPTH_MAX as nat),
{
    step_formula(f, t, env, THUNK_DEPTH_MAX)
}

} // verus!

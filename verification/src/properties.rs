//! The verifier proper: registered properties with their sticky
//! states, the per-snapshot step over all of them, and the
//! classification of a specification module's exports.

use vstd::prelude::*;

use crate::ltl::Formula;
use crate::ltl::LtlError;
use crate::ltl::Syntax;
use crate::ltl::ThunkEnv;
use crate::ltl::Time;
use crate::ltl::Value;
use crate::ltl::Violation;
use crate::ltl::THUNK_DEPTH_MAX;
use crate::ltl::clone_formula;
use crate::ltl::clone_violation;
use crate::ltl::spec_step;

verus! {

/// A loaded specification module: its transpiled source and the path
/// it came from.
pub struct Specification {
    pub contents: Vec<u8>,
    pub path: String,
}

impl Specification {
    pub fn new(contents: Vec<u8>, path: String) -> (r: Specification)
        ensures
            r.contents@ == contents@,
            r.path@ == path@,
    {
        Specification { contents, path }
    }
}

/// Where one property stands: untouched, carried forward, or decided.
/// Decided states are sticky.
pub enum PropertyState {
    Initial(Formula),
    Residual(Formula),
    DefinitelyTrue,
    DefinitelyFalse(Violation),
}

/// A registered property: a named formula and its current state.
pub struct Property {
    pub name: String,
    pub state: PropertyState,
}

/// The state a property moves to after one verdict.
pub open spec fn spec_transition(outcome: Value) -> PropertyState {
    match outcome {
        Value::True => PropertyState::DefinitelyTrue,
        Value::False(w) => PropertyState::DefinitelyFalse(w),
        Value::Residual(r) => PropertyState::Residual(r),
    }
}

/// One step of one property: pending formulas are evaluated, decided
/// states repeat their verdict.
pub open spec fn spec_property_step(
    st: PropertyState,
    t: Time,
    env: Seq<(u64, Syntax)>,
) -> Result<(Value, PropertyState), LtlError> {
    match st {
        PropertyState::Initial(f) => match spec_step(f, t, env, THUNK_DEPTH_MAX as nat) {
            Ok(v) => Ok((v, spec_transition(v))),
            Err(e) => Err(e),
        },
        PropertyState::Residual(f) => match spec_step(f, t, env, THUNK_DEPTH_MAX as nat) {
            Ok(v) => Ok((v, spec_transition(v))),
            Err(e) => Err(e),
        },
        PropertyState::DefinitelyTrue => Ok((Value::True, PropertyState::DefinitelyTrue)),
        PropertyState::DefinitelyFalse(w) => Ok(
            (Value::False(w), PropertyState::DefinitelyFalse(w)),
        ),
    }
}

/// Steps one property, updating its state per `spec_property_step`.
pub fn step_property(p: &mut Property, t: Time, env: &ThunkEnv) -> (r: Result<Value, LtlError>)
    ensures
        final(p).name == old(p).name,
        match r {
            Ok(v) => spec_property_step(old(p).state, t, env@) == Ok::<_, LtlError>(
                (v, final(p).state),
            ),
            Err(e) => spec_property_step(old(p).state, t, env@) == Err::<(Value, PropertyState), _>(
                e,
            ) && final(p).state == old(p).state,
        },
{
    let outcome: Result<Value, LtlError> = match &p.state {
        PropertyState::Initial(f) => crate::ltl::evaluate(f, t, env),
        PropertyState::Residual(f) => crate::ltl::evaluate(f, t, env),
        PropertyState::DefinitelyTrue => {
            return Ok(Value::True);
        }
        PropertyState::DefinitelyFalse(w) => {
            return Ok(Value::False(clone_violation(w)));
        }
    };
    match outcome {
        Ok(Value::True) => {
            p.state = PropertyState::DefinitelyTrue;
            Ok(Value::True)
        }
        Ok(Value::False(w)) => {
            p.state = PropertyState::DefinitelyFalse(clone_violation(&w));
            Ok(Value::False(w))
        }
        Ok(Value::Residual(r)) => {
            p.state = PropertyState::Residual(clone_formula(&r));
            Ok(Value::Residual(r))
        }
        Err(e) => Err(e),
    }
}

/// The states of a property list.
pub open spec fn states_of(ps: Seq<Property>) -> Seq<PropertyState> {
    ps.map_values(|p: Property| p.state)
}

/// One step of a whole property list: the verdicts and the new states,
/// or the first evaluation error.
pub open spec fn spec_run_step(
    states: Seq<PropertyState>,
    t: Time,
    env: Seq<(u64, Syntax)>,
) -> Result<(Seq<Value>, Seq<PropertyState>), LtlError>
    decreases states.len(),
{
    if states.len() == 0 {
        Ok((Seq::empty(), Seq::empty()))
    } else {
        match spec_property_step(states[0], t, env) {
            Err(e) => Err(e),
            Ok((v, st)) => match spec_run_step(states.drop_first(), t, env) {
                Err(e) => Err(e),
                Ok((vs, sts)) => Ok((seq![v] + vs, seq![st] + sts)),
            },
        }
    }
}

/// Steps every property from index `i` on.
fn step_properties_from(ps: &mut Vec<Property>, i: usize, t: Time, env: &ThunkEnv) -> (r: Result<
    Vec<Value>,
    LtlError,
>)
    requires
        i <= old(ps)@.len(),
    ensures
        final(ps)@.len() == old(ps)@.len(),
        forall|j: int| 0 <= j < i ==> final(ps)@[j] == old(ps)@[j],
        forall|j: int|
            0 <= j < old(ps)@.len() ==> (#[trigger] final(ps)@[j]).name == old(ps)@[j].name,
        match r {
            Ok(vs) => spec_run_step(states_of(old(ps)@.skip(i as int)), t, env@) == Ok::<
                _,
                LtlError,
            >((vs@, states_of(final(ps)@.skip(i as int)))),
            Err(e) => spec_run_step(states_of(old(ps)@.skip(i as int)), t, env@) == Err::<
                (Seq<Value>, Seq<PropertyState>),
                _,
            >(e),
        },
    decreases old(ps)@.len() - i,
{
    let ghost entry = ps@;
    if i == ps.len() {
        let r: Vec<Value> = Vec::new();
        proof {
            assert(states_of(entry.skip(i as int)) =~= Seq::<PropertyState>::empty());
            assert(r@ =~= Seq::<Value>::empty());
            assert(states_of(ps@.skip(i as int)) =~= Seq::<PropertyState>::empty());
        }
        return Ok(r);
    }
    proof {
        assert(states_of(entry.skip(i as int))[0] == entry[i as int].state);
        assert(states_of(entry.skip(i as int)).drop_first() =~= states_of(entry.skip(i + 1)));
    }
    let head = step_property(&mut ps[i], t, env);
    let ghost mid = ps@;
    match head {
        Err(e) => Err(e),
        Ok(v) => {
            let rest = step_properties_from(ps, i + 1, t, env);
            proof {
                assert(mid.skip(i + 1) =~= entry.skip(i + 1));
                assert(states_of(mid.skip(i + 1)) =~= states_of(entry.skip(i + 1)));
            }
            match rest {
                Err(e) => Err(e),
                Ok(mut vs) => {
                    let ghost rest0 = vs@;
                    vs.insert(0, v);
                    proof {
                        assert(ps@[i as int] == mid[i as int]);
                        assert(states_of(ps@.skip(i as int))[0] == ps@[i as int].state);
                        assert(states_of(ps@.skip(i as int)).drop_first() =~= states_of(
                            ps@.skip(i + 1),
                        ));
                        assert(vs@ =~= seq![v] + rest0);
                        assert(states_of(ps@.skip(i as int)) =~= seq![ps@[i as int].state]
                            + states_of(ps@.skip(i + 1)));
                    }
                    Ok(vs)
                }
            }
        }
    }
}

/// Steps every registered property against one snapshot's thunk
/// resolutions, updating the sticky states in place.
pub fn step_properties(ps: &mut Vec<Property>, t: Time, env: &ThunkEnv) -> (r: Result<
    Vec<Value>,
    LtlError,
>)
    ensures
        final(ps)@.len() == old(ps)@.len(),
        forall|j: int|
            0 <= j < old(ps)@.len() ==> (#[trigger] final(ps)@[j]).name == old(ps)@[j].name,
        match r {
            Ok(vs) => spec_run_step(states_of(old(ps)@), t, env@) == Ok::<_, LtlError>(
                (vs@, states_of(final(ps)@)),
            ),
            Err(e) => spec_run_step(states_of(old(ps)@), t, env@) == Err::<
                (Seq<Value>, Seq<PropertyState>),
                _,
            >(e),
        },
{
    proof {
        assert(old(ps)@.skip(0) =~= old(ps)@);
    }
    let r = step_properties_from(ps, 0, t, env);
    proof {
        assert(ps@.skip(0) =~= ps@);
    }
    r
}

/// The property-state trace of a run: starting states folded through a
/// stream of snapshots, each a time and a thunk-resolution table. The
/// trace ends early if evaluation itself fails.
pub open spec fn spec_run_trace(
    states: Seq<PropertyState>,
    stream: Seq<(Time, Seq<(u64, Syntax)>)>,
) -> Seq<Seq<PropertyState>>
    decreases stream.len(),
{
    if stream.len() == 0 {
        Seq::empty()
    } else {
        match spec_run_step(states, stream[0].0, stream[0].1) {
            Err(_) => Seq::empty(),
            Ok((_, sts)) => seq![sts] + spec_run_trace(sts, stream.drop_first()),
        }
    }
}

/// The verifier is deterministic: for one formula set, two equal
/// snapshot streams yield identical property-state traces. Evaluation
/// consults nothing outside its arguments.
pub proof fn lemma_verifier_deterministic(
    states: Seq<PropertyState>,
    stream1: Seq<(Time, Seq<(u64, Syntax)>)>,
    stream2: Seq<(Time, Seq<(u64, Syntax)>)>,
)
    requires
        stream1 == stream2,
    ensures
        spec_run_trace(states, stream1) == spec_run_trace(states, stream2),
{
}

/// Each generator's tree under weight one.
pub open spec fn equal_weight_branches<T>(ts: Seq<crate::tree::TreeV<T>>) -> Seq<
    (crate::tree::Weight, crate::tree::TreeV<T>),
>
    decreases ts.len(),
{
    if ts.len() == 0 {
        Seq::empty()
    } else {
        seq![(1u16, ts[0])] + equal_weight_branches(ts.drop_first())
    }
}

proof fn lemma_equal_weight_push<T>(ts: Seq<crate::tree::TreeV<T>>, x: crate::tree::TreeV<T>)
    ensures
        equal_weight_branches(ts.push(x)) == equal_weight_branches(ts).push((1u16, x)),
    decreases ts.len(),
{
    if ts.len() == 0 {
        assert(ts.push(x).drop_first() =~= Seq::<crate::tree::TreeV<T>>::empty());
        assert(equal_weight_branches(Seq::<crate::tree::TreeV<T>>::empty())
            =~= Seq::<(crate::tree::Weight, crate::tree::TreeV<T>)>::empty());
        assert(equal_weight_branches(ts.push(x)) =~= equal_weight_branches(ts).push((1u16, x)));
    } else {
        assert(ts.push(x)[0] == ts[0]);
        assert(ts.push(x).drop_first() =~= ts.drop_first().push(x));
        lemma_equal_weight_push(ts.drop_first(), x);
        assert(equal_weight_branches(ts.push(x)) =~= equal_weight_branches(ts).push((1u16, x)));
    }
}

/// Combines the action trees of all registered generators into one
/// root branch, every generator weighted equally.
pub fn combine_generator_trees<T>(trees: Vec<crate::tree::Tree<T>>) -> (r: crate::tree::Tree<T>)
    ensures
        r@ == crate::tree::TreeV::Branch(
            equal_weight_branches(trees@.map_values(|t: crate::tree::Tree<T>| t@)),
        ),
{
    let ghost all = trees@.map_values(|t: crate::tree::Tree<T>| t@);
    let mut trees = trees;
    let mut branches: Vec<(crate::tree::Weight, crate::tree::Tree<T>)> = Vec::new();
    proof {
        assert(all.take(0) =~= Seq::<crate::tree::TreeV<T>>::empty());
        assert(crate::tree::view_branches(branches@) =~= equal_weight_branches(all.take(0)));
    }
    let ghost mut consumed: int = 0;
    loop
        invariant
            0 <= consumed <= all.len(),
            trees@.len() == all.len() - consumed,
            forall|j: int| 0 <= j < trees@.len() ==> (#[trigger] trees@[j])@ == all[consumed + j],
            crate::tree::view_branches(branches@) == equal_weight_branches(all.take(consumed)),
        ensures
            trees@.len() == 0,
            crate::tree::view_branches(branches@) == equal_weight_branches(all),
        decreases trees@.len(),
    {
        if trees.len() == 0 {
            proof {
                assert(all.take(consumed) =~= all);
            }
            break;
        }
        let ghost before = crate::tree::view_branches(branches@);
        let ghost bv0 = branches@;
        let t = trees.remove(0);
        branches.push((1u16, t));
        proof {
            assert(t@ == all[consumed]);
            crate::tree::lemma_view_branches_push(bv0, (1u16, t));
            assert(crate::tree::view_branches(branches@) =~= before.push((1u16, t@)));
            assert(all.take(consumed + 1) =~= all.take(consumed).push(all[consumed]));
            lemma_equal_weight_push(all.take(consumed), all[consumed]);
            assert forall|j: int| 0 <= j < trees@.len() implies (#[trigger] trees@[j])@
                == all.index(consumed + 1 + j) by {}
        }
        proof {
            consumed = consumed + 1;
        }
    }
    crate::tree::Tree::Branch(branches)
}

/// What one export of the specification module turned out to be.
#[derive(Clone, Copy, Debug, PartialEq, Eq, Structural)]
pub enum ExportKind {
    Formula,
    ActionGenerator,
    IgnoredSymbol,
    Unknown,
}

/// A load-time error of the specification.
#[derive(Debug)]
pub enum LoadError {
    /// An export that is neither a formula, nor an action generator,
    /// nor an ignorable symbol; carries the export's name.
    UnknownExport(String),
    /// The specification exports no action generator at all.
    NoActionGenerators,
}

/// The accepted exports: property names and generator names, in order.
pub struct LoadPlan {
    pub properties: Vec<String>,
    pub generators: Vec<String>,
}

/// The index of the first unknown export, or the length.
pub open spec fn first_unknown(es: Seq<(String, ExportKind)>) -> int
    decreases es.len(),
{
    if es.len() == 0 {
        0
    } else if es[0].1 is Unknown {
        0
    } else {
        1 + first_unknown(es.drop_first())
    }
}

/// The names of the exports of one kind, in order.
pub open spec fn names_of_kind(es: Seq<(String, ExportKind)>, k: ExportKind) -> Seq<Seq<char>>
    decreases es.len(),
{
    if es.len() == 0 {
        Seq::empty()
    } else {
        (if es[0].1 == k {
            seq![es[0].0@]
        } else {
            Seq::empty()
        }) + names_of_kind(es.drop_first(), k)
    }
}

/// The views of a list of names.
pub open spec fn name_views(ns: Seq<String>) -> Seq<Seq<char>> {
    ns.map_values(|n: String| n@)
}

proof fn lemma_first_unknown(es: Seq<(String, ExportKind)>)
    ensures
        0 <= first_unknown(es) <= es.len(),
        forall|j: int| 0 <= j < first_unknown(es) ==> !((#[trigger] es[j]).1 is Unknown),
        first_unknown(es) < es.len() ==> es[first_unknown(es)].1 is Unknown,
    decreases es.len(),
{
    if es.len() > 0 && !(es[0].1 is Unknown) {
        lemma_first_unknown(es.drop_first());
        assert forall|j: int| 0 <= j < first_unknown(es) implies !((#[trigger] es[j]).1
            is Unknown) by {
            if j > 0 {
                assert(es.drop_first()[j - 1] == es[j]);
            }
        }
        if first_unknown(es) < es.len() {
            assert(es.drop_first()[first_unknown(es) - 1] == es[first_unknown(es)]);
        }
    }
}

/// Walks the specification's exports: formulas become properties,
/// action generators are registered, the string-tag symbol is ignored,
/// and anything else is a hard load error. A specification without
/// action generators is refused.
pub fn classify_exports(exports: &Vec<(String, ExportKind)>) -> (r: Result<LoadPlan, LoadError>)
    ensures
        match r {
            Ok(plan) => first_unknown(exports@) == exports@.len() && name_views(plan.properties@)
                == names_of_kind(exports@, ExportKind::Formula) && name_views(plan.generators@)
                == names_of_kind(exports@, ExportKind::ActionGenerator) && plan.generators@.len()
                > 0,
            Err(e) => match e {
                LoadError::UnknownExport(n) => first_unknown(exports@) < exports@.len() && n@
                    == exports@[first_unknown(exports@)].0@,
                LoadError::NoActionGenerators => first_unknown(exports@) == exports@.len()
                    && names_of_kind(exports@, ExportKind::ActionGenerator).len() == 0,
            },
        },
{
    proof {
        lemma_first_unknown(exports@);
    }
    let plan = classify_from(exports, 0);
    proof {
        assert(exports@.skip(0) =~= exports@);
    }
    match plan {
        Err(e) => Err(e),
        Ok(plan) => {
            if plan.generators.len() == 0 {
                Err(LoadError::NoActionGenerators)
            } else {
                Ok(plan)
            }
        }
    }
}

/// Classifies the exports from index `i` on.
fn classify_from(exports: &Vec<(String, ExportKind)>, i: usize) -> (r: Result<LoadPlan, LoadError>)
    requires
        i <= exports@.len(),
    ensures
        match r {
            Ok(plan) => first_unknown(exports@.skip(i as int)) == exports@.len() - i && name_views(
                plan.properties@,
            ) == names_of_kind(exports@.skip(i as int), ExportKind::Formula) && name_views(
                plan.generators@,
            ) == names_of_kind(exports@.skip(i as int), ExportKind::ActionGenerator),
            Err(e) => match e {
                LoadError::UnknownExport(n) => first_unknown(exports@.skip(i as int)) < exports@.len()
                    - i && n@ == exports@.skip(i as int)[first_unknown(exports@.skip(i as int))].0@,
                LoadError::NoActionGenerators => false,
            },
        },
    decreases exports@.len() - i,
{
    let ghost suffix = exports@.skip(i as int);
    if i == exports.len() {
        let r = LoadPlan { properties: Vec::new(), generators: Vec::new() };
        proof {
            assert(suffix =~= Seq::<(String, ExportKind)>::empty());
            assert(name_views(r.properties@) =~= names_of_kind(suffix, ExportKind::Formula));
            assert(name_views(r.generators@) =~= names_of_kind(
                suffix,
                ExportKind::ActionGenerator,
            ));
        }
        return Ok(r);
    }
    proof {
        assert(suffix[0] == exports@[i as int]);
        assert(suffix.drop_first() =~= exports@.skip(i + 1));
    }
    let kind = exports[i].1;
    if matches!(kind, ExportKind::Unknown) {
        let name = exports[i].0.clone();
        proof {
            assert(first_unknown(suffix) == 0);
        }
        return Err(LoadError::UnknownExport(name));
    }
    let rest = classify_from(exports, i + 1);
    match rest {
        Err(e) => {
            proof {
                assert(first_unknown(suffix) == 1 + first_unknown(suffix.drop_first()));
                lemma_first_unknown(exports@.skip(i + 1));
                let fu = first_unknown(exports@.skip(i + 1));
                if 0 <= fu < exports@.len() - i - 1 {
                    assert(suffix[1 + fu] == exports@.skip(i + 1)[fu]);
                }
            }
            Err(e)
        }
        Ok(mut plan) => {
            proof {
                assert(first_unknown(suffix) == 1 + first_unknown(suffix.drop_first()));
                assert(first_unknown(suffix) == exports@.len() - i);
            }
            match kind {
                ExportKind::Formula => {
                    let ghost before = name_views(plan.properties@);
                    plan.properties.insert(0, exports[i].0.clone());
                    proof {
                        assert(name_views(plan.properties@) =~= seq![exports@[i as int].0@]
                            + before);
                        assert(name_views(plan.generators@) =~= names_of_kind(
                            suffix,
                            ExportKind::ActionGenerator,
                        ));
                        assert(name_views(plan.properties@) =~= names_of_kind(
                            suffix,
                            ExportKind::Formula,
                        ));
                    }
                }
                ExportKind::ActionGenerator => {
                    let ghost before = name_views(plan.generators@);
                    plan.generators.insert(0, exports[i].0.clone());
                    proof {
                        assert(name_views(plan.generators@) =~= seq![exports@[i as int].0@]
                            + before);
                        assert(name_views(plan.properties@) =~= names_of_kind(
                            suffix,
                            ExportKind::Formula,
                        ));
                        assert(name_views(plan.generators@) =~= names_of_kind(
                            suffix,
                            ExportKind::ActionGenerator,
                        ));
                    }
                }
                ExportKind::IgnoredSymbol => {
                    proof {
                        assert(name_views(plan.properties@) =~= names_of_kind(
                            suffix,
                            ExportKind::Formula,
                        ));
                        assert(name_views(plan.generators@) =~= names_of_kind(
                            suffix,
                            ExportKind::ActionGenerator,
                        ));
                    }
                }
                ExportKind::Unknown => {
                    proof {
                        assert(false);
                    }
                }
            }
            Ok(plan)
        }
    }
}

} // verus!

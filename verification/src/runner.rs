//! The decision core of the main loop: per-action timeouts, the origin
//! restriction over the candidate action tree, collecting property
//! verdicts, and the choice of the next step.
//!
//! The loop around it — receiving snapshots, dispatching the chosen
//! action, broadcasting events — performs the protocol traffic and
//! hands plain values in.

use vstd::prelude::*;

use crate::actions::BrowserAction;
use crate::actions::Timeout;
use crate::ltl::Value;
use crate::ltl::Violation;
use crate::ltl::clone_violation;
use crate::properties::Property;
use crate::state::BrowserState;
use crate::tree::Tree;
use crate::tree::TreeV;
use crate::tree::Weight;
use crate::tree::branch_leaves;
use crate::tree::has_leaf;
use crate::tree::branches_height;
use crate::tree::height;
use crate::tree::leaves;
use crate::tree::lemma_branches_height_bound;
use crate::tree::lemma_prune_preserves_leaves;
use crate::tree::lemma_view_branches;
use crate::tree::pickable;
use crate::tree::prune_v;
use crate::tree::view_branches;

verus! {

/// Switches of one run.
pub struct RunnerOptions {
    pub stop_on_violation: bool,
}

/// One refuted property: its name and the evidence.
pub struct PropertyViolation {
    pub name: String,
    pub violation: Violation,
}

/// What the runner broadcasts after each ingested snapshot.
pub enum RunEvent {
    NewState {
        state: BrowserState,
        last_action: Option<BrowserAction>,
        violations: Vec<PropertyViolation>,
    },
}

/// The timeout, in milliseconds, granted to one action: navigation
/// gets two seconds, a click half a second, typed text its own typing
/// time plus a grace period, key presses and scrolls less.
pub open spec fn spec_action_timeout(a: BrowserAction) -> int {
    match a {
        BrowserAction::Back => 2000,
        BrowserAction::Forward => 2000,
        BrowserAction::Reload => 2000,
        BrowserAction::Click { .. } => 500,
        BrowserAction::TypeText { text, delay_millis } => {
            let typing = if delay_millis * text@.len() <= u64::MAX {
                delay_millis * text@.len()
            } else {
                u64::MAX as int
            };
            if typing + 100 <= u64::MAX {
                typing + 100
            } else {
                u64::MAX as int
            }
        },
        BrowserAction::PressKey { .. } => 50,
        BrowserAction::ScrollUp { .. } => 100,
        BrowserAction::ScrollDown { .. } => 100,
    }
}

/// The timeout schedule applied when dispatching an action.
pub fn action_timeout(action: &BrowserAction) -> (r: Timeout)
    ensures
        r.spec_millis() as int == spec_action_timeout(*action),
{
    match action {
        BrowserAction::Back => Timeout::from_millis(2000),
        BrowserAction::Forward => Timeout::from_millis(2000),
        BrowserAction::Reload => Timeout::from_millis(2000),
        BrowserAction::Click { .. } => Timeout::from_millis(500),
        BrowserAction::TypeText { text, delay_millis } => {
            let len = text.as_str().unicode_len() as u64;
            let typing = match delay_millis.checked_mul(len) {
                Some(x) => x,
                None => u64::MAX,
            };
            Timeout::from_millis(typing.saturating_add(100))
        }
        BrowserAction::PressKey { .. } => Timeout::from_millis(50),
        BrowserAction::ScrollUp { .. } => Timeout::from_millis(100),
        BrowserAction::ScrollDown { .. } => Timeout::from_millis(100),
    }
}

/// The action tree with every leaf that is not `Back` emptied out, so
/// that after pruning only `Back` remains choosable.
pub open spec fn restrict_to_back(t: TreeV<BrowserAction>) -> TreeV<BrowserAction>
    decreases t,
{
    match t {
        TreeV::Leaf(a) => if a is Back {
            t
        } else {
            TreeV::Branch(Seq::empty())
        },
        TreeV::Branch(bs) => TreeV::Branch(restrict_branches(bs)),
    }
}

pub open spec fn restrict_branches(bs: Seq<(Weight, TreeV<BrowserAction>)>) -> Seq<
    (Weight, TreeV<BrowserAction>),
>
    decreases bs,
{
    if bs.len() == 0 {
        Seq::empty()
    } else {
        seq![(bs[0].0, restrict_to_back(bs[0].1))] + restrict_branches(bs.drop_first())
    }
}

/// Restriction keeps exactly the `Back` leaves.
pub proof fn lemma_restrict_leaves(t: TreeV<BrowserAction>)
    ensures
        leaves(restrict_to_back(t)) == leaves(t).filter(|a: BrowserAction| a is Back),
    decreases height(t), 0nat,
{
    broadcast use vstd::seq_lib::group_filter_ensures;

    let pred = |a: BrowserAction| a is Back;
    match t {
        TreeV::Leaf(a) => {
            reveal_with_fuel(Seq::filter, 2);
            assert(seq![a].drop_last() =~= Seq::<BrowserAction>::empty());
            if a is Back {
                assert(leaves(restrict_to_back(t)) =~= leaves(t).filter(pred));
            } else {
                assert(branch_leaves(Seq::<(Weight, TreeV<BrowserAction>)>::empty())
                    =~= Seq::<BrowserAction>::empty());
                assert(leaves(restrict_to_back(t)) =~= leaves(t).filter(pred));
            }
        }
        TreeV::Branch(bs) => {
            lemma_restrict_branch_leaves(bs);
        }
    }
}

proof fn lemma_restrict_branch_leaves(bs: Seq<(Weight, TreeV<BrowserAction>)>)
    ensures
        branch_leaves(restrict_branches(bs)) == branch_leaves(bs).filter(
            |a: BrowserAction| a is Back,
        ),
    decreases branches_height(bs), bs.len() + 1nat,
{
    let pred = |a: BrowserAction| a is Back;
    if bs.len() == 0 {
        reveal_with_fuel(Seq::filter, 2);
        assert(branch_leaves(restrict_branches(bs)) =~= branch_leaves(bs).filter(pred));
    } else {
        crate::tree::lemma_branches_height_drop_first(bs);
        lemma_restrict_branch_leaves(bs.drop_first());
        lemma_branches_height_bound(bs, 0);
        lemma_restrict_leaves(bs[0].1);
        let head = (bs[0].0, restrict_to_back(bs[0].1));
        let rest = restrict_branches(bs.drop_first());
        assert((seq![head] + rest)[0] == head);
        assert((seq![head] + rest).drop_first() =~= rest);
        Seq::filter_distributes_over_add(leaves(bs[0].1), branch_leaves(bs.drop_first()), pred);
        assert(branch_leaves(restrict_branches(bs)) =~= branch_leaves(bs).filter(pred));
    }
}

/// Applies the restriction to an owned tree.
pub fn filter_back(t: Tree<BrowserAction>) -> (r: Tree<BrowserAction>)
    ensures
        r@ == restrict_to_back(t@),
    decreases height(t@), 0nat,
{
    match t {
        Tree::Leaf(a) => {
            if matches!(a, BrowserAction::Back) {
                Tree::Leaf(a)
            } else {
                let empty: Vec<(Weight, Tree<BrowserAction>)> = Vec::new();
                proof {
                    assert(view_branches(empty@) =~= Seq::<(Weight, TreeV<BrowserAction>)>::empty());
                }
                Tree::Branch(empty)
            }
        }
        Tree::Branch(bs) => {
            proof {
                lemma_view_branches(bs@);
            }
            let out = filter_back_vec(bs);
            Tree::Branch(out)
        }
    }
}

fn filter_back_vec(bs: Vec<(Weight, Tree<BrowserAction>)>) -> (r: Vec<
    (Weight, Tree<BrowserAction>),
>)
    ensures
        view_branches(r@) == restrict_branches(view_branches(bs@)),
    decreases branches_height(view_branches(bs@)), bs@.len() + 1nat,
{
    let mut bs = bs;
    if bs.len() == 0 {
        let r: Vec<(Weight, Tree<BrowserAction>)> = Vec::new();
        proof {
            assert(view_branches(r@) =~= restrict_branches(view_branches(bs@)));
        }
        return r;
    }
    let ghost entry = bs@;
    let (w, child) = bs.remove(0);
    proof {
        assert(entry.drop_first() =~= bs@);
        lemma_view_branches(entry);
        lemma_view_branches(bs@);
        assert(view_branches(entry)[0] == (w, child.view()));
        crate::tree::lemma_view_branches_drop_first(entry);
        lemma_branches_height_bound(view_branches(entry), 0);
        crate::tree::lemma_branches_height_drop_first(view_branches(entry));
    }
    let rest = filter_back_vec(bs);
    let ghost rest0 = view_branches(rest@);
    let head = filter_back(child);
    let mut out: Vec<(Weight, Tree<BrowserAction>)> = Vec::new();
    out.push((w, head));
    let mut rest = rest;
    let ghost restv = rest@;
    out.append(&mut rest);
    proof {
        assert(out@ =~= seq![(w, head)] + restv);
        assert(out@[0] == (w, head));
        assert(out@.drop_first() =~= restv);
        assert(view_branches(out@) =~= seq![(w, head.view())] + rest0);
        assert(view_branches(out@) =~= restrict_branches(view_branches(entry)));
    }
    out
}

/// Why the run ends.
#[derive(Clone, Copy, Debug, PartialEq, Eq, Structural)]
pub enum StopReason {
    /// A property was refuted and the run is set to stop on violation.
    Violation,
    /// Every property is definitely decided.
    AllDefinite,
    /// No action is left to choose from.
    NoActions,
}

/// What the runner does next.
pub enum RunnerStep {
    Stop(StopReason),
    Apply(BrowserAction, Timeout),
}

/// The refuted properties of one step: for every `False` verdict, the
/// property's name paired with the evidence, in property order.
pub open spec fn spec_violations(ps: Seq<Property>, vs: Seq<Value>) -> Seq<(Seq<char>, Violation)>
    decreases ps.len(),
{
    if ps.len() == 0 || vs.len() == 0 {
        Seq::empty()
    } else {
        (match vs[0] {
            Value::False(w) => seq![(ps[0].name@, w)],
            _ => Seq::empty(),
        }) + spec_violations(ps.drop_first(), vs.drop_first())
    }
}

/// The name/violation views of a violation list.
pub open spec fn violation_views(vs: Seq<PropertyViolation>) -> Seq<(Seq<char>, Violation)> {
    vs.map_values(|v: PropertyViolation| (v.name@, v.violation))
}

proof fn lemma_spec_violations_push(ps: Seq<Property>, vs: Seq<Value>, p: Property, v: Value)
    requires
        ps.len() == vs.len(),
    ensures
        spec_violations(ps.push(p), vs.push(v)) == spec_violations(ps, vs) + (match v {
            Value::False(w) => seq![(p.name@, w)],
            _ => Seq::empty(),
        }),
    decreases ps.len(),
{
    if ps.len() == 0 {
        assert(ps.push(p).drop_first() =~= Seq::<Property>::empty());
        assert(vs.push(v).drop_first() =~= Seq::<Value>::empty());
        assert(ps.push(p)[0] == p);
        assert(vs.push(v)[0] == v);
        assert(spec_violations(Seq::<Property>::empty(), Seq::<Value>::empty()) =~= Seq::<
            (Seq<char>, Violation),
        >::empty());
        assert(spec_violations(ps.push(p), vs.push(v)) =~= spec_violations(ps, vs) + (match v {
            Value::False(w) => seq![(p.name@, w)],
            _ => Seq::empty(),
        }));
    } else {
        assert(ps.push(p)[0] == ps[0]);
        assert(vs.push(v)[0] == vs[0]);
        assert(ps.push(p).drop_first() =~= ps.drop_first().push(p));
        assert(vs.push(v).drop_first() =~= vs.drop_first().push(v));
        lemma_spec_violations_push(ps.drop_first(), vs.drop_first(), p, v);
        assert(spec_violations(ps.push(p), vs.push(v)) =~= spec_violations(ps, vs) + (match v {
            Value::False(w) => seq![(p.name@, w)],
            _ => Seq::empty(),
        }));
    }
}

/// Collects the refuted properties of one step, pairing each `False`
/// verdict with its property's name; also reports whether every
/// property is definitely decided.
pub fn collect_violations(ps: &Vec<Property>, vs: &Vec<Value>) -> (r: (
    Vec<PropertyViolation>,
    bool,
))
    requires
        ps@.len() == vs@.len(),
    ensures
        violation_views(r.0@) == spec_violations(ps@, vs@),
        r.1 <==> (forall|i: int| 0 <= i < vs@.len() ==> !((#[trigger] vs@[i]) is Residual)),
{
    let mut violations: Vec<PropertyViolation> = Vec::new();
    let mut all_definite = true;
    let n = ps.len();
    let mut i: usize = 0;
    proof {
        assert(ps@.take(0) =~= Seq::<Property>::empty());
        assert(vs@.take(0) =~= Seq::<Value>::empty());
        assert(violation_views(violations@) =~= spec_violations(ps@.take(0), vs@.take(0)));
    }
    while i < n
        invariant
            n == ps@.len(),
            n == vs@.len(),
            0 <= i <= n,
            all_definite <==> (forall|j: int| 0 <= j < i ==> !((#[trigger] vs@[j]) is Residual)),
            violation_views(violations@) == spec_violations(ps@.take(i as int), vs@.take(i as int)),
        decreases n - i,
    {
        proof {
            assert(ps@.take(i + 1) =~= ps@.take(i as int).push(ps@[i as int]));
            assert(vs@.take(i + 1) =~= vs@.take(i as int).push(vs@[i as int]));
            lemma_spec_violations_push(
                ps@.take(i as int),
                vs@.take(i as int),
                ps@[i as int],
                vs@[i as int],
            );
        }
        let ghost before = violation_views(violations@);
        match &vs[i] {
            Value::False(w) => {
                let entry = PropertyViolation {
                    name: ps[i].name.clone(),
                    violation: clone_violation(w),
                };
                violations.push(entry);
                proof {
                    assert(violation_views(violations@) =~= before.push(
                        (ps@[i as int].name@, vs@[i as int]->False_0),
                    ));
                    assert(violation_views(violations@) =~= spec_violations(
                        ps@.take(i + 1),
                        vs@.take(i + 1),
                    ));
                }
            }
            Value::Residual(_) => {
                all_definite = false;
                proof {
                    assert(violation_views(violations@) =~= spec_violations(
                        ps@.take(i + 1),
                        vs@.take(i + 1),
                    ));
                }
            }
            Value::True => {
                proof {
                    assert(violation_views(violations@) =~= spec_violations(
                        ps@.take(i + 1),
                        vs@.take(i + 1),
                    ));
                }
            }
        }
        i = i + 1;
    }
    proof {
        assert(ps@.take(n as int) =~= ps@);
        assert(vs@.take(n as int) =~= vs@);
    }
    (violations, all_definite)
}

/// The tree the planner actually draws from: the snapshot's candidate
/// actions, restricted to `Back` when the page has left the origin.
pub open spec fn candidate_tree(actions: TreeV<BrowserAction>, within_origin: bool) -> TreeV<
    BrowserAction,
> {
    if within_origin {
        actions
    } else {
        restrict_to_back(actions)
    }
}

/// Plans the next step of the run. Stopping conditions come first: a
/// violation under stop-on-violation, then all properties decided.
/// Otherwise an action is owed exactly when the candidate tree — the
/// snapshot's actions, restricted to `Back` off the origin — prunes to
/// a tree the weighted draw is defined on; it comes with its timeout,
/// and only the choice among the remaining leaves is left to the draw.
/// When nothing is choosable the run stops for lack of actions, and
/// for no other reason.
pub fn plan_step(
    actions: Tree<BrowserAction>,
    within_origin: bool,
    has_violations: bool,
    all_definite: bool,
    stop_on_violation: bool,
    rng: &mut rand::rngs::ThreadRng,
) -> (r: RunnerStep)
    ensures
        has_violations && stop_on_violation ==> r == RunnerStep::Stop(StopReason::Violation),
        !(has_violations && stop_on_violation) && all_definite ==> r == RunnerStep::Stop(
            StopReason::AllDefinite,
        ),
        !(has_violations && stop_on_violation) && !all_definite ==> (r is Apply <==> has_leaf(
            candidate_tree(actions@, within_origin),
        ) && pickable(prune_v(candidate_tree(actions@, within_origin)))),
        !(has_violations && stop_on_violation) && !all_definite ==> (r matches RunnerStep::Stop(s)
            ==> s == StopReason::NoActions),
        r matches RunnerStep::Apply(a, to) ==> to.spec_millis() as int == spec_action_timeout(a),
        r matches RunnerStep::Apply(a, to) ==> exists|x: BrowserAction|
            leaves(candidate_tree(actions@, within_origin)).contains(x) && #[trigger] leaves_alike(
                a,
                x,
            ),
        r matches RunnerStep::Apply(a, to) ==> (!within_origin ==> a is Back),
{
    if has_violations && stop_on_violation {
        return RunnerStep::Stop(StopReason::Violation);
    }
    if all_definite {
        return RunnerStep::Stop(StopReason::AllDefinite);
    }
    let ghost candidate = candidate_tree(actions@, within_origin);
    let restricted = if within_origin {
        actions
    } else {
        filter_back(actions)
    };
    let pruned = restricted.prune();
    match pruned {
        None => RunnerStep::Stop(StopReason::NoActions),
        Some(t) => {
            let picked = t.pick(rng);
            match picked {
                None => RunnerStep::Stop(StopReason::NoActions),
                Some(a) => {
                    proof {
                        lemma_prune_preserves_leaves(candidate);
                        if !within_origin {
                            lemma_restrict_leaves(actions@);
                            let k = choose|k: int|
                                0 <= k < leaves(t@).len() && leaves(t@)[k] == *a;
                            leaves(actions@).lemma_filter_pred(
                                |x: BrowserAction| x is Back,
                                k,
                            );
                        }
                    }
                    let to = action_timeout(a);
                    let owned = clone_action(a);
                    RunnerStep::Apply(owned, to)
                }
            }
        }
    }
}

/// A copy of an action: the same variant with the same payload views.
fn clone_action(a: &BrowserAction) -> (r: BrowserAction)
    ensures
        r is Back <==> a is Back,
        spec_action_timeout(r) == spec_action_timeout(*a),
        leaves_alike(r, *a),
{
    match a {
        BrowserAction::Back => BrowserAction::Back,
        BrowserAction::Forward => BrowserAction::Forward,
        BrowserAction::Reload => BrowserAction::Reload,
        BrowserAction::Click { name, content, point } => BrowserAction::Click {
            name: name.clone(),
            content: match content {
                Some(c) => Some(c.clone()),
                None => None,
            },
            point: *point,
        },
        BrowserAction::TypeText { text, delay_millis } => BrowserAction::TypeText {
            text: text.clone(),
            delay_millis: *delay_millis,
        },
        BrowserAction::PressKey { code } => BrowserAction::PressKey { code: *code },
        BrowserAction::ScrollUp { origin, distance_bits } => BrowserAction::ScrollUp {
            origin: *origin,
            distance_bits: *distance_bits,
        },
        BrowserAction::ScrollDown { origin, distance_bits } => BrowserAction::ScrollDown {
            origin: *origin,
            distance_bits: *distance_bits,
        },
    }
}

/// Two actions of the same variant whose readable payloads agree.
pub open spec fn leaves_alike(a: BrowserAction, b: BrowserAction) -> bool {
    match (a, b) {
        (BrowserAction::Back, BrowserAction::Back) => true,
        (BrowserAction::Forward, BrowserAction::Forward) => true,
        (BrowserAction::Reload, BrowserAction::Reload) => true,
        (
            BrowserAction::Click { name: n1, content: c1, point: p1 },
            BrowserAction::Click { name: n2, content: c2, point: p2 },
        ) => n1@ == n2@ && p1 == p2 && match (c1, c2) {
            (Option::None, Option::None) => true,
            (Option::Some(x), Option::Some(y)) => x@ == y@,
            _ => false,
        },
        (
            BrowserAction::TypeText { text: t1, delay_millis: d1 },
            BrowserAction::TypeText { text: t2, delay_millis: d2 },
        ) => t1@ == t2@ && d1 == d2,
        (BrowserAction::PressKey { code: c1 }, BrowserAction::PressKey { code: c2 }) => c1 == c2,
        (
            BrowserAction::ScrollUp { origin: o1, distance_bits: d1 },
            BrowserAction::ScrollUp { origin: o2, distance_bits: d2 },
        ) => o1 == o2 && d1 == d2,
        (
            BrowserAction::ScrollDown { origin: o1, distance_bits: d1 },
            BrowserAction::ScrollDown { origin: o2, distance_bits: d2 },
        ) => o1 == o2 && d1 == d2,
        _ => false,
    }
}

} // verus!

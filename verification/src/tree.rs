//! Weighted trees of candidate actions.
//!
//! A `Tree<T>` is either a leaf carrying a value or a branch of weighted
//! subtrees. `prune` removes branches that contain no leaf; `pick` draws a
//! leaf at random, where at every branch a subtree's probability is
//! proportional to its weight.

use vstd::prelude::*;

use crate::rng::draw_below;

verus! {

pub type Weight = u16;

#[derive(PartialEq, Eq, Debug)]
pub enum Tree<T> {
    Leaf(T),
    Branch(Vec<(Weight, Tree<T>)>),
}

/// The mathematical shape of a `Tree<T>`: the same structure over `Seq`.
pub enum TreeV<T> {
    Leaf(T),
    Branch(Seq<(Weight, TreeV<T>)>),
}

impl<T> Tree<T> {
    pub open spec fn view(self) -> TreeV<T>
        decreases self,
    {
        match self {
            Tree::Leaf(x) => TreeV::Leaf(x),
            Tree::Branch(bs) => TreeV::Branch(view_branches(bs@)),
        }
    }
}

pub open spec fn view_branches<T>(bs: Seq<(Weight, Tree<T>)>) -> Seq<(Weight, TreeV<T>)>
    decreases bs,
{
    if bs.len() == 0 {
        Seq::empty()
    } else {
        seq![(bs[0].0, bs[0].1.view())] + view_branches(bs.drop_first())
    }
}

/// The height of a tree; the measure that recursion over trees decreases.
pub open spec fn height<T>(t: TreeV<T>) -> nat
    decreases t,
{
    match t {
        TreeV::Leaf(_) => 0,
        TreeV::Branch(bs) => 1 + branches_height(bs),
    }
}

pub open spec fn branches_height<T>(bs: Seq<(Weight, TreeV<T>)>) -> nat
    decreases bs,
{
    if bs.len() == 0 {
        0
    } else {
        let h0 = height(bs[0].1);
        let hr = branches_height(bs.drop_first());
        if h0 > hr {
            h0
        } else {
            hr
        }
    }
}

/// All leaf values of a tree, left to right.
pub open spec fn leaves<T>(t: TreeV<T>) -> Seq<T>
    decreases t,
{
    match t {
        TreeV::Leaf(x) => seq![x],
        TreeV::Branch(bs) => branch_leaves(bs),
    }
}

pub open spec fn branch_leaves<T>(bs: Seq<(Weight, TreeV<T>)>) -> Seq<T>
    decreases bs,
{
    if bs.len() == 0 {
        Seq::empty()
    } else {
        leaves(bs[0].1) + branch_leaves(bs.drop_first())
    }
}

pub open spec fn has_leaf<T>(t: TreeV<T>) -> bool {
    leaves(t).len() > 0
}

/// The summed weight of a branch list.
pub open spec fn total_weight<T>(bs: Seq<(Weight, TreeV<T>)>) -> int
    decreases bs,
{
    if bs.len() == 0 {
        0
    } else {
        bs[0].0 + total_weight(bs.drop_first())
    }
}

/// A tree on which `pick` is defined: every branch node that can be
/// reached by following subtrees of positive weight has a positive total
/// weight, and that total fits the weight type.
pub open spec fn pickable<T>(t: TreeV<T>) -> bool
    decreases t,
{
    match t {
        TreeV::Leaf(_) => true,
        TreeV::Branch(bs) => 0 < total_weight(bs) <= u16::MAX && branches_pickable(bs),
    }
}

pub open spec fn branches_pickable<T>(bs: Seq<(Weight, TreeV<T>)>) -> bool
    decreases bs,
{
    if bs.len() == 0 {
        true
    } else {
        (bs[0].0 > 0 ==> pickable(bs[0].1)) && branches_pickable(bs.drop_first())
    }
}

/// The tree after pruning: branch entries whose subtree holds no leaf are
/// dropped, the rest are pruned in place.
pub open spec fn prune_v<T>(t: TreeV<T>) -> TreeV<T>
    decreases t,
{
    match t {
        TreeV::Leaf(_) => t,
        TreeV::Branch(bs) => TreeV::Branch(prune_branches(bs)),
    }
}

pub open spec fn prune_branches<T>(bs: Seq<(Weight, TreeV<T>)>) -> Seq<(Weight, TreeV<T>)>
    decreases bs,
{
    if bs.len() == 0 {
        Seq::empty()
    } else {
        let rest = prune_branches(bs.drop_first());
        if has_leaf(bs[0].1) {
            seq![(bs[0].0, prune_v(bs[0].1))] + rest
        } else {
            rest
        }
    }
}

/// No branch node of the tree is empty.
pub open spec fn no_empty_branch<T>(t: TreeV<T>) -> bool
    decreases t,
{
    match t {
        TreeV::Leaf(_) => true,
        TreeV::Branch(bs) => bs.len() > 0 && branches_no_empty(bs),
    }
}

pub open spec fn branches_no_empty<T>(bs: Seq<(Weight, TreeV<T>)>) -> bool
    decreases bs,
{
    if bs.len() == 0 {
        true
    } else {
        no_empty_branch(bs[0].1) && branches_no_empty(bs.drop_first())
    }
}

/// The view of a branch list indexes and measures like the list itself.
pub proof fn lemma_view_branches<T>(bs: Seq<(Weight, Tree<T>)>)
    ensures
        view_branches(bs).len() == bs.len(),
        forall|i: int|
            0 <= i < bs.len() ==> #[trigger] view_branches(bs)[i] == (bs[i].0, bs[i].1.view()),
    decreases bs,
{
    if bs.len() > 0 {
        lemma_view_branches(bs.drop_first());
        assert forall|i: int| 0 <= i < bs.len() implies #[trigger] view_branches(bs)[i] == (
        bs[i].0,
        bs[i].1.view(),
        ) by {
            if i > 0 {
                assert(view_branches(bs)[i] == view_branches(bs.drop_first())[i - 1]);
                assert(bs.drop_first()[i - 1] == bs[i]);
            }
        }
    }
}

/// Appending one entry to a branch list appends its view.
pub proof fn lemma_view_branches_push<T>(bs: Seq<(Weight, Tree<T>)>, b: (Weight, Tree<T>))
    ensures
        view_branches(bs.push(b)) == view_branches(bs).push((b.0, b.1.view())),
    decreases bs,
{
    if bs.len() == 0 {
        assert(bs.push(b).drop_first() =~= Seq::<(Weight, Tree<T>)>::empty());
        assert(view_branches(Seq::<(Weight, Tree<T>)>::empty()) =~= Seq::<
            (Weight, TreeV<T>),
        >::empty());
        assert(bs.push(b)[0] == b);
        assert(view_branches(bs.push(b)) =~= view_branches(bs).push((b.0, b.1.view())));
    } else {
        assert(bs.push(b)[0] == bs[0]);
        assert(bs.push(b).drop_first() =~= bs.drop_first().push(b));
        lemma_view_branches_push(bs.drop_first(), b);
        assert(view_branches(bs.push(b)) =~= view_branches(bs).push((b.0, b.1.view())));
    }
}

/// A subtree stands no taller than its branch list.
pub proof fn lemma_branches_height_bound<T>(bs: Seq<(Weight, TreeV<T>)>, i: int)
    requires
        0 <= i < bs.len(),
    ensures
        height(bs[i].1) <= branches_height(bs),
    decreases bs,
{
    if i > 0 {
        lemma_branches_height_bound(bs.drop_first(), i - 1);
        assert(bs.drop_first()[i - 1] == bs[i]);
    }
}

/// The total weight of a prefix one entry longer.
proof fn lemma_total_weight_take<T>(bs: Seq<(Weight, TreeV<T>)>, i: int)
    requires
        0 <= i < bs.len(),
    ensures
        total_weight(bs.take(i + 1)) == total_weight(bs.take(i)) + bs[i].0,
    decreases i,
{
    if i == 0 {
        assert(bs.take(1) =~= seq![bs[0]]);
        assert(bs.take(1).drop_first() =~= Seq::<(Weight, TreeV<T>)>::empty());
        assert(bs.take(0) =~= Seq::<(Weight, TreeV<T>)>::empty());
    } else {
        lemma_total_weight_take(bs.drop_first(), i - 1);
        assert(bs.take(i + 1).drop_first() =~= bs.drop_first().take(i));
        assert(bs.take(i).drop_first() =~= bs.drop_first().take(i - 1));
        assert(bs.drop_first()[i - 1] == bs[i]);
    }
}

/// The total weight of the whole list is the weight of its full prefix.
proof fn lemma_total_weight_full<T>(bs: Seq<(Weight, TreeV<T>)>)
    ensures
        total_weight(bs.take(bs.len() as int)) == total_weight(bs),
{
    assert(bs.take(bs.len() as int) =~= bs);
}

/// A positively weighted entry of a pickable branch list is pickable.
pub proof fn lemma_branches_pickable_index<T>(bs: Seq<(Weight, TreeV<T>)>, i: int)
    requires
        branches_pickable(bs),
        0 <= i < bs.len(),
        bs[i].0 > 0,
    ensures
        pickable(bs[i].1),
    decreases bs,
{
    if i > 0 {
        lemma_branches_pickable_index(bs.drop_first(), i - 1);
        assert(bs.drop_first()[i - 1] == bs[i]);
    }
}

/// A leaf of a subtree is a leaf of the whole branch list.
proof fn lemma_branch_leaves_contains<T>(bs: Seq<(Weight, TreeV<T>)>, i: int, x: T)
    requires
        0 <= i < bs.len(),
        leaves(bs[i].1).contains(x),
    ensures
        branch_leaves(bs).contains(x),
    decreases bs,
{
    if i == 0 {
        let j = choose|j: int| 0 <= j < leaves(bs[0].1).len() && leaves(bs[0].1)[j] == x;
        assert(branch_leaves(bs)[j] == x);
    } else {
        lemma_branch_leaves_contains(bs.drop_first(), i - 1, x);
        assert(bs.drop_first()[i - 1] == bs[i]);
        let j = choose|j: int|
            0 <= j < branch_leaves(bs.drop_first()).len() && branch_leaves(bs.drop_first())[j]
                == x;
        assert(branch_leaves(bs)[leaves(bs[0].1).len() + j] == x);
    }
}

impl<T> Tree<T> {
    /// Draws one leaf: at every branch, a uniform draw below the total
    /// weight selects a subtree with probability proportional to its
    /// weight. Returns `Some` of a leaf of the tree exactly when the
    /// tree is pickable; in particular, a leafless tree always yields
    /// `None`.
    pub fn pick(&self, rng: &mut rand::rngs::ThreadRng) -> (r: Option<&T>)
        ensures
            r is Some <==> pickable(self@),
            r matches Some(x) ==> leaves(self@).contains(*x),
            !has_leaf(self@) ==> r is None,
    {
        if !self.is_pickable() {
            return None;
        }
        proof {
            lemma_pickable_has_leaf(self@);
        }
        Some(self.pick_weighted(rng))
    }

    /// The weighted draw itself, on a tree known to be pickable.
    fn pick_weighted(&self, rng: &mut rand::rngs::ThreadRng) -> (r: &T)
        requires
            pickable(self@),
        ensures
            leaves(self@).contains(*r),
        decreases height(self@),
    {
        match self {
            Tree::Leaf(x) => {
                assert(leaves(self@).contains(leaves(self@)[0]));
                x
            }
            Tree::Branch(branches) => {
                proof {
                    lemma_view_branches(branches@);
                }
                let ghost bv = view_branches(branches@);
                let mut weight_total: u16 = 0;
                let mut i: usize = 0;
                while i < branches.len()
                    invariant
                        0 <= i <= branches.len(),
                        pickable(self@),
                        self@ == TreeV::Branch(bv),
                        bv == view_branches(branches@),
                        bv.len() == branches@.len(),
                        weight_total as int == total_weight(bv.take(i as int)),
                        total_weight(bv.take(i as int)) <= total_weight(bv),
                    decreases branches.len() - i,
                {
                    proof {
                        lemma_view_branches(branches@);
                        lemma_total_weight_take(bv, i as int);
                        lemma_total_weight_rest_bound(bv, i as int);
                    }
                    weight_total = weight_total + branches[i].0;
                    i = i + 1;
                }
                proof {
                    lemma_total_weight_full(bv);
                }
                let target = draw_below(rng, weight_total);
                let mut current: u16 = 0;
                let mut j: usize = 0;
                while j < branches.len()
                    invariant
                        0 <= j <= branches.len(),
                        pickable(self@),
                        self@ == TreeV::Branch(bv),
                        bv == view_branches(branches@),
                        bv.len() == branches@.len(),
                        current as int == total_weight(bv.take(j as int)),
                        (target as int) >= total_weight(bv.take(j as int)),
                        (target as int) < total_weight(bv),
                    decreases branches.len() - j,
                {
                    proof {
                        lemma_view_branches(branches@);
                        lemma_total_weight_take(bv, j as int);
                        lemma_total_weight_rest_bound(bv, j as int);
                    }
                    current = current + branches[j].0;
                    if target < current {
                        proof {
                            lemma_branches_pickable_index(bv, j as int);
                            lemma_branches_height_bound(bv, j as int);
                        }
                        let r = branches[j].1.pick_weighted(rng);
                        proof {
                            lemma_branch_leaves_contains(bv, j as int, *r);
                        }
                        return r;
                    }
                    j = j + 1;
                }
                proof {
                    lemma_total_weight_full(bv);
                    assert(false);
                }
                vstd::pervasive::unreached()
            }
        }
    }
}

impl<T> Tree<T> {
    /// Removes every branch entry whose subtree holds no leaf; the whole
    /// tree collapses to `None` exactly when it holds no leaf at all.
    pub fn prune(self) -> (r: Option<Tree<T>>)
        ensures
            match r {
                Some(t) => has_leaf(self@) && t@ == prune_v(self@),
                None => !has_leaf(self@),
            },
        decreases height(self@), 0nat,
    {
        match self {
            Tree::Leaf(x) => Some(Tree::Leaf(x)),
            Tree::Branch(bs) => {
                proof {
                    lemma_view_branches(bs@);
                }
                let out = prune_vec(bs);
                proof {
                    lemma_prune_branches_len(view_branches(bs@));
                }
                if out.len() > 0 {
                    Some(Tree::Branch(out))
                } else {
                    None
                }
            }
        }
    }
}

/// Prunes each entry of a branch list, dropping entries without leaves.
fn prune_vec<T>(bs: Vec<(Weight, Tree<T>)>) -> (r: Vec<(Weight, Tree<T>)>)
    ensures
        view_branches(r@) == prune_branches(view_branches(bs@)),
    decreases branches_height(view_branches(bs@)), bs@.len() + 1nat,
{
    let mut bs = bs;
    if bs.len() == 0 {
        let r: Vec<(Weight, Tree<T>)> = Vec::new();
        return r;
    }
    let ghost entry = bs@;
    let (w, child) = bs.remove(0);
    proof {
        assert(entry.drop_first() =~= bs@);
        lemma_view_branches(entry);
        lemma_view_branches(bs@);
        assert(view_branches(entry)[0] == (w, child.view()));
        lemma_view_branches_drop_first(entry);
        lemma_branches_height_bound(view_branches(entry), 0);
        lemma_branches_height_drop_first(view_branches(entry));
    }
    let mut rest = prune_vec(bs);
    let head = child.prune();
    match head {
        Some(t) => {
            let ghost rest0 = rest@;
            let mut out: Vec<(Weight, Tree<T>)> = Vec::new();
            out.push((w, t));
            out.append(&mut rest);
            proof {
                assert(out@ =~= seq![(w, t)] + rest0);
                assert(out@[0] == (w, t));
                assert(out@.drop_first() =~= rest0);
                assert(view_branches(out@) =~= prune_branches(view_branches(entry)));
            }
            out
        }
        None => {
            proof {
                assert(view_branches(rest@) =~= prune_branches(view_branches(entry)));
            }
            rest
        }
    }
}

/// The view of a branch list minus its first entry.
pub proof fn lemma_view_branches_drop_first<T>(bs: Seq<(Weight, Tree<T>)>)
    requires
        bs.len() > 0,
    ensures
        view_branches(bs).drop_first() =~= view_branches(bs.drop_first()),
{
    assert(view_branches(bs) == seq![(bs[0].0, bs[0].1.view())] + view_branches(bs.drop_first()));
}

/// Dropping the first entry cannot raise the height of a branch list.
pub proof fn lemma_branches_height_drop_first<T>(bs: Seq<(Weight, TreeV<T>)>)
    requires
        bs.len() > 0,
    ensures
        branches_height(bs.drop_first()) <= branches_height(bs),
{
}

/// A pruned branch list is non-empty exactly when the list held a leaf.
proof fn lemma_prune_branches_len<T>(bs: Seq<(Weight, TreeV<T>)>)
    ensures
        prune_branches(bs).len() > 0 <==> branch_leaves(bs).len() > 0,
    decreases bs,
{
    if bs.len() > 0 {
        lemma_prune_branches_len(bs.drop_first());
    }
}

/// The weight of a prefix never exceeds the weight of the whole list.
proof fn lemma_total_weight_rest_bound<T>(bs: Seq<(Weight, TreeV<T>)>, i: int)
    requires
        0 <= i < bs.len(),
    ensures
        total_weight(bs.take(i + 1)) <= total_weight(bs),
    decreases bs,
{
    lemma_total_weight_take(bs, i);
    lemma_total_weight_nonneg_suffix(bs, i + 1);
}

/// Dropping a prefix leaves a total weight no larger than the whole.
pub proof fn lemma_total_weight_nonneg_suffix<T>(bs: Seq<(Weight, TreeV<T>)>, k: int)
    requires
        0 <= k <= bs.len(),
    ensures
        total_weight(bs.take(k)) <= total_weight(bs),
    decreases bs,
{
    if k > 0 && bs.len() > 0 {
        lemma_total_weight_nonneg_suffix(bs.drop_first(), k - 1);
        assert(bs.take(k).drop_first() =~= bs.drop_first().take(k - 1));
    } else {
        lemma_total_weight_nonneg(bs);
        assert(bs.take(0) =~= Seq::<(Weight, TreeV<T>)>::empty());
    }
}

/// Weights are unsigned, so every total is non-negative.
proof fn lemma_total_weight_nonneg<T>(bs: Seq<(Weight, TreeV<T>)>)
    ensures
        total_weight(bs) >= 0,
    decreases bs,
{
    if bs.len() > 0 {
        lemma_total_weight_nonneg(bs.drop_first());
    }
}

/// A pickable tree always holds a leaf: positive total weight forces a
/// positively weighted subtree, which is itself pickable.
pub proof fn lemma_pickable_has_leaf<T>(t: TreeV<T>)
    requires
        pickable(t),
    ensures
        has_leaf(t),
    decreases height(t), 0nat,
{
    match t {
        TreeV::Leaf(_) => {}
        TreeV::Branch(bs) => {
            lemma_branches_pickable_leaf(bs);
        }
    }
}

proof fn lemma_branches_pickable_leaf<T>(bs: Seq<(Weight, TreeV<T>)>)
    requires
        total_weight(bs) > 0,
        branches_pickable(bs),
    ensures
        branch_leaves(bs).len() > 0,
    decreases branches_height(bs), bs.len() + 1nat,
{
    if bs.len() > 0 {
        if bs[0].0 > 0 {
            lemma_branches_height_bound(bs, 0);
            lemma_pickable_has_leaf(bs[0].1);
        } else {
            lemma_branches_height_drop_first(bs);
            lemma_branches_pickable_leaf(bs.drop_first());
        }
    }
}

/// Positively weighted entries all pickable make the list pickable.
proof fn lemma_branches_pickable_build<T>(bs: Seq<(Weight, TreeV<T>)>)
    requires
        forall|j: int| 0 <= j < bs.len() && (#[trigger] bs[j]).0 > 0 ==> pickable(bs[j].1),
    ensures
        branches_pickable(bs),
    decreases bs,
{
    if bs.len() > 0 {
        assert forall|j: int|
            0 <= j < bs.drop_first().len() && (#[trigger] bs.drop_first()[j]).0 > 0 implies
            pickable(bs.drop_first()[j].1) by {
            assert(bs.drop_first()[j] == bs[j + 1]);
        }
        lemma_branches_pickable_build(bs.drop_first());
    }
}

impl<T> Tree<T> {
    /// Decides whether `pick` is defined on this tree: every branch
    /// reachable through positive weights must have a positive total
    /// weight that fits the weight type.
    pub fn is_pickable(&self) -> (r: bool)
        ensures
            r == pickable(self@),
        decreases height(self@), 0nat,
    {
        match self {
            Tree::Leaf(_) => true,
            Tree::Branch(branches) => {
                proof {
                    lemma_view_branches(branches@);
                }
                let ghost bv = view_branches(branches@);
                let n = branches.len();
                let mut total: u32 = 0;
                let mut i: usize = 0;
                while i < n
                    invariant
                        n == branches@.len(),
                        0 <= i <= n,
                        bv == view_branches(branches@),
                        bv.len() == n,
                        self@ == TreeV::Branch(bv),
                        total as int == total_weight(bv.take(i as int)),
                        total <= u16::MAX,
                    decreases n - i,
                {
                    proof {
                        lemma_view_branches(branches@);
                        lemma_total_weight_take(bv, i as int);
                    }
                    let w = branches[i].0;
                    if total + (w as u32) > 65535 {
                        proof {
                            lemma_total_weight_nonneg_suffix(bv, i + 1);
                            assert(total_weight(bv) > u16::MAX);
                        }
                        return false;
                    }
                    total = total + (w as u32);
                    i = i + 1;
                }
                proof {
                    lemma_total_weight_full(bv);
                }
                if total == 0 {
                    return false;
                }
                let mut j: usize = 0;
                while j < n
                    invariant
                        n == branches@.len(),
                        0 <= j <= n,
                        bv == view_branches(branches@),
                        bv.len() == n,
                        self@ == TreeV::Branch(bv),
                        0 < total_weight(bv) <= u16::MAX,
                        forall|k: int| 0 <= k < j && (#[trigger] bv[k]).0 > 0 ==> pickable(bv[k].1),
                    decreases n - j,
                {
                    proof {
                        lemma_view_branches(branches@);
                        lemma_branches_height_bound(bv, j as int);
                    }
                    if branches[j].0 > 0 {
                        if !branches[j].1.is_pickable() {
                            proof {
                                if branches_pickable(bv) {
                                    lemma_branches_pickable_index(bv, j as int);
                                }
                            }
                            return false;
                        }
                    }
                    j = j + 1;
                }
                proof {
                    lemma_branches_pickable_build(bv);
                }
                true
            }
        }
    }
}

/// Pruning keeps every leaf: only leafless branches are dropped.
pub proof fn lemma_prune_preserves_leaves<T>(t: TreeV<T>)
    ensures
        leaves(prune_v(t)) == leaves(t),
    decreases height(t), 0nat,
{
    match t {
        TreeV::Leaf(_) => {}
        TreeV::Branch(bs) => {
            lemma_prune_branches_preserves_leaves(bs);
        }
    }
}

proof fn lemma_prune_branches_preserves_leaves<T>(bs: Seq<(Weight, TreeV<T>)>)
    ensures
        branch_leaves(prune_branches(bs)) == branch_leaves(bs),
    decreases branches_height(bs), bs.len() + 1nat,
{
    if bs.len() > 0 {
        lemma_branches_height_drop_first(bs);
        lemma_prune_branches_preserves_leaves(bs.drop_first());
        lemma_branches_height_bound(bs, 0);
        lemma_prune_preserves_leaves(bs[0].1);
        let rest = prune_branches(bs.drop_first());
        if has_leaf(bs[0].1) {
            let head = (bs[0].0, prune_v(bs[0].1));
            assert((seq![head] + rest)[0] == head);
            assert((seq![head] + rest).drop_first() =~= rest);
            assert(branch_leaves(prune_branches(bs)) =~= branch_leaves(bs));
        } else {
            assert(leaves(bs[0].1) =~= Seq::<T>::empty());
            assert(branch_leaves(prune_branches(bs)) =~= branch_leaves(bs));
        }
    }
}

/// A pruned tree that still holds a leaf has no empty branch node.
pub proof fn lemma_prune_no_empty_branch<T>(t: TreeV<T>)
    requires
        has_leaf(t),
    ensures
        no_empty_branch(prune_v(t)),
    decreases height(t), 0nat,
{
    match t {
        TreeV::Leaf(_) => {}
        TreeV::Branch(bs) => {
            lemma_prune_branches_len(bs);
            lemma_prune_branches_no_empty(bs);
        }
    }
}

proof fn lemma_prune_branches_no_empty<T>(bs: Seq<(Weight, TreeV<T>)>)
    ensures
        branches_no_empty(prune_branches(bs)),
    decreases branches_height(bs), bs.len() + 1nat,
{
    if bs.len() > 0 {
        lemma_branches_height_drop_first(bs);
        lemma_prune_branches_no_empty(bs.drop_first());
        let rest = prune_branches(bs.drop_first());
        if has_leaf(bs[0].1) {
            lemma_branches_height_bound(bs, 0);
            lemma_prune_no_empty_branch(bs[0].1);
            let head = (bs[0].0, prune_v(bs[0].1));
            assert((seq![head] + rest)[0] == head);
            assert((seq![head] + rest).drop_first() =~= rest);
        }
    }
}

/// Pruning twice is pruning once.
pub proof fn lemma_prune_idempotent<T>(t: TreeV<T>)
    ensures
        prune_v(prune_v(t)) == prune_v(t),
    decreases height(t), 0nat,
{
    match t {
        TreeV::Leaf(_) => {}
        TreeV::Branch(bs) => {
            lemma_prune_branches_idempotent(bs);
        }
    }
}

proof fn lemma_prune_branches_idempotent<T>(bs: Seq<(Weight, TreeV<T>)>)
    ensures
        prune_branches(prune_branches(bs)) == prune_branches(bs),
    decreases branches_height(bs), bs.len() + 1nat,
{
    if bs.len() > 0 {
        lemma_branches_height_drop_first(bs);
        lemma_prune_branches_idempotent(bs.drop_first());
        let rest = prune_branches(bs.drop_first());
        if has_leaf(bs[0].1) {
            lemma_branches_height_bound(bs, 0);
            lemma_prune_idempotent(bs[0].1);
            lemma_prune_preserves_leaves(bs[0].1);
            let head = (bs[0].0, prune_v(bs[0].1));
            assert((seq![head] + rest)[0] == head);
            assert((seq![head] + rest).drop_first() =~= rest);
            assert(prune_branches(seq![head] + rest) =~= seq![
                ((seq![head] + rest)[0].0, prune_v((seq![head] + rest)[0].1)),
            ] + prune_branches(rest));
            assert(prune_branches(prune_branches(bs)) =~= prune_branches(bs));
        }
    }
}

} // verus!

//! The typed actions the exerciser can apply to a page, and their
//! timeouts.
//!
//! Geometric payloads — click points and scroll distances — are carried
//! as IEEE-754 bit patterns: the planning logic never interprets them,
//! only the dispatcher turns them back into coordinates.

use vstd::prelude::*;

verus! {

/// A point on the page, both coordinates as IEEE-754 bit patterns.
#[derive(Clone, Copy, Debug, PartialEq, Eq, Structural)]
pub struct Point {
    pub x_bits: u64,
    pub y_bits: u64,
}

/// One action applied to the page through the protocol.
#[derive(Clone, Debug)]
pub enum BrowserAction {
    Back,
    Forward,
    Reload,
    Click { name: String, content: Option<String>, point: Point },
    TypeText { text: String, delay_millis: u64 },
    PressKey { code: u8 },
    ScrollUp { origin: Point, distance_bits: u64 },
    ScrollDown { origin: Point, distance_bits: u64 },
}

/// A duration bound for one action, in milliseconds.
#[derive(Clone, Copy, Debug)]
pub struct Timeout {
    millis: u64,
}

impl Timeout {
    /// The bound's length in milliseconds.
    pub closed spec fn spec_millis(&self) -> u64 {
        self.millis
    }

    pub fn from_millis(millis: u64) -> (r: Self)
        ensures
            r.spec_millis() == millis,
    {
        Timeout { millis }
    }

    /// A bound given in seconds; saturates instead of overflowing.
    pub fn from_secs(secs: u64) -> (r: Self)
        ensures
            r.spec_millis() as int == if secs * 1000 <= u64::MAX {
                secs * 1000
            } else {
                u64::MAX as int
            },
    {
        match secs.checked_mul(1000) {
            Some(millis) => Timeout { millis },
            None => Timeout { millis: u64::MAX },
        }
    }

    /// The bound in milliseconds.
    pub fn millis(&self) -> (r: u64)
        ensures
            r == self.spec_millis(),
    {
        self.millis
    }

    /// Relies on `core::time::Duration::from_millis`, which std
    /// documents to build the duration of exactly that many
    /// milliseconds.
    #[verifier::external_body]
    pub fn to_duration(&self) -> core::time::Duration {
        core::time::Duration::from_millis(self.millis)
    }
}

/// The candidate tree offered when a page yields no scripted actions:
/// go back or reload, equally weighted.
pub open spec fn fallback_actions() -> crate::tree::TreeV<BrowserAction> {
    crate::tree::TreeV::Branch(
        seq![
            (1u16, crate::tree::TreeV::Leaf(BrowserAction::Back)),
            (1u16, crate::tree::TreeV::Leaf(BrowserAction::Reload)),
        ],
    )
}

/// The actions available on the current page: the page-derived action
/// trees combined under equal weights and pruned. A page that is not
/// an HTML document offers only `Back`; a page whose scripts produced
/// no candidate at all offers the fallback of `Back` or `Reload`.
/// Timeouts are assigned per action at dispatch time.
pub fn available_actions(scripted: Vec<crate::tree::Tree<BrowserAction>>, is_html: bool) -> (r:
    crate::tree::Tree<BrowserAction>)
    ensures
        !is_html ==> r@ == crate::tree::TreeV::<BrowserAction>::Leaf(BrowserAction::Back),
        is_html ==> {
            let combined = crate::tree::TreeV::Branch(
                crate::properties::equal_weight_branches(
                    scripted@.map_values(|t: crate::tree::Tree<BrowserAction>| t@),
                ),
            );
            &&& crate::tree::has_leaf(combined) ==> r@ == crate::tree::prune_v(combined)
            &&& !crate::tree::has_leaf(combined) ==> r@ == fallback_actions()
        },
{
    if !is_html {
        return crate::tree::Tree::Leaf(BrowserAction::Back);
    }
    let combined = crate::properties::combine_generator_trees(scripted);
    match combined.prune() {
        Some(t) => t,
        None => {
            let mut bs: Vec<(crate::tree::Weight, crate::tree::Tree<BrowserAction>)> = Vec::new();
            bs.push((1u16, crate::tree::Tree::Leaf(BrowserAction::Back)));
            bs.push((1u16, crate::tree::Tree::Leaf(BrowserAction::Reload)));
            proof {
                crate::tree::lemma_view_branches(bs@);
                assert(crate::tree::view_branches(bs@) =~= fallback_actions()->Branch_0);
            }
            crate::tree::Tree::Branch(bs)
        }
    }
}

} // verus!

use antithesis_browser::tree::Tree::{self, Branch, Leaf};

#[test]
fn test_prune_non_empty() {
    let actual = Branch(vec![
        (1, Leaf(1)),
        (
            2,
            Branch(vec![(2, Leaf(2)), (3, Leaf(3)), (4, Branch(vec![]))]),
        ),
        (1, Branch(vec![])),
    ])
    .prune()
    .unwrap();
    let expected = Branch(vec![
        (1, Leaf(1)),
        (2, Branch(vec![(2, Leaf(2)), (3, Leaf(3))])),
    ]);
    assert_eq!(actual, expected);
}

#[test]
fn test_prune_empty() {
    let actual = Branch::<()>(vec![]).prune();
    assert_eq!(actual, None);
}

#[test]
fn test_pick_any() {
    let tree = Branch(vec![(1, Leaf(1)), (1, Branch(vec![(2, Leaf(2)), (3, Leaf(3))]))]);
    let mut rng = rand::rng();
    if let Some(pick) = tree.pick(&mut rng) {
        assert!(*pick > 0 && *pick < 4);
    } else {
        panic!("no pick");
    }
}

#[test]
fn test_pick_single_leaf() {
    let tree: Tree<u32> = Leaf(7);
    let mut rng = rand::rng();
    assert_eq!(tree.pick(&mut rng), Some(&7));
}

#[test]
fn test_pick_skips_zero_weight() {
    // A zero-weight branch can never be chosen.
    let tree = Branch(vec![(0, Leaf(1)), (5, Leaf(2))]);
    let mut rng = rand::rng();
    for _ in 0..32 {
        assert_eq!(tree.pick(&mut rng), Some(&2));
    }
}

#[test]
fn test_pick_none_without_leaves() {
    // A tree without leaves can never yield an action.
    let mut rng = rand::rng();
    assert_eq!(Branch::<u32>(vec![]).pick(&mut rng), None);
    assert_eq!(
        Branch::<u32>(vec![(1, Branch(vec![])), (2, Branch(vec![]))]).pick(&mut rng),
        None
    );
}

#[test]
fn test_pick_none_on_zero_weights() {
    // Leaves exist, but no positive weight reaches them: the draw is
    // undefined and pick declines rather than fail.
    let mut rng = rand::rng();
    assert_eq!(Branch(vec![(0, Leaf(1))]).pick(&mut rng), None);
    assert_eq!(Branch(vec![(1, Branch(vec![(0, Leaf(2))]))]).pick(&mut rng), None);
}

#[test]
fn test_is_pickable() {
    assert!(Leaf(1).is_pickable());
    assert!(Branch(vec![(1, Leaf(1))]).is_pickable());
    assert!(!Branch::<u32>(vec![]).is_pickable());
    assert!(!Branch(vec![(0, Leaf(1))]).is_pickable());
    // A positively weighted empty branch cannot be picked through.
    assert!(!Branch::<u32>(vec![(1, Branch(vec![]))]).is_pickable());
    // But a zero-weight empty branch next to a leaf is fine.
    assert!(Branch(vec![(0, Branch(vec![])), (1, Leaf(1))]).is_pickable());
}

#[test]
fn test_prune_keeps_leaves_in_order() {
    let actual = Branch(vec![
        (1, Branch(vec![])),
        (2, Leaf("a")),
        (3, Branch(vec![(1, Leaf("b")), (1, Branch(vec![]))])),
        (4, Leaf("c")),
    ])
    .prune()
    .unwrap();
    let expected = Branch(vec![
        (2, Leaf("a")),
        (3, Branch(vec![(1, Leaf("b"))])),
        (4, Leaf("c")),
    ]);
    assert_eq!(actual, expected);
}

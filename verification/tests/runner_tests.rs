use antithesis_browser::actions::{available_actions, BrowserAction, Point};
use antithesis_browser::ltl::{Value, Violation};
use antithesis_browser::properties::{Property, PropertyState};
use antithesis_browser::runner::{
    action_timeout, collect_violations, plan_step, RunnerStep, StopReason,
};
use antithesis_browser::tree::Tree::{Branch, Leaf};

fn click() -> BrowserAction {
    BrowserAction::Click {
        name: "button".to_string(),
        content: None,
        point: Point {
            x_bits: 10f64.to_bits(),
            y_bits: 20f64.to_bits(),
        },
    }
}

#[test]
fn action_timeouts_follow_the_schedule() {
    assert_eq!(action_timeout(&BrowserAction::Back).millis(), 2000);
    assert_eq!(action_timeout(&BrowserAction::Forward).millis(), 2000);
    assert_eq!(action_timeout(&BrowserAction::Reload).millis(), 2000);
    assert_eq!(action_timeout(&click()).millis(), 500);
    assert_eq!(action_timeout(&BrowserAction::PressKey { code: 13 }).millis(), 50);
    assert_eq!(
        action_timeout(&BrowserAction::ScrollUp {
            origin: Point { x_bits: 0, y_bits: 0 },
            distance_bits: 100f64.to_bits(),
        })
        .millis(),
        100
    );
}

#[test]
fn type_text_timeout_covers_typing_time() {
    let action = BrowserAction::TypeText {
        text: "hello".to_string(),
        delay_millis: 43,
    };
    // 43 ms per code point over five code points, plus the grace period.
    assert_eq!(action_timeout(&action).millis(), 43 * 5 + 100);
}

#[test]
fn type_text_timeout_saturates() {
    let action = BrowserAction::TypeText {
        text: "aa".to_string(),
        delay_millis: u64::MAX,
    };
    assert_eq!(action_timeout(&action).millis(), u64::MAX);
}

#[test]
fn plan_step_stops_on_violation_when_asked() {
    let mut rng = rand::rng();
    let r = plan_step(Leaf(BrowserAction::Back), true, true, false, true, &mut rng);
    assert!(matches!(r, RunnerStep::Stop(StopReason::Violation)));
}

#[test]
fn plan_step_continues_past_violation_when_not_asked() {
    let mut rng = rand::rng();
    let r = plan_step(Leaf(BrowserAction::Back), true, true, false, false, &mut rng);
    assert!(matches!(r, RunnerStep::Apply(BrowserAction::Back, _)));
}

#[test]
fn plan_step_stops_when_all_definite() {
    let mut rng = rand::rng();
    let r = plan_step(Leaf(BrowserAction::Back), true, false, true, false, &mut rng);
    assert!(matches!(r, RunnerStep::Stop(StopReason::AllDefinite)));
}

#[test]
fn plan_step_outside_origin_only_goes_back() {
    // Whatever the weights, off-origin steps may only navigate back.
    let mut rng = rand::rng();
    for _ in 0..16 {
        let tree = Branch(vec![
            (10, Leaf(click())),
            (1, Leaf(BrowserAction::Back)),
            (10, Leaf(BrowserAction::Reload)),
        ]);
        match plan_step(tree, false, false, false, false, &mut rng) {
            RunnerStep::Apply(a, to) => {
                assert!(matches!(a, BrowserAction::Back));
                assert_eq!(to.millis(), 2000);
            }
            _ => panic!("expected an action"),
        }
    }
}

#[test]
fn plan_step_stops_without_actions() {
    let mut rng = rand::rng();
    let tree = Branch(vec![(1, Leaf(click()))]);
    // Off origin with no Back leaf, nothing remains.
    match plan_step(tree, false, false, false, false, &mut rng) {
        RunnerStep::Stop(StopReason::NoActions) => {}
        _ => panic!("expected to stop for lack of actions"),
    }
}

#[test]
fn available_actions_non_html_offers_back_only() {
    let scripted = vec![Branch(vec![(3, Leaf(click()))])];
    let tree = available_actions(scripted, false);
    assert!(matches!(tree, Leaf(BrowserAction::Back)));
}

#[test]
fn available_actions_keeps_scripted_candidates() {
    let scripted = vec![
        Branch(vec![(3, Leaf(click()))]),
        Branch(vec![]),
    ];
    let tree = available_actions(scripted, true);
    // The empty script result is pruned away; the click survives under
    // its generator's equal weight.
    assert_eq!(
        format!("{tree:?}"),
        format!("{:?}", Branch(vec![(1, Branch(vec![(3, Leaf(click()))]))]))
    );
}

#[test]
fn available_actions_falls_back_without_candidates() {
    let tree = available_actions(vec![Branch(vec![]), Branch(vec![])], true);
    match tree {
        Branch(bs) => {
            assert_eq!(bs.len(), 2);
            assert!(matches!(bs[0], (1, Leaf(BrowserAction::Back))));
            assert!(matches!(bs[1], (1, Leaf(BrowserAction::Reload))));
        }
        _ => panic!("expected the fallback branch"),
    }
}

#[test]
fn collect_violations_pairs_names_with_false_verdicts() {
    let ps = vec![
        Property {
            name: "a".to_string(),
            state: PropertyState::DefinitelyTrue,
        },
        Property {
            name: "b".to_string(),
            state: PropertyState::DefinitelyFalse(Violation::Pure),
        },
    ];
    let vs = vec![Value::True, Value::False(Violation::Pure)];
    let (violations, all_definite) = collect_violations(&ps, &vs);
    assert!(all_definite);
    assert_eq!(violations.len(), 1);
    assert_eq!(violations[0].name, "b");
}

#[test]
fn collect_violations_sees_residuals() {
    let ps = vec![Property {
        name: "a".to_string(),
        state: PropertyState::DefinitelyTrue,
    }];
    let vs = vec![Value::Residual(antithesis_browser::ltl::Formula::Pure(true))];
    let (violations, all_definite) = collect_violations(&ps, &vs);
    assert!(!all_definite);
    assert!(violations.is_empty());
}

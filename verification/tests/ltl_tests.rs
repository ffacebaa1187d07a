use antithesis_browser::ltl::{
    evaluate, nnf, Bound, Formula, LtlError, Syntax, ThunkEnv, Value, Violation,
};

fn env_with(id: u64, s: Syntax) -> ThunkEnv {
    let mut env = ThunkEnv::new();
    env.insert(id, s);
    env
}

fn assert_residual(v: &Value) {
    assert!(matches!(v, Value::Residual(_)), "expected a residual");
}

#[test]
fn pure_true_and_false() {
    let env = ThunkEnv::new();
    assert!(matches!(
        evaluate(&Formula::Pure(true), 0, &env).unwrap(),
        Value::True
    ));
    assert!(matches!(
        evaluate(&Formula::Pure(false), 0, &env).unwrap(),
        Value::False(Violation::Pure)
    ));
}

#[test]
fn nnf_pushes_negation_to_leaves() {
    // not (a and next b) becomes (not a) or next (not b)
    let s = Syntax::Not(Box::new(Syntax::And(
        Box::new(Syntax::Thunk(1)),
        Box::new(Syntax::Next(Box::new(Syntax::Thunk(2)))),
    )));
    let f = nnf(&s, false);
    match f {
        Formula::Or(a, b) => {
            assert!(matches!(*a, Formula::Thunk(1, true)));
            match *b {
                Formula::Next(x) => assert!(matches!(*x, Formula::Thunk(2, true))),
                _ => panic!("expected Next"),
            }
        }
        _ => panic!("expected Or"),
    }
}

#[test]
fn nnf_dualises_temporal_operators() {
    let s = Syntax::Not(Box::new(Syntax::Always(
        Box::new(Syntax::Thunk(1)),
        Some(5),
    )));
    match nnf(&s, false) {
        Formula::Eventually(x, Bound::Relative(5)) => {
            assert!(matches!(*x, Formula::Thunk(1, true)))
        }
        _ => panic!("expected Eventually with the bound kept"),
    }
}

#[test]
fn thunk_negation_context_applies() {
    // A negated thunk resolving to `true` is false.
    let f = Formula::Thunk(0, true);
    let env = env_with(0, Syntax::Pure(true));
    assert!(matches!(evaluate(&f, 0, &env).unwrap(), Value::False(_)));
}

#[test]
fn unresolved_thunk_is_an_error() {
    let f = Formula::Thunk(9, false);
    let env = ThunkEnv::new();
    assert_eq!(
        evaluate(&f, 0, &env).unwrap_err(),
        LtlError::UnresolvedThunk(9)
    );
}

#[test]
fn thunk_expansion_depth_is_bounded() {
    // A thunk resolving to itself can never bottom out.
    let f = Formula::Thunk(0, false);
    let env = env_with(0, Syntax::Thunk(0));
    assert_eq!(evaluate(&f, 0, &env).unwrap_err(), LtlError::ThunkDepth);
}

#[test]
fn and_short_circuits_on_false() {
    // The right side is an unresolved thunk; a false left side must
    // fail the conjunction without evaluating it.
    let f = Formula::And(
        Box::new(Formula::Pure(false)),
        Box::new(Formula::Thunk(9, false)),
    );
    let env = ThunkEnv::new();
    assert!(matches!(evaluate(&f, 0, &env).unwrap(), Value::False(_)));
}

#[test]
fn or_collects_both_witnesses() {
    let f = Formula::Or(
        Box::new(Formula::Pure(false)),
        Box::new(Formula::Pure(false)),
    );
    let env = ThunkEnv::new();
    match evaluate(&f, 0, &env).unwrap() {
        Value::False(Violation::Both(_, _)) => {}
        _ => panic!("expected both witnesses"),
    }
}

#[test]
fn next_defers_to_the_following_step() {
    let f = Formula::Next(Box::new(Formula::Pure(false)));
    let env = ThunkEnv::new();
    match evaluate(&f, 0, &env).unwrap() {
        Value::Residual(r) => {
            assert!(matches!(evaluate(&r, 1, &env).unwrap(), Value::False(_)))
        }
        _ => panic!("expected residual"),
    }
}

#[test]
fn always_unbounded_fails_at_the_counterexample() {
    // always(foo < 100) with foo taking 0, 1, ..., 100: the first 100
    // steps stay residual, the step that sees 100 refutes it.
    let mut state = Formula::Always(Box::new(Formula::Thunk(0, false)), Bound::Unbounded);
    for foo in 0..=100u64 {
        let env = env_with(0, Syntax::Pure(foo < 100));
        let v = evaluate(&state, 0, &env).unwrap();
        if foo == 100 {
            match v {
                Value::False(Violation::Always { .. }) => {}
                _ => panic!("expected an Always violation at 100"),
            }
            return;
        }
        match v {
            Value::Residual(r) => state = r,
            _ => panic!("expected residual at {foo}"),
        }
    }
}

#[test]
fn always_bounded_turns_true_past_its_deadline() {
    // always(foo < 4) within 3 milliseconds at t = 0, 1, ...: residual
    // while the bound runs, true once it has passed unviolated.
    let mut state = Formula::Always(Box::new(Formula::Thunk(0, false)), Bound::Relative(3));
    for t in 0..10u64 {
        let env = env_with(0, Syntax::Pure(t < 4));
        let v = evaluate(&state, t, &env).unwrap();
        if t < 4 {
            match v {
                Value::Residual(r) => state = r,
                _ => panic!("expected residual at {t}"),
            }
        } else {
            assert!(matches!(v, Value::True), "expected true at {t}");
            return;
        }
    }
}

#[test]
fn eventually_unbounded_turns_true_on_hit() {
    // eventually(foo == 9) with foo = 0, 1, ...
    let mut state = Formula::Eventually(Box::new(Formula::Thunk(0, false)), Bound::Unbounded);
    for foo in 0..10u64 {
        let env = env_with(0, Syntax::Pure(foo == 9));
        let v = evaluate(&state, foo, &env).unwrap();
        if foo == 9 {
            assert!(matches!(v, Value::True));
            return;
        }
        match v {
            Value::Residual(r) => state = r,
            _ => panic!("expected residual at {foo}"),
        }
    }
}

#[test]
fn eventually_bounded_fails_past_its_deadline() {
    // eventually(foo == 9) within 3 milliseconds with foo = 0, 1, ...
    // at t = 0, 1, ...: residual for t < 4, then false.
    let mut state = Formula::Eventually(Box::new(Formula::Thunk(0, false)), Bound::Relative(3));
    for t in 0..10u64 {
        let env = env_with(0, Syntax::Pure(t == 9));
        let v = evaluate(&state, t, &env).unwrap();
        if t < 4 {
            match v {
                Value::Residual(r) => state = r,
                _ => panic!("expected residual at {t}"),
            }
        } else {
            match v {
                Value::False(Violation::Deadline(3)) => {}
                _ => panic!("expected a deadline violation at {t}"),
            }
            return;
        }
    }
}

#[test]
fn implies_false_premise_holds() {
    let s = Syntax::Implies(Box::new(Syntax::Pure(false)), Box::new(Syntax::Pure(false)));
    let f = nnf(&s, false);
    let env = ThunkEnv::new();
    assert!(matches!(evaluate(&f, 0, &env).unwrap(), Value::True));
}

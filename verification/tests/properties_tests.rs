use antithesis_browser::ltl::{Bound, Formula, Syntax, ThunkEnv, Value, Violation};
use antithesis_browser::properties::{
    classify_exports, combine_generator_trees, step_properties, ExportKind, LoadError, Property,
    PropertyState, Specification,
};
use antithesis_browser::tree::Tree;

#[test]
fn classify_accepts_formulas_and_generators() {
    let exports = vec![
        ("clicks".to_string(), ExportKind::ActionGenerator),
        ("no_errors".to_string(), ExportKind::Formula),
        ("tag".to_string(), ExportKind::IgnoredSymbol),
        ("inputs".to_string(), ExportKind::ActionGenerator),
    ];
    let plan = classify_exports(&exports).unwrap();
    assert_eq!(plan.properties, vec!["no_errors".to_string()]);
    assert_eq!(plan.generators, vec!["clicks".to_string(), "inputs".to_string()]);
}

#[test]
fn classify_rejects_unknown_exports() {
    let exports = vec![
        ("gen".to_string(), ExportKind::ActionGenerator),
        ("mystery".to_string(), ExportKind::Unknown),
    ];
    match classify_exports(&exports) {
        Err(LoadError::UnknownExport(name)) => assert_eq!(name, "mystery"),
        _ => panic!("expected an unknown-export error"),
    }
}

#[test]
fn classify_requires_a_generator() {
    let exports = vec![("p".to_string(), ExportKind::Formula)];
    match classify_exports(&exports) {
        Err(LoadError::NoActionGenerators) => {}
        _ => panic!("expected a no-generators error"),
    }
}

#[test]
fn step_decides_and_sticks() {
    let mut ps = vec![
        Property {
            name: "holds".to_string(),
            state: PropertyState::Initial(Formula::Pure(true)),
        },
        Property {
            name: "fails".to_string(),
            state: PropertyState::Initial(Formula::Pure(false)),
        },
    ];
    let env = ThunkEnv::new();
    let vs = step_properties(&mut ps, 0, &env).unwrap();
    assert!(matches!(vs[0], Value::True));
    assert!(matches!(vs[1], Value::False(_)));
    assert!(matches!(ps[0].state, PropertyState::DefinitelyTrue));
    assert!(matches!(ps[1].state, PropertyState::DefinitelyFalse(_)));

    // Decided states are sticky: later snapshots repeat the verdict.
    let vs2 = step_properties(&mut ps, 1, &env).unwrap();
    assert!(matches!(vs2[0], Value::True));
    assert!(matches!(vs2[1], Value::False(Violation::Pure)));
}

#[test]
fn step_carries_residuals_forward() {
    let mut ps = vec![Property {
        name: "later".to_string(),
        state: PropertyState::Initial(Formula::Eventually(
            Box::new(Formula::Thunk(0, false)),
            Bound::Unbounded,
        )),
    }];
    let mut env = ThunkEnv::new();
    env.insert(0, Syntax::Pure(false));
    let vs = step_properties(&mut ps, 0, &env).unwrap();
    assert!(matches!(vs[0], Value::Residual(_)));
    assert!(matches!(ps[0].state, PropertyState::Residual(_)));

    let mut env2 = ThunkEnv::new();
    env2.insert(0, Syntax::Pure(true));
    let vs2 = step_properties(&mut ps, 1, &env2).unwrap();
    assert!(matches!(vs2[0], Value::True));
    assert!(matches!(ps[0].state, PropertyState::DefinitelyTrue));
}

#[test]
fn combine_weights_generators_equally() {
    let combined = combine_generator_trees(vec![Tree::Leaf(1u32), Tree::Leaf(2), Tree::Leaf(3)]);
    assert_eq!(
        combined,
        Tree::Branch(vec![
            (1, Tree::Leaf(1)),
            (1, Tree::Leaf(2)),
            (1, Tree::Leaf(3)),
        ])
    );
}

#[test]
fn specification_keeps_contents_and_path() {
    let s = Specification::new(b"export {};".to_vec(), "spec.ts".to_string());
    assert_eq!(s.contents, b"export {};".to_vec());
    assert_eq!(s.path, "spec.ts");
}

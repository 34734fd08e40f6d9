use rec_ops::engine::{derive_atom_ops, derive_component_ops, element_ops, generate};
use rec_ops::model::{
    make_binding, mirror_binding, register, registration_category, semantic_call, Binding,
    Category, GenError, Operator, Registration, ResultCategory, SemanticOp, Side,
};

fn bind(op: Operator, left: Side, right: Side, result: ResultCategory) -> Binding {
    make_binding(op, left, right, result)
}

#[test]
fn scenario_component_then_atom() {
    // A component registers first, an atom second.
    let regs = vec![register(0, Category::Component), register(1, Category::Atom)];
    let out = generate(&regs).unwrap();
    let seq_side = Side::Registered(0);
    let lit_side = Side::Registered(1);

    // The component gains the element operators against the atom, the three
    // primitives, and Rec; each primitive partner also appears reversed.
    for op in [Operator::Concatenate, Operator::Alternate] {
        assert!(out.contains(&bind(op, seq_side, lit_side, ResultCategory::Rec)));
        for prim in [Side::Char, Side::StrView, Side::OwnedStr] {
            assert!(out.contains(&bind(op, seq_side, prim, ResultCategory::Rec)));
            assert!(out.contains(&bind(op, prim, seq_side, ResultCategory::Rec)));
        }
        assert!(out.contains(&bind(op, seq_side, Side::Rec, ResultCategory::Rec)));
    }
    assert!(out.contains(&bind(Operator::EqualityTest, seq_side, lit_side, ResultCategory::Truth)));
    assert!(out.contains(&bind(Operator::EqualityTest, lit_side, seq_side, ResultCategory::Truth)));

    // No union binding involves the component anywhere.
    for b in out.iter() {
        if matches!(b.op, Operator::Union) {
            assert!(b.left != seq_side && b.right != seq_side);
            assert!(matches!(b.result, ResultCategory::Ch));
        }
    }

    // The atom gains union against char in both orders, with result Ch...
    assert!(out.contains(&bind(Operator::Union, lit_side, Side::Char, ResultCategory::Ch)));
    assert!(out.contains(&bind(Operator::Union, Side::Char, lit_side, ResultCategory::Ch)));
    // ...and explicit alternation against Rec and the string stand-ins.
    assert!(out.contains(&bind(Operator::Alternate, lit_side, Side::Rec, ResultCategory::Rec)));
    assert!(out.contains(&bind(Operator::Alternate, lit_side, Side::StrView, ResultCategory::Rec)));
    assert!(out.contains(&bind(Operator::Alternate, lit_side, Side::OwnedStr, ResultCategory::Rec)));
    // But no union against the string stand-ins or Rec.
    assert!(!out.contains(&bind(Operator::Union, lit_side, Side::StrView, ResultCategory::Ch)));
    assert!(!out.contains(&bind(Operator::Union, lit_side, Side::OwnedStr, ResultCategory::Ch)));
    assert!(!out.contains(&bind(Operator::Union, lit_side, Side::Rec, ResultCategory::Ch)));

    // 24 bindings for the component pass, 26 for the atom pass.
    assert_eq!(out.len(), 50);
}

#[test]
fn no_foreign_foreign_binding() {
    let regs = vec![register(3, Category::Atom), register(4, Category::Component)];
    let out = generate(&regs).unwrap();
    for b in out.iter() {
        let left_registered = matches!(b.left, Side::Registered(_));
        let right_registered = matches!(b.right, Side::Registered(_));
        assert!(left_registered || right_registered);
    }
}

#[test]
fn equality_bindings_are_symmetric() {
    let regs = vec![
        register(1, Category::Atom),
        register(2, Category::Component),
        register(3, Category::Atom),
    ];
    let out = generate(&regs).unwrap();
    for b in out.iter() {
        if matches!(b.op, Operator::EqualityTest) && !matches!(b.right, Side::Rec) {
            let reversed = bind(Operator::EqualityTest, b.right, b.left, ResultCategory::Truth);
            assert!(out.contains(&reversed));
        }
    }
}

#[test]
fn two_atoms_get_union_both_orders() {
    let regs = vec![register(10, Category::Atom), register(20, Category::Atom)];
    let out = generate(&regs).unwrap();
    let a = Side::Registered(10);
    let b = Side::Registered(20);
    assert!(out.contains(&bind(Operator::Union, a, b, ResultCategory::Ch)));
    assert!(out.contains(&bind(Operator::Union, b, a, ResultCategory::Ch)));
    assert!(out.contains(&bind(Operator::Concatenate, a, b, ResultCategory::Rec)));
    assert!(out.contains(&bind(Operator::Concatenate, b, a, ResultCategory::Rec)));
    // No self-union is enumerated.
    assert!(!out.contains(&bind(Operator::Union, a, a, ResultCategory::Ch)));
}

#[test]
fn rerunning_generation_is_identical() {
    let regs = vec![
        register(5, Category::Component),
        register(6, Category::Atom),
        register(7, Category::Component),
    ];
    let first = generate(&regs).unwrap();
    let second = generate(&regs).unwrap();
    assert_eq!(first, second);
}

#[test]
fn lone_component_pass_size_and_order() {
    let regs = vec![register(9, Category::Component)];
    let out = derive_component_ops(&regs, 0);
    let t = Side::Registered(9);
    // Partners in order: char, &str view, owned string (each with mirrored
    // forms), then Rec (direct only): 6 + 6 + 6 + 3 bindings.
    assert_eq!(out.len(), 21);
    assert_eq!(out[0], bind(Operator::Concatenate, t, Side::Char, ResultCategory::Rec));
    assert_eq!(out[1], bind(Operator::Alternate, t, Side::Char, ResultCategory::Rec));
    assert_eq!(out[2], bind(Operator::EqualityTest, t, Side::Char, ResultCategory::Truth));
    assert_eq!(out[3], bind(Operator::Concatenate, Side::Char, t, ResultCategory::Rec));
    assert_eq!(out[4], bind(Operator::Alternate, Side::Char, t, ResultCategory::Rec));
    assert_eq!(out[5], bind(Operator::EqualityTest, Side::Char, t, ResultCategory::Truth));
    assert_eq!(out[18], bind(Operator::Concatenate, t, Side::Rec, ResultCategory::Rec));
    assert_eq!(out[20], bind(Operator::EqualityTest, t, Side::Rec, ResultCategory::Truth));
}

#[test]
fn lone_atom_pass_appends_union_section() {
    let regs = vec![register(9, Category::Atom)];
    let out = derive_atom_ops(&regs, 0);
    let t = Side::Registered(9);
    assert_eq!(out.len(), 23);
    assert_eq!(out[21], bind(Operator::Union, t, Side::Char, ResultCategory::Ch));
    assert_eq!(out[22], bind(Operator::Union, Side::Char, t, ResultCategory::Ch));
    // The element section is shared with the component pass.
    let shared = element_ops(&regs, 0);
    assert_eq!(&out[..21], &shared[..]);
}

#[test]
fn semantic_calls_follow_operators() {
    assert_eq!(semantic_call(Operator::Concatenate), SemanticOp::Concatenate);
    assert_eq!(semantic_call(Operator::Alternate), SemanticOp::Alternate);
    assert_eq!(semantic_call(Operator::Union), SemanticOp::Union);
    assert_eq!(semantic_call(Operator::EqualityTest), SemanticOp::IsEqual);
    let b = bind(Operator::EqualityTest, Side::Char, Side::Registered(1), ResultCategory::Truth);
    assert_eq!(b.call, SemanticOp::IsEqual);
}

#[test]
fn mirroring_swaps_sides_and_keeps_the_call() {
    let b = bind(Operator::Alternate, Side::Registered(2), Side::StrView, ResultCategory::Rec);
    let m = mirror_binding(&b);
    assert_eq!(m.left, Side::StrView);
    assert_eq!(m.right, Side::Registered(2));
    assert_eq!(m.op, Operator::Alternate);
    assert_eq!(m.result, ResultCategory::Rec);
    assert_eq!(m.call, SemanticOp::Alternate);
}

#[test]
fn registration_without_category_is_fatal() {
    let regs = vec![Registration { id: 0, claims_atom: false, claims_component: false }];
    assert_eq!(generate(&regs), Err(GenError::MalformedRegistration(0)));
}

#[test]
fn registration_with_both_categories_is_fatal() {
    let regs = vec![
        register(0, Category::Atom),
        Registration { id: 1, claims_atom: true, claims_component: true },
    ];
    assert_eq!(generate(&regs), Err(GenError::MalformedRegistration(1)));
}

#[test]
fn repeated_identifier_is_a_binding_collision() {
    let regs = vec![
        register(7, Category::Atom),
        register(8, Category::Component),
        register(7, Category::Component),
    ];
    assert_eq!(generate(&regs), Err(GenError::BindingCollision(7)));
}

#[test]
fn empty_registration_sequence_generates_nothing() {
    let regs: Vec<Registration> = Vec::new();
    let out = generate(&regs).unwrap();
    assert!(out.is_empty());
}

#[test]
fn register_claims_exactly_one_category() {
    let a = register(1, Category::Atom);
    assert!(a.claims_atom && !a.claims_component);
    assert_eq!(registration_category(&a), Category::Atom);
    let c = register(2, Category::Component);
    assert!(!c.claims_atom && c.claims_component);
    assert_eq!(registration_category(&c), Category::Component);
}

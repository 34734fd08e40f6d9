use rec_ops::model::{register, Category, Operator, ResultCategory, Side};
use rec_ops::table::{find_registration, is_atom, is_element, promote, SideCategory};

#[test]
fn promotion_table_rows() {
    // Concatenation and alternation take any two elements to Rec.
    assert_eq!(
        promote(Operator::Concatenate, SideCategory::AtomCat, SideCategory::ComponentCat),
        Some(ResultCategory::Rec)
    );
    assert_eq!(
        promote(Operator::Concatenate, SideCategory::RecCat, SideCategory::StrViewCat),
        Some(ResultCategory::Rec)
    );
    assert_eq!(
        promote(Operator::Alternate, SideCategory::OwnedStrCat, SideCategory::AtomCat),
        Some(ResultCategory::Rec)
    );
    // Equality takes any two elements to a boolean.
    assert_eq!(
        promote(Operator::EqualityTest, SideCategory::CharCat, SideCategory::ComponentCat),
        Some(ResultCategory::Truth)
    );
    // Union is offered only between atom-like operands.
    assert_eq!(
        promote(Operator::Union, SideCategory::AtomCat, SideCategory::AtomCat),
        Some(ResultCategory::Ch)
    );
    assert_eq!(
        promote(Operator::Union, SideCategory::AtomCat, SideCategory::CharCat),
        Some(ResultCategory::Ch)
    );
    assert_eq!(
        promote(Operator::Union, SideCategory::CharCat, SideCategory::AtomCat),
        Some(ResultCategory::Ch)
    );
    // Not offered: union with a component, a string stand-in, or Rec.
    assert_eq!(promote(Operator::Union, SideCategory::ComponentCat, SideCategory::AtomCat), None);
    assert_eq!(promote(Operator::Union, SideCategory::AtomCat, SideCategory::StrViewCat), None);
    assert_eq!(promote(Operator::Union, SideCategory::AtomCat, SideCategory::OwnedStrCat), None);
    assert_eq!(promote(Operator::Union, SideCategory::AtomCat, SideCategory::RecCat), None);
}

#[test]
fn element_membership_queries() {
    let regs = vec![register(1, Category::Atom), register(2, Category::Component)];
    assert!(is_element(&regs, Side::Registered(1)));
    assert!(is_element(&regs, Side::Registered(2)));
    assert!(!is_element(&regs, Side::Registered(3)));
    assert!(is_element(&regs, Side::Char));
    assert!(is_element(&regs, Side::StrView));
    assert!(is_element(&regs, Side::OwnedStr));
    assert!(is_element(&regs, Side::Rec));
}

#[test]
fn atom_membership_queries() {
    let regs = vec![register(1, Category::Atom), register(2, Category::Component)];
    assert!(is_atom(&regs, Side::Registered(1), false));
    assert!(!is_atom(&regs, Side::Registered(2), false));
    assert!(!is_atom(&regs, Side::Registered(3), true));
    // char counts as an atom only in the union operator's context.
    assert!(is_atom(&regs, Side::Char, true));
    assert!(!is_atom(&regs, Side::Char, false));
    assert!(!is_atom(&regs, Side::StrView, true));
    assert!(!is_atom(&regs, Side::Rec, true));
}

#[test]
fn registration_lookup_finds_first_match() {
    let regs = vec![register(5, Category::Atom), register(6, Category::Component)];
    assert_eq!(find_registration(&regs, 5), Some(0));
    assert_eq!(find_registration(&regs, 6), Some(1));
    assert_eq!(find_registration(&regs, 7), None);
}

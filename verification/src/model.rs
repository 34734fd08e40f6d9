//! The vocabulary of the synthesizer: categories, operators, binding records,
//! registrations, and the spec-level constructors the contracts are stated over.

use vstd::prelude::*;

verus! {

/// The two concrete categories a type can be registered under.
/// They are mutually exclusive; a registration must claim exactly one.
#[derive(Clone, Copy, Debug, PartialEq, Eq, Structural)]
pub enum Category {
    Atom,
    Component,
}

/// The four infix operators the synthesizer wires to semantic calls.
#[derive(Clone, Copy, Debug, PartialEq, Eq, Structural)]
pub enum Operator {
    /// Combine in sequence; offered between any two `Element`s.
    Concatenate,
    /// Combine as either-or, general form; offered between any two `Element`s.
    Alternate,
    /// Combine as either-or, narrowing form; offered only between atoms
    /// (with `char` admitted as atom-equivalent for this operator alone).
    Union,
    /// Symmetric equivalence check; offered between any two `Element`s.
    EqualityTest,
}

/// What a resolved binding produces.
#[derive(Clone, Copy, Debug, PartialEq, Eq, Structural)]
pub enum ResultCategory {
    /// The general composite, produced by concatenation and alternation.
    Rec,
    /// The narrow composite, produced by the atoms-only union.
    Ch,
    /// The boolean outcome of an equality test.
    Truth,
}

/// The underlying semantic operation a binding routes to.  The receiver of
/// the call is always the binding's left operand, so a mirrored binding
/// swaps which operand acts as `self` and which as the argument.
#[derive(Clone, Copy, Debug, PartialEq, Eq, Structural)]
pub enum SemanticOp {
    Concatenate,
    Alternate,
    Union,
    IsEqual,
}

/// One side of a binding: a registered concrete type (named by its numeric
/// identifier), one of the three fixed primitive stand-ins, or the composite
/// result type `Rec`, which also satisfies `Element` and therefore appears as
/// a right-hand partner.
#[derive(Clone, Copy, Debug, PartialEq, Eq, Structural)]
pub enum Side {
    /// A concrete type previously handed to the registry.
    Registered(u64),
    /// The single-character primitive stand-in.
    Char,
    /// The borrowed string view stand-in.
    StrView,
    /// The owned string stand-in.
    OwnedStr,
    /// The general composite result type, as a partner.
    Rec,
}

/// A request to register one concrete type.  The two flags record which
/// categories the request claims; a well-formed registration claims exactly
/// one of them.
#[derive(Clone, Copy, Debug, PartialEq, Eq, Structural)]
pub struct Registration {
    /// Identifies the concrete type; two registrations may not share it.
    pub id: u64,
    /// The request claims the `Atom` category.
    pub claims_atom: bool,
    /// The request claims the `Component` category.
    pub claims_component: bool,
}

/// One fully resolved operator binding, the unit the engine produces.
#[derive(Clone, Copy, Debug, PartialEq, Eq, Structural)]
pub struct Binding {
    /// The operator being bound.
    pub op: Operator,
    /// The left operand type, which is also the receiver of `call`.
    pub left: Side,
    /// The right operand type.
    pub right: Side,
    /// The promoted result of the operator for this pair of sides.
    pub result: ResultCategory,
    /// The semantic operation the binding invokes on the left operand.
    pub call: SemanticOp,
}

/// The two fatal configuration errors of a generation run.
#[derive(Clone, Copy, Debug, PartialEq, Eq, Structural)]
pub enum GenError {
    /// The registration at this index claims no category, or both.
    MalformedRegistration(usize),
    /// Two registrations share this identifier, so their passes would claim
    /// the same reversed-binding slots against the primitives.
    BindingCollision(u64),
}

/// A registration claims exactly one of the two concrete categories.
pub open spec fn reg_well_formed(r: Registration) -> bool {
    r.claims_atom != r.claims_component
}

/// The category of a well-formed registration.
pub open spec fn reg_category(r: Registration) -> Category {
    if r.claims_atom {
        Category::Atom
    } else {
        Category::Component
    }
}

/// Every registration in the sequence claims exactly one category.
pub open spec fn all_well_formed(regs: Seq<Registration>) -> bool {
    forall|j: int| 0 <= j < regs.len() ==> reg_well_formed(#[trigger] regs[j])
}

/// No two registrations share an identifier.
pub open spec fn distinct_ids(regs: Seq<Registration>) -> bool {
    forall|j: int, k: int| 0 <= j < k < regs.len() ==> regs[j].id != regs[k].id
}

/// The side is one of the three primitive stand-ins.
pub open spec fn is_primitive(s: Side) -> bool {
    s is Char || s is StrView || s is OwnedStr
}

/// The side that stands for a registration in emitted bindings.
pub open spec fn side_of(r: Registration) -> Side {
    Side::Registered(r.id)
}

/// The semantic operation each operator routes to.
pub open spec fn call_of(op: Operator) -> SemanticOp {
    match op {
        Operator::Concatenate => SemanticOp::Concatenate,
        Operator::Alternate => SemanticOp::Alternate,
        Operator::Union => SemanticOp::Union,
        Operator::EqualityTest => SemanticOp::IsEqual,
    }
}

/// A binding with its semantic call derived from its operator.
pub open spec fn spec_binding(op: Operator, left: Side, right: Side, result: ResultCategory) -> Binding {
    Binding { op, left, right, result, call: call_of(op) }
}

/// The order-reversed form of a binding: the sides swap, while operator,
/// result, and semantic call are kept.  Because the call's receiver is
/// always the left operand, the mirrored equality test invokes the check
/// with `self` and `other` exchanged, which is what keeps equality
/// symmetric across the two emitted directions.
pub open spec fn spec_mirror(b: Binding) -> Binding {
    Binding { op: b.op, left: b.right, right: b.left, result: b.result, call: b.call }
}

/// Builds a registration that claims exactly the given category.
pub fn register(id: u64, category: Category) -> (r: Registration)
    ensures
        reg_well_formed(r),
        r.id == id,
        reg_category(r) == category,
{
    match category {
        Category::Atom => Registration { id, claims_atom: true, claims_component: false },
        Category::Component => Registration { id, claims_atom: false, claims_component: true },
    }
}

/// The category a well-formed registration claims.
pub fn registration_category(r: &Registration) -> (c: Category)
    requires
        reg_well_formed(*r),
    ensures
        c == reg_category(*r),
{
    if r.claims_atom {
        Category::Atom
    } else {
        Category::Component
    }
}

/// The semantic operation each operator routes to.
pub fn semantic_call(op: Operator) -> (c: SemanticOp)
    ensures
        c == call_of(op),
{
    match op {
        Operator::Concatenate => SemanticOp::Concatenate,
        Operator::Alternate => SemanticOp::Alternate,
        Operator::Union => SemanticOp::Union,
        Operator::EqualityTest => SemanticOp::IsEqual,
    }
}

/// Builds a binding, deriving its semantic call from the operator.
pub fn make_binding(op: Operator, left: Side, right: Side, result: ResultCategory) -> (b: Binding)
    ensures
        b == spec_binding(op, left, right, result),
{
    let call = semantic_call(op);
    Binding { op, left, right, result, call }
}

/// The order-reversed form of a binding.
pub fn mirror_binding(b: &Binding) -> (m: Binding)
    ensures
        m == spec_mirror(*b),
{
    Binding { op: b.op, left: b.right, right: b.left, result: b.result, call: b.call }
}

/// The side is one of the three primitive stand-ins.
pub fn side_is_primitive(s: Side) -> (r: bool)
    ensures
        r == is_primitive(s),
{
    match s {
        Side::Char => true,
        Side::StrView => true,
        Side::OwnedStr => true,
        _ => false,
    }
}

} // verus!

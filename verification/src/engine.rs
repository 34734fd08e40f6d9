//! The binding enumerator and the symmetry closure.
//!
//! For each registered concrete type the engine runs one generation pass:
//! it enumerates the element operators (concatenate, alternate, equality)
//! against every element partner — the other registered types in
//! registration order, then the three primitive stand-ins, then the
//! composite `Rec` — and, for an atom, additionally the union operator
//! against the other registered atoms and the `char` stand-in.  A binding
//! whose partner is a primitive is immediately followed by its mirrored
//! form, so both operand orders exist even though a primitive can never run
//! a pass of its own.

use crate::model::{
    all_well_formed, distinct_ids, is_primitive, make_binding, mirror_binding, reg_category,
    reg_well_formed, side_is_primitive, side_of, spec_binding, spec_mirror, Binding, GenError,
    Operator, Registration, ResultCategory, Side,
};
use vstd::prelude::*;

verus! {

/// The element-operator bindings one partner contributes to a pass of the
/// local side `t`: concatenate, alternate, and the equality test against
/// `u`, and, when `u` is a primitive stand-in, the three mirrored forms.
pub open spec fn spec_element_ops(t: Side, u: Side) -> Seq<Binding> {
    let direct = seq![
        spec_binding(Operator::Concatenate, t, u, ResultCategory::Rec),
        spec_binding(Operator::Alternate, t, u, ResultCategory::Rec),
        spec_binding(Operator::EqualityTest, t, u, ResultCategory::Truth),
    ];
    if is_primitive(u) {
        direct + seq![spec_mirror(direct[0]), spec_mirror(direct[1]), spec_mirror(direct[2])]
    } else {
        direct
    }
}

/// The union bindings one partner contributes to a pass of the local atom
/// `t`: the union against `u`, and, when `u` is the `char` stand-in, the
/// mirrored form.
pub open spec fn spec_union_ops(t: Side, u: Side) -> Seq<Binding> {
    let direct = seq![spec_binding(Operator::Union, t, u, ResultCategory::Ch)];
    if u is Char {
        direct + seq![spec_mirror(direct[0])]
    } else {
        direct
    }
}

/// The registered element partners of the pass for index `i` drawn from the
/// first `n` registrations: every registration but the local one, in order.
pub open spec fn spec_registered_partners(regs: Seq<Registration>, i: int, n: int) -> Seq<Side>
    decreases n,
{
    if n <= 0 {
        Seq::empty()
    } else {
        let prefix = spec_registered_partners(regs, i, n - 1);
        if n - 1 == i {
            prefix
        } else {
            prefix.push(side_of(regs[n - 1]))
        }
    }
}

/// The element partners of the pass for index `i`: the other registered
/// types in registration order, then the three primitive stand-ins, then
/// the composite `Rec`.
pub open spec fn spec_element_partners(regs: Seq<Registration>, i: int) -> Seq<Side> {
    spec_registered_partners(regs, i, regs.len() as int)
        + seq![Side::Char, Side::StrView, Side::OwnedStr, Side::Rec]
}

/// The registered union partners of the pass for index `i` drawn from the
/// first `n` registrations: every other registration claiming `Atom`, in
/// order.
pub open spec fn spec_registered_atom_partners(regs: Seq<Registration>, i: int, n: int) -> Seq<Side>
    decreases n,
{
    if n <= 0 {
        Seq::empty()
    } else {
        let prefix = spec_registered_atom_partners(regs, i, n - 1);
        if n - 1 != i && regs[n - 1].claims_atom {
            prefix.push(side_of(regs[n - 1]))
        } else {
            prefix
        }
    }
}

/// The union partners of the pass for index `i`: the other registered
/// atoms in registration order, then the `char` stand-in.
pub open spec fn spec_union_partners(regs: Seq<Registration>, i: int) -> Seq<Side> {
    spec_registered_atom_partners(regs, i, regs.len() as int).push(Side::Char)
}

/// The element bindings contributed by the first `n` partners, in order.
pub open spec fn spec_element_bindings(t: Side, partners: Seq<Side>, n: int) -> Seq<Binding>
    decreases n,
{
    if n <= 0 {
        Seq::empty()
    } else {
        spec_element_bindings(t, partners, n - 1) + spec_element_ops(t, partners[n - 1])
    }
}

/// The union bindings contributed by the first `n` partners, in order.
pub open spec fn spec_union_bindings(t: Side, partners: Seq<Side>, n: int) -> Seq<Binding>
    decreases n,
{
    if n <= 0 {
        Seq::empty()
    } else {
        spec_union_bindings(t, partners, n - 1) + spec_union_ops(t, partners[n - 1])
    }
}

/// The element section of the pass for index `i`.
pub open spec fn spec_element_section(regs: Seq<Registration>, i: int) -> Seq<Binding> {
    let partners = spec_element_partners(regs, i);
    spec_element_bindings(side_of(regs[i]), partners, partners.len() as int)
}

/// The union section of the pass for index `i`.
pub open spec fn spec_union_section(regs: Seq<Registration>, i: int) -> Seq<Binding> {
    let partners = spec_union_partners(regs, i);
    spec_union_bindings(side_of(regs[i]), partners, partners.len() as int)
}

/// The whole generation pass for index `i`: the element section, and for an
/// atom also the union section.
pub open spec fn spec_pass(regs: Seq<Registration>, i: int) -> Seq<Binding> {
    if regs[i].claims_atom {
        spec_element_section(regs, i) + spec_union_section(regs, i)
    } else {
        spec_element_section(regs, i)
    }
}

/// The passes of the first `n` registrations, concatenated in order.
pub open spec fn spec_passes(regs: Seq<Registration>, n: int) -> Seq<Binding>
    decreases n,
{
    if n <= 0 {
        Seq::empty()
    } else {
        spec_passes(regs, n - 1) + spec_pass(regs, n - 1)
    }
}

/// The complete binding list of a generation run over the registration
/// sequence: one pass per registration, in registration order.
pub open spec fn spec_generate(regs: Seq<Registration>) -> Seq<Binding> {
    spec_passes(regs, regs.len() as int)
}

/// Appends the element-operator bindings one partner contributes.
fn push_element_ops(out: &mut Vec<Binding>, t: Side, u: Side)
    ensures
        final(out)@ == old(out)@ + spec_element_ops(t, u),
{
    let b0 = make_binding(Operator::Concatenate, t, u, ResultCategory::Rec);
    let b1 = make_binding(Operator::Alternate, t, u, ResultCategory::Rec);
    let b2 = make_binding(Operator::EqualityTest, t, u, ResultCategory::Truth);
    out.push(b0);
    out.push(b1);
    out.push(b2);
    if side_is_primitive(u) {
        out.push(mirror_binding(&b0));
        out.push(mirror_binding(&b1));
        out.push(mirror_binding(&b2));
    }
    assert(out@ =~= old(out)@ + spec_element_ops(t, u));
}

/// Appends the union bindings one partner contributes.
fn push_union_ops(out: &mut Vec<Binding>, t: Side, u: Side)
    ensures
        final(out)@ == old(out)@ + spec_union_ops(t, u),
{
    let b0 = make_binding(Operator::Union, t, u, ResultCategory::Ch);
    out.push(b0);
    if matches!(u, Side::Char) {
        out.push(mirror_binding(&b0));
    }
    assert(out@ =~= old(out)@ + spec_union_ops(t, u));
}

/// Enumerates the element partners of the pass for index `i`.
pub fn element_partners(regs: &Vec<Registration>, i: usize) -> (out: Vec<Side>)
    requires
        i < regs@.len(),
    ensures
        out@ == spec_element_partners(regs@, i as int),
{
    let mut out: Vec<Side> = Vec::new();
    let mut j: usize = 0;
    while j < regs.len()
        invariant
            j <= regs@.len(),
            i < regs@.len(),
            out@ == spec_registered_partners(regs@, i as int, j as int),
        decreases regs@.len() - j,
    {
        if j != i {
            out.push(Side::Registered(regs[j].id));
        }
        j = j + 1;
    }
    out.push(Side::Char);
    out.push(Side::StrView);
    out.push(Side::OwnedStr);
    out.push(Side::Rec);
    assert(out@ =~= spec_element_partners(regs@, i as int));
    out
}

/// Enumerates the union partners of the pass for index `i`.
pub fn union_partners(regs: &Vec<Registration>, i: usize) -> (out: Vec<Side>)
    requires
        i < regs@.len(),
    ensures
        out@ == spec_union_partners(regs@, i as int),
{
    let mut out: Vec<Side> = Vec::new();
    let mut j: usize = 0;
    while j < regs.len()
        invariant
            j <= regs@.len(),
            i < regs@.len(),
            out@ == spec_registered_atom_partners(regs@, i as int, j as int),
        decreases regs@.len() - j,
    {
        if j != i && regs[j].claims_atom {
            out.push(Side::Registered(regs[j].id));
        }
        j = j + 1;
    }
    out.push(Side::Char);
    out
}

/// The operations shared by atoms and components: for the type at index
/// `i`, the concatenate, alternate, and equality bindings against every
/// element partner, with the mirrored forms for the primitive stand-ins.
pub fn element_ops(regs: &Vec<Registration>, i: usize) -> (out: Vec<Binding>)
    requires
        i < regs@.len(),
    ensures
        out@ == spec_element_section(regs@, i as int),
{
    let t = Side::Registered(regs[i].id);
    let partners = element_partners(regs, i);
    let mut out: Vec<Binding> = Vec::new();
    let mut k: usize = 0;
    while k < partners.len()
        invariant
            k <= partners@.len(),
            i < regs@.len(),
            t == side_of(regs@[i as int]),
            partners@ == spec_element_partners(regs@, i as int),
            out@ == spec_element_bindings(t, partners@, k as int),
        decreases partners@.len() - k,
    {
        push_element_ops(&mut out, t, partners[k]);
        k = k + 1;
    }
    out
}

/// The union section for the atom at index `i`: a union binding against
/// every other registered atom and against the `char` stand-in, the latter
/// in both operand orders.
fn union_ops(regs: &Vec<Registration>, i: usize) -> (out: Vec<Binding>)
    requires
        i < regs@.len(),
    ensures
        out@ == spec_union_section(regs@, i as int),
{
    let t = Side::Registered(regs[i].id);
    let partners = union_partners(regs, i);
    let mut out: Vec<Binding> = Vec::new();
    let mut k: usize = 0;
    while k < partners.len()
        invariant
            k <= partners@.len(),
            i < regs@.len(),
            t == side_of(regs@[i as int]),
            partners@ == spec_union_partners(regs@, i as int),
            out@ == spec_union_bindings(t, partners@, k as int),
        decreases partners@.len() - k,
    {
        push_union_ops(&mut out, t, partners[k]);
        k = k + 1;
    }
    out
}

/// The generation pass for a component: the element operations alone.
pub fn derive_component_ops(regs: &Vec<Registration>, i: usize) -> (out: Vec<Binding>)
    requires
        i < regs@.len(),
        reg_well_formed(regs@[i as int]),
        reg_category(regs@[i as int]) is Component,
    ensures
        out@ == spec_pass(regs@, i as int),
{
    element_ops(regs, i)
}

/// The generation pass for an atom: the element operations, followed by
/// the union section.
pub fn derive_atom_ops(regs: &Vec<Registration>, i: usize) -> (out: Vec<Binding>)
    requires
        i < regs@.len(),
        reg_well_formed(regs@[i as int]),
        reg_category(regs@[i as int]) is Atom,
    ensures
        out@ == spec_pass(regs@, i as int),
{
    let mut out = element_ops(regs, i);
    let mut more = union_ops(regs, i);
    out.append(&mut more);
    out
}

/// The registration at index `k` repeats an identifier seen earlier.
pub open spec fn dup_at(regs: Seq<Registration>, k: int) -> bool {
    exists|j: int| 0 <= j < k && (#[trigger] regs[j]).id == regs[k].id
}

/// Runs one whole generation: validates the registration sequence, then
/// concatenates the passes of all registrations in order.
///
/// Succeeds exactly when every registration claims exactly one category and
/// no identifier repeats; the binding list is then a function of the
/// registration sequence alone.  Otherwise the run aborts with the first
/// malformed registration, or — all registrations being well formed — with
/// the first repeated identifier, whose two passes would claim the same
/// reversed-binding slots against the primitives.
pub fn generate(regs: &Vec<Registration>) -> (r: Result<Vec<Binding>, GenError>)
    ensures
        r is Ok <==> all_well_formed(regs@) && distinct_ids(regs@),
        r matches Ok(out) ==> out@ == spec_generate(regs@),
        r matches Err(GenError::MalformedRegistration(i)) ==> i < regs@.len()
            && !reg_well_formed(regs@[i as int]) && forall|j: int|
            0 <= j < i ==> reg_well_formed(#[trigger] regs@[j]),
        r matches Err(GenError::BindingCollision(id)) ==> all_well_formed(regs@)
            && (exists|k: int|
            0 <= k < regs@.len() && #[trigger] dup_at(regs@, k) && regs@[k].id == id
                && forall|m: int| 0 <= m < k ==> !dup_at(regs@, m)),
{
    let mut i: usize = 0;
    while i < regs.len()
        invariant
            i <= regs@.len(),
            forall|j: int| 0 <= j < i ==> reg_well_formed(#[trigger] regs@[j]),
        decreases regs@.len() - i,
    {
        if regs[i].claims_atom == regs[i].claims_component {
            return Err(GenError::MalformedRegistration(i));
        }
        i = i + 1;
    }
    let mut k: usize = 0;
    while k < regs.len()
        invariant
            k <= regs@.len(),
            all_well_formed(regs@),
            forall|m: int| 0 <= m < k ==> !(#[trigger] dup_at(regs@, m)),
        decreases regs@.len() - k,
    {
        let mut j: usize = 0;
        while j < k
            invariant
                j <= k,
                k < regs@.len(),
                all_well_formed(regs@),
                forall|m: int| 0 <= m < k ==> !(#[trigger] dup_at(regs@, m)),
                forall|m: int| 0 <= m < j ==> (#[trigger] regs@[m]).id != regs@[k as int].id,
            decreases k - j,
        {
            if regs[j].id == regs[k].id {
                assert(dup_at(regs@, k as int));
                return Err(GenError::BindingCollision(regs[k].id));
            }
            j = j + 1;
        }
        assert(!dup_at(regs@, k as int));
        k = k + 1;
    }
    assert(distinct_ids(regs@)) by {
        assert forall|j: int, m: int| 0 <= j < m < regs@.len() implies regs@[j].id
            != regs@[m].id by {
            assert(!dup_at(regs@, m));
        }
    }
    let mut out: Vec<Binding> = Vec::new();
    let mut p: usize = 0;
    while p < regs.len()
        invariant
            p <= regs@.len(),
            all_well_formed(regs@),
            out@ == spec_passes(regs@, p as int),
        decreases regs@.len() - p,
    {
        let mut pass = if regs[p].claims_atom {
            derive_atom_ops(regs, p)
        } else {
            derive_component_ops(regs, p)
        };
        out.append(&mut pass);
        p = p + 1;
    }
    Ok(out)
}

} // verus!

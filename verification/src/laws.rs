//! The laws of the generated binding matrix, proved over `spec_generate`:
//! which bindings a run emits, totality of the element operators in both
//! operand orders, the union restriction, equality symmetry, the
//! foreign-type coherence restriction, agreement with the promotion rule
//! table, and determinism.

use crate::engine::{
    spec_element_bindings, spec_element_ops, spec_element_partners, spec_element_section,
    spec_generate, spec_pass, spec_passes, spec_registered_atom_partners,
    spec_registered_partners, spec_union_bindings, spec_union_ops, spec_union_partners,
    spec_union_section,
};
use crate::model::{
    all_well_formed, call_of, distinct_ids, is_primitive, side_of, spec_binding, Binding,
    Operator, Registration, ResultCategory, Side,
};
use crate::table::{spec_promote, spec_side_category, SideCategory};
use vstd::prelude::*;

verus! {

/// Membership in a concatenation is membership in either part.
pub proof fn lemma_concat_contains<A>(x: Seq<A>, y: Seq<A>, e: A)
    ensures
        (x + y).contains(e) <==> x.contains(e) || y.contains(e),
{
    if (x + y).contains(e) {
        let i = choose|i: int| 0 <= i < (x + y).len() && (x + y)[i] == e;
        if i < x.len() {
            assert(x[i] == e);
        } else {
            assert(y[i - x.len()] == e);
        }
    }
    if x.contains(e) {
        let i = choose|i: int| 0 <= i < x.len() && x[i] == e;
        assert((x + y)[i] == e);
    }
    if y.contains(e) {
        let i = choose|i: int| 0 <= i < y.len() && y[i] == e;
        assert((x + y)[x.len() + i] == e);
    }
}

/// Membership after a push is membership before, or the pushed element.
pub proof fn lemma_push_contains<A>(x: Seq<A>, v: A, e: A)
    ensures
        x.push(v).contains(e) <==> x.contains(e) || e == v,
{
    if x.push(v).contains(e) {
        let i = choose|i: int| 0 <= i < x.push(v).len() && x.push(v)[i] == e;
        if i < x.len() {
            assert(x[i] == e);
        } else {
            assert(x.push(v)[x.len() as int] == v);
        }
    }
    if x.contains(e) {
        let i = choose|i: int| 0 <= i < x.len() && x[i] == e;
        assert(x.push(v)[i] == e);
    }
    if e == v {
        assert(x.push(v)[x.len() as int] == e);
    }
}

/// The bindings one element partner `u` contributes to the pass of the
/// local side `t`: the three direct forms, and the three mirrored forms
/// when `u` is a primitive stand-in.
pub open spec fn emitted_by_element_ops(t: Side, u: Side, b: Binding) -> bool {
    ||| b == spec_binding(Operator::Concatenate, t, u, ResultCategory::Rec)
    ||| b == spec_binding(Operator::Alternate, t, u, ResultCategory::Rec)
    ||| b == spec_binding(Operator::EqualityTest, t, u, ResultCategory::Truth)
    ||| (is_primitive(u) && {
        ||| b == spec_binding(Operator::Concatenate, u, t, ResultCategory::Rec)
        ||| b == spec_binding(Operator::Alternate, u, t, ResultCategory::Rec)
        ||| b == spec_binding(Operator::EqualityTest, u, t, ResultCategory::Truth)
    })
}

/// The bindings one union partner `u` contributes to the pass of the local
/// atom `t`: the direct form, and the mirrored form when `u` is `char`.
pub open spec fn emitted_by_union_ops(t: Side, u: Side, b: Binding) -> bool {
    ||| b == spec_binding(Operator::Union, t, u, ResultCategory::Ch)
    ||| (u is Char && b == spec_binding(Operator::Union, u, t, ResultCategory::Ch))
}

/// The side is an element partner of the pass for index `i`: another
/// registered type, a primitive stand-in, or the composite `Rec`.
pub open spec fn is_element_partner(regs: Seq<Registration>, i: int, u: Side) -> bool {
    ||| (exists|j: int| 0 <= j < regs.len() && j != i && u == side_of(#[trigger] regs[j]))
    ||| u is Char
    ||| u is StrView
    ||| u is OwnedStr
    ||| u is Rec
}

/// The side is a union partner of the pass for index `i`: another
/// registered atom, or the `char` stand-in.
pub open spec fn is_union_partner(regs: Seq<Registration>, i: int, u: Side) -> bool {
    ||| (exists|j: int|
        0 <= j < regs.len() && j != i && (#[trigger] regs[j]).claims_atom && u == side_of(
            regs[j],
        ))
    ||| u is Char
}

/// The pass for index `i` emits the binding: some element partner
/// contributes it, or — for an atom — some union partner does.
pub open spec fn pass_emits(regs: Seq<Registration>, i: int, b: Binding) -> bool {
    ||| (exists|u: Side|
        #[trigger] is_element_partner(regs, i, u) && emitted_by_element_ops(
            side_of(regs[i]),
            u,
            b,
        ))
    ||| (regs[i].claims_atom && exists|u: Side|
        #[trigger] is_union_partner(regs, i, u) && emitted_by_union_ops(side_of(regs[i]), u, b))
}

proof fn lemma_element_ops_membership(t: Side, u: Side, b: Binding)
    ensures
        spec_element_ops(t, u).contains(b) <==> emitted_by_element_ops(t, u, b),
{
    let s = spec_element_ops(t, u);
    let direct = seq![
        spec_binding(Operator::Concatenate, t, u, ResultCategory::Rec),
        spec_binding(Operator::Alternate, t, u, ResultCategory::Rec),
        spec_binding(Operator::EqualityTest, t, u, ResultCategory::Truth),
    ];
    if is_primitive(u) {
        assert(s =~= direct + seq![
            spec_binding(Operator::Concatenate, u, t, ResultCategory::Rec),
            spec_binding(Operator::Alternate, u, t, ResultCategory::Rec),
            spec_binding(Operator::EqualityTest, u, t, ResultCategory::Truth),
        ]);
        assert(s.len() == 6);
        if s.contains(b) {
            let i = choose|i: int| 0 <= i < s.len() && s[i] == b;
            assert(emitted_by_element_ops(t, u, b));
        }
        if emitted_by_element_ops(t, u, b) {
            if b == s[0] || b == s[1] || b == s[2] || b == s[3] || b == s[4] || b == s[5] {
                assert(s.contains(b));
            }
        }
    } else {
        assert(s =~= direct);
        assert(s.len() == 3);
        if s.contains(b) {
            let i = choose|i: int| 0 <= i < s.len() && s[i] == b;
            assert(emitted_by_element_ops(t, u, b));
        }
        if emitted_by_element_ops(t, u, b) {
            if b == s[0] || b == s[1] || b == s[2] {
                assert(s.contains(b));
            }
        }
    }
}

proof fn lemma_union_ops_membership(t: Side, u: Side, b: Binding)
    ensures
        spec_union_ops(t, u).contains(b) <==> emitted_by_union_ops(t, u, b),
{
    let s = spec_union_ops(t, u);
    if u is Char {
        assert(s.len() == 2);
        if s.contains(b) {
            let i = choose|i: int| 0 <= i < s.len() && s[i] == b;
            assert(emitted_by_union_ops(t, u, b));
        }
        if emitted_by_union_ops(t, u, b) {
            if b == s[0] || b == s[1] {
                assert(s.contains(b));
            }
        }
    } else {
        assert(s.len() == 1);
        if s.contains(b) {
            let i = choose|i: int| 0 <= i < s.len() && s[i] == b;
            assert(emitted_by_union_ops(t, u, b));
        }
        if emitted_by_union_ops(t, u, b) {
            if b == s[0] {
                assert(s.contains(b));
            }
        }
    }
}

proof fn lemma_registered_partners_membership(regs: Seq<Registration>, i: int, n: int, u: Side)
    requires
        0 <= n <= regs.len(),
    ensures
        spec_registered_partners(regs, i, n).contains(u) <==> exists|j: int|
            0 <= j < n && j != i && u == side_of(#[trigger] regs[j]),
    decreases n,
{
    if n > 0 {
        lemma_registered_partners_membership(regs, i, n - 1, u);
        let prefix = spec_registered_partners(regs, i, n - 1);
        if n - 1 != i {
            lemma_push_contains(prefix, side_of(regs[n - 1]), u);
        }
        if exists|j: int| 0 <= j < n && j != i && u == side_of(#[trigger] regs[j]) {
            let j = choose|j: int| 0 <= j < n && j != i && u == side_of(#[trigger] regs[j]);
            if j < n - 1 {
                assert(prefix.contains(u));
            }
        }
    }
}

proof fn lemma_registered_atom_partners_membership(
    regs: Seq<Registration>,
    i: int,
    n: int,
    u: Side,
)
    requires
        0 <= n <= regs.len(),
    ensures
        spec_registered_atom_partners(regs, i, n).contains(u) <==> exists|j: int|
            0 <= j < n && j != i && (#[trigger] regs[j]).claims_atom && u == side_of(regs[j]),
    decreases n,
{
    if n > 0 {
        lemma_registered_atom_partners_membership(regs, i, n - 1, u);
        let prefix = spec_registered_atom_partners(regs, i, n - 1);
        if n - 1 != i && regs[n - 1].claims_atom {
            lemma_push_contains(prefix, side_of(regs[n - 1]), u);
        }
        if exists|j: int|
            0 <= j < n && j != i && (#[trigger] regs[j]).claims_atom && u == side_of(regs[j]) {
            let j = choose|j: int|
                0 <= j < n && j != i && (#[trigger] regs[j]).claims_atom && u == side_of(regs[j]);
            if j < n - 1 {
                assert(prefix.contains(u));
            }
        }
    }
}

proof fn lemma_element_partners_membership(regs: Seq<Registration>, i: int, u: Side)
    requires
        0 <= i < regs.len(),
    ensures
        spec_element_partners(regs, i).contains(u) <==> is_element_partner(regs, i, u),
{
    let prefix = spec_registered_partners(regs, i, regs.len() as int);
    let tail = seq![Side::Char, Side::StrView, Side::OwnedStr, Side::Rec];
    lemma_registered_partners_membership(regs, i, regs.len() as int, u);
    lemma_concat_contains(prefix, tail, u);
    assert(tail.len() == 4);
    if tail.contains(u) {
        let k = choose|k: int| 0 <= k < tail.len() && tail[k] == u;
        assert(u is Char || u is StrView || u is OwnedStr || u is Rec);
    }
    if u is Char {
        assert(tail[0] == u);
    }
    if u is StrView {
        assert(tail[1] == u);
    }
    if u is OwnedStr {
        assert(tail[2] == u);
    }
    if u is Rec {
        assert(tail[3] == u);
    }
}

proof fn lemma_union_partners_membership(regs: Seq<Registration>, i: int, u: Side)
    requires
        0 <= i < regs.len(),
    ensures
        spec_union_partners(regs, i).contains(u) <==> is_union_partner(regs, i, u),
{
    let prefix = spec_registered_atom_partners(regs, i, regs.len() as int);
    lemma_registered_atom_partners_membership(regs, i, regs.len() as int, u);
    lemma_push_contains(prefix, Side::Char, u);
}

proof fn lemma_element_bindings_membership(t: Side, partners: Seq<Side>, n: int, b: Binding)
    requires
        0 <= n <= partners.len(),
    ensures
        spec_element_bindings(t, partners, n).contains(b) <==> exists|k: int|
            0 <= k < n && emitted_by_element_ops(t, #[trigger] partners[k], b),
    decreases n,
{
    if n > 0 {
        lemma_element_bindings_membership(t, partners, n - 1, b);
        lemma_concat_contains(
            spec_element_bindings(t, partners, n - 1),
            spec_element_ops(t, partners[n - 1]),
            b,
        );
        lemma_element_ops_membership(t, partners[n - 1], b);
        if exists|k: int| 0 <= k < n && emitted_by_element_ops(t, #[trigger] partners[k], b) {
            let k = choose|k: int|
                0 <= k < n && emitted_by_element_ops(t, #[trigger] partners[k], b);
            if k < n - 1 {
                assert(spec_element_bindings(t, partners, n - 1).contains(b));
            }
        }
    }
}

proof fn lemma_union_bindings_membership(t: Side, partners: Seq<Side>, n: int, b: Binding)
    requires
        0 <= n <= partners.len(),
    ensures
        spec_union_bindings(t, partners, n).contains(b) <==> exists|k: int|
            0 <= k < n && emitted_by_union_ops(t, #[trigger] partners[k], b),
    decreases n,
{
    if n > 0 {
        lemma_union_bindings_membership(t, partners, n - 1, b);
        lemma_concat_contains(
            spec_union_bindings(t, partners, n - 1),
            spec_union_ops(t, partners[n - 1]),
            b,
        );
        lemma_union_ops_membership(t, partners[n - 1], b);
        if exists|k: int| 0 <= k < n && emitted_by_union_ops(t, #[trigger] partners[k], b) {
            let k = choose|k: int| 0 <= k < n && emitted_by_union_ops(t, #[trigger] partners[k], b);
            if k < n - 1 {
                assert(spec_union_bindings(t, partners, n - 1).contains(b));
            }
        }
    }
}

proof fn lemma_element_section_membership(regs: Seq<Registration>, i: int, b: Binding)
    requires
        0 <= i < regs.len(),
    ensures
        spec_element_section(regs, i).contains(b) <==> exists|u: Side|
            #[trigger] is_element_partner(regs, i, u) && emitted_by_element_ops(
                side_of(regs[i]),
                u,
                b,
            ),
{
    let t = side_of(regs[i]);
    let partners = spec_element_partners(regs, i);
    lemma_element_bindings_membership(t, partners, partners.len() as int, b);
    if spec_element_section(regs, i).contains(b) {
        let k = choose|k: int|
            0 <= k < partners.len() && emitted_by_element_ops(t, #[trigger] partners[k], b);
        lemma_element_partners_membership(regs, i, partners[k]);
        assert(partners.contains(partners[k]));
        assert(is_element_partner(regs, i, partners[k]));
    }
    if exists|u: Side|
        #[trigger] is_element_partner(regs, i, u) && emitted_by_element_ops(t, u, b) {
        let u = choose|u: Side|
            #[trigger] is_element_partner(regs, i, u) && emitted_by_element_ops(t, u, b);
        lemma_element_partners_membership(regs, i, u);
        assert(partners.contains(u));
        let k = choose|k: int| 0 <= k < partners.len() && partners[k] == u;
        assert(emitted_by_element_ops(t, partners[k], b));
        assert(spec_element_section(regs, i).contains(b));
    }
}

proof fn lemma_union_section_membership(regs: Seq<Registration>, i: int, b: Binding)
    requires
        0 <= i < regs.len(),
    ensures
        spec_union_section(regs, i).contains(b) <==> exists|u: Side|
            #[trigger] is_union_partner(regs, i, u) && emitted_by_union_ops(side_of(regs[i]), u, b),
{
    let t = side_of(regs[i]);
    let partners = spec_union_partners(regs, i);
    lemma_union_bindings_membership(t, partners, partners.len() as int, b);
    if spec_union_section(regs, i).contains(b) {
        let k = choose|k: int|
            0 <= k < partners.len() && emitted_by_union_ops(t, #[trigger] partners[k], b);
        lemma_union_partners_membership(regs, i, partners[k]);
        assert(partners.contains(partners[k]));
        assert(is_union_partner(regs, i, partners[k]));
    }
    if exists|u: Side| #[trigger] is_union_partner(regs, i, u) && emitted_by_union_ops(t, u, b) {
        let u = choose|u: Side|
            #[trigger] is_union_partner(regs, i, u) && emitted_by_union_ops(t, u, b);
        lemma_union_partners_membership(regs, i, u);
        assert(partners.contains(u));
        let k = choose|k: int| 0 <= k < partners.len() && partners[k] == u;
        assert(emitted_by_union_ops(t, partners[k], b));
        assert(spec_union_section(regs, i).contains(b));
    }
}

/// One pass's bindings, characterized: the pass for index `i` holds a
/// binding exactly when one of its partners contributes it.
pub proof fn lemma_pass_membership(regs: Seq<Registration>, i: int, b: Binding)
    requires
        0 <= i < regs.len(),
    ensures
        spec_pass(regs, i).contains(b) <==> pass_emits(regs, i, b),
{
    lemma_element_section_membership(regs, i, b);
    if regs[i].claims_atom {
        lemma_concat_contains(spec_element_section(regs, i), spec_union_section(regs, i), b);
        lemma_union_section_membership(regs, i, b);
    }
}

proof fn lemma_passes_membership(regs: Seq<Registration>, n: int, b: Binding)
    requires
        0 <= n <= regs.len(),
    ensures
        spec_passes(regs, n).contains(b) <==> exists|i: int|
            0 <= i < n && #[trigger] spec_pass(regs, i).contains(b),
    decreases n,
{
    if n > 0 {
        lemma_passes_membership(regs, n - 1, b);
        lemma_concat_contains(spec_passes(regs, n - 1), spec_pass(regs, n - 1), b);
        if exists|i: int| 0 <= i < n && #[trigger] spec_pass(regs, i).contains(b) {
            let i = choose|i: int| 0 <= i < n && #[trigger] spec_pass(regs, i).contains(b);
            if i < n - 1 {
                assert(spec_passes(regs, n - 1).contains(b));
            }
        }
    }
}

/// The whole run's bindings, characterized: the generated list holds a
/// binding exactly when some registration's pass emits it.
pub proof fn lemma_generate_membership(regs: Seq<Registration>, b: Binding)
    ensures
        spec_generate(regs).contains(b) <==> exists|i: int|
            0 <= i < regs.len() && #[trigger] pass_emits(regs, i, b),
{
    lemma_passes_membership(regs, regs.len() as int, b);
    if spec_generate(regs).contains(b) {
        let i = choose|i: int| 0 <= i < regs.len() && #[trigger] spec_pass(regs, i).contains(b);
        lemma_pass_membership(regs, i, b);
        assert(pass_emits(regs, i, b));
    }
    if exists|i: int| 0 <= i < regs.len() && #[trigger] pass_emits(regs, i, b) {
        let i = choose|i: int| 0 <= i < regs.len() && #[trigger] pass_emits(regs, i, b);
        lemma_pass_membership(regs, i, b);
        assert(spec_pass(regs, i).contains(b));
    }
}

/// The side stands for some registration in the sequence.
pub open spec fn registered_side(regs: Seq<Registration>, s: Side) -> bool {
    exists|j: int| 0 <= j < regs.len() && s == side_of(#[trigger] regs[j])
}

/// The side stands for some registration claiming the `Atom` category.
pub open spec fn atom_side(regs: Seq<Registration>, s: Side) -> bool {
    exists|j: int|
        0 <= j < regs.len() && (#[trigger] regs[j]).claims_atom && s == side_of(regs[j])
}

/// Totality of the element operators: for the registered type at index `i`
/// and any partner `u` that is a primitive stand-in or another registered
/// type, the generated list holds concatenate, alternate, and equality
/// bindings in both operand orders, with result `Rec` (`Truth` for the
/// equality test).  The reversed order against a primitive comes from the
/// pass's own symmetry closure; against another registered type it comes
/// from that type's own pass.
pub proof fn lemma_element_totality(regs: Seq<Registration>, i: int, u: Side)
    requires
        all_well_formed(regs),
        distinct_ids(regs),
        0 <= i < regs.len(),
        is_primitive(u) || (exists|j: int|
            0 <= j < regs.len() && j != i && u == side_of(#[trigger] regs[j])),
    ensures
        spec_generate(regs).contains(
            spec_binding(Operator::Concatenate, side_of(regs[i]), u, ResultCategory::Rec),
        ),
        spec_generate(regs).contains(
            spec_binding(Operator::Alternate, side_of(regs[i]), u, ResultCategory::Rec),
        ),
        spec_generate(regs).contains(
            spec_binding(Operator::EqualityTest, side_of(regs[i]), u, ResultCategory::Truth),
        ),
        spec_generate(regs).contains(
            spec_binding(Operator::Concatenate, u, side_of(regs[i]), ResultCategory::Rec),
        ),
        spec_generate(regs).contains(
            spec_binding(Operator::Alternate, u, side_of(regs[i]), ResultCategory::Rec),
        ),
        spec_generate(regs).contains(
            spec_binding(Operator::EqualityTest, u, side_of(regs[i]), ResultCategory::Truth),
        ),
{
    let t = side_of(regs[i]);
    let bc = spec_binding(Operator::Concatenate, t, u, ResultCategory::Rec);
    let ba = spec_binding(Operator::Alternate, t, u, ResultCategory::Rec);
    let be = spec_binding(Operator::EqualityTest, t, u, ResultCategory::Truth);
    let rc = spec_binding(Operator::Concatenate, u, t, ResultCategory::Rec);
    let ra = spec_binding(Operator::Alternate, u, t, ResultCategory::Rec);
    let re = spec_binding(Operator::EqualityTest, u, t, ResultCategory::Truth);
    assert(is_element_partner(regs, i, u));
    assert(pass_emits(regs, i, bc));
    assert(pass_emits(regs, i, ba));
    assert(pass_emits(regs, i, be));
    lemma_generate_membership(regs, bc);
    lemma_generate_membership(regs, ba);
    lemma_generate_membership(regs, be);
    if is_primitive(u) {
        assert(pass_emits(regs, i, rc));
        assert(pass_emits(regs, i, ra));
        assert(pass_emits(regs, i, re));
    } else {
        let j = choose|j: int| 0 <= j < regs.len() && j != i && u == side_of(#[trigger] regs[j]);
        assert(is_element_partner(regs, j, t));
        assert(pass_emits(regs, j, rc));
        assert(pass_emits(regs, j, ra));
        assert(pass_emits(regs, j, re));
    }
    lemma_generate_membership(regs, rc);
    lemma_generate_membership(regs, ra);
    lemma_generate_membership(regs, re);
}

/// Union totality: the atom at index `i` is owed union bindings with
/// result `Ch` against every other registered atom and against the `char`
/// stand-in, in both operand orders.  The reversed order against `char`
/// comes from the pass's symmetry closure; against another registered atom
/// it comes from that atom's own pass.
pub proof fn lemma_union_totality(regs: Seq<Registration>, i: int, u: Side)
    requires
        all_well_formed(regs),
        distinct_ids(regs),
        0 <= i < regs.len(),
        regs[i].claims_atom,
        u is Char || (exists|j: int|
            0 <= j < regs.len() && j != i && (#[trigger] regs[j]).claims_atom && u == side_of(
                regs[j],
            )),
    ensures
        spec_generate(regs).contains(
            spec_binding(Operator::Union, side_of(regs[i]), u, ResultCategory::Ch),
        ),
        spec_generate(regs).contains(
            spec_binding(Operator::Union, u, side_of(regs[i]), ResultCategory::Ch),
        ),
{
    let t = side_of(regs[i]);
    let bd = spec_binding(Operator::Union, t, u, ResultCategory::Ch);
    let br = spec_binding(Operator::Union, u, t, ResultCategory::Ch);
    assert(is_union_partner(regs, i, u));
    assert(pass_emits(regs, i, bd));
    lemma_generate_membership(regs, bd);
    if u is Char {
        assert(pass_emits(regs, i, br));
    } else {
        let j = choose|j: int|
            0 <= j < regs.len() && j != i && (#[trigger] regs[j]).claims_atom && u == side_of(
                regs[j],
            );
        assert(is_union_partner(regs, j, t));
        assert(pass_emits(regs, j, br));
    }
    lemma_generate_membership(regs, br);
}

/// Union restriction: every union binding in the generated list has result
/// `Ch`, routes to the union call, and has both sides atom-like — a
/// registered atom or the `char` stand-in — with a registered atom on at
/// least one side.  In particular no side of a union binding is a
/// component, the composite `Rec`, or one of the string stand-ins.
pub proof fn lemma_union_restriction(regs: Seq<Registration>, b: Binding)
    requires
        all_well_formed(regs),
        distinct_ids(regs),
        spec_generate(regs).contains(b),
        b.op is Union,
    ensures
        b.result is Ch,
        b.call == call_of(Operator::Union),
        atom_side(regs, b.left) || b.left is Char,
        atom_side(regs, b.right) || b.right is Char,
        atom_side(regs, b.left) || atom_side(regs, b.right),
{
    lemma_generate_membership(regs, b);
    let i = choose|i: int| 0 <= i < regs.len() && #[trigger] pass_emits(regs, i, b);
    let t = side_of(regs[i]);
    if exists|u: Side| #[trigger] is_element_partner(regs, i, u) && emitted_by_element_ops(t, u, b) {
        let u = choose|u: Side|
            #[trigger] is_element_partner(regs, i, u) && emitted_by_element_ops(t, u, b);
        assert(!(b.op is Union));
    } else {
        assert(regs[i].claims_atom);
        let u = choose|u: Side|
            #[trigger] is_union_partner(regs, i, u) && emitted_by_union_ops(t, u, b);
        assert(atom_side(regs, t));
        if u is Char {
        } else {
            let j = choose|j: int|
                0 <= j < regs.len() && j != i && (#[trigger] regs[j]).claims_atom && u == side_of(
                    regs[j],
                );
            assert(atom_side(regs, u));
        }
    }
}

/// Foreign-type coherence: every binding in the generated list keeps a
/// registered type on at least one side; no binding pairs two primitive
/// stand-ins, or a primitive with the composite `Rec`, directly.
pub proof fn lemma_no_foreign_foreign(regs: Seq<Registration>, b: Binding)
    requires
        spec_generate(regs).contains(b),
    ensures
        b.left is Registered || b.right is Registered,
        exists|i: int|
            0 <= i < regs.len() && (b.left == side_of(#[trigger] regs[i]) || b.right == side_of(
                regs[i],
            )),
{
    lemma_generate_membership(regs, b);
    let i = choose|i: int| 0 <= i < regs.len() && #[trigger] pass_emits(regs, i, b);
    lemma_pass_locality_emits(regs, i, b);
}

/// Each pass only emits bindings with its own, locally registered type on
/// one side: the structural form of the coherence restriction.
pub proof fn lemma_pass_locality(regs: Seq<Registration>, i: int, b: Binding)
    requires
        0 <= i < regs.len(),
        spec_pass(regs, i).contains(b),
    ensures
        b.left == side_of(regs[i]) || b.right == side_of(regs[i]),
{
    lemma_pass_membership(regs, i, b);
    lemma_pass_locality_emits(regs, i, b);
}

proof fn lemma_pass_locality_emits(regs: Seq<Registration>, i: int, b: Binding)
    requires
        0 <= i < regs.len(),
        pass_emits(regs, i, b),
    ensures
        b.left == side_of(regs[i]) || b.right == side_of(regs[i]),
{
    let t = side_of(regs[i]);
    if exists|u: Side| #[trigger] is_element_partner(regs, i, u) && emitted_by_element_ops(t, u, b) {
        let u = choose|u: Side|
            #[trigger] is_element_partner(regs, i, u) && emitted_by_element_ops(t, u, b);
        assert(b.left == t || b.right == t);
    } else {
        let u = choose|u: Side|
            #[trigger] is_union_partner(regs, i, u) && emitted_by_union_ops(t, u, b);
        assert(b.left == t || b.right == t);
    }
}

proof fn lemma_emitted_shape(regs: Seq<Registration>, i: int, b: Binding)
    requires
        0 <= i < regs.len(),
        pass_emits(regs, i, b),
    ensures
        b.left == side_of(regs[i]) || (b.right == side_of(regs[i]) && is_primitive(b.left)),
{
    let t = side_of(regs[i]);
    if exists|u: Side| #[trigger] is_element_partner(regs, i, u) && emitted_by_element_ops(t, u, b) {
        let u = choose|u: Side|
            #[trigger] is_element_partner(regs, i, u) && emitted_by_element_ops(t, u, b);
        assert(b.left == t || (b.right == t && is_primitive(b.left)));
    } else {
        let u = choose|u: Side|
            #[trigger] is_union_partner(regs, i, u) && emitted_by_union_ops(t, u, b);
        assert(b.left == t || (b.right == t && is_primitive(b.left)));
    }
}

/// Slot disjointness of distinct passes: with distinct identifiers, two
/// different passes never claim the same `(left, right, operator)` slot, so
/// the symmetry closure cannot collide across registrations.  A repeated
/// identifier is therefore the one collision source a generation run has
/// to rule out.
pub proof fn lemma_no_cross_pass_collision(
    regs: Seq<Registration>,
    i: int,
    j: int,
    b1: Binding,
    b2: Binding,
)
    requires
        distinct_ids(regs),
        0 <= i < regs.len(),
        0 <= j < regs.len(),
        i != j,
        pass_emits(regs, i, b1),
        pass_emits(regs, j, b2),
    ensures
        !(b1.left == b2.left && b1.right == b2.right && b1.op == b2.op),
{
    let ti = side_of(regs[i]);
    let tj = side_of(regs[j]);
    if i < j {
        assert(regs[i].id != regs[j].id);
    } else {
        assert(regs[j].id != regs[i].id);
    }
    assert(ti != tj);
    lemma_emitted_shape(regs, i, b1);
    lemma_emitted_shape(regs, j, b2);
}

/// Equality symmetry: between two sides that are each a registered type or
/// a primitive stand-in, an equality binding exists in one operand order
/// exactly when it exists in the other.  Because a binding's semantic call
/// always takes the left operand as its receiver, the two directions invoke
/// the equivalence check with `self` and `other` exchanged, which is what
/// the mirrored emission is for.
pub proof fn lemma_equality_symmetry(regs: Seq<Registration>, a: Side, b: Side)
    requires
        all_well_formed(regs),
        distinct_ids(regs),
        registered_side(regs, a) || is_primitive(a),
        registered_side(regs, b) || is_primitive(b),
    ensures
        spec_generate(regs).contains(spec_binding(Operator::EqualityTest, a, b, ResultCategory::Truth))
            <==> spec_generate(regs).contains(
            spec_binding(Operator::EqualityTest, b, a, ResultCategory::Truth),
        ),
{
    if a == b {
    } else if registered_side(regs, a) && registered_side(regs, b) {
        let i = choose|j: int| 0 <= j < regs.len() && a == side_of(#[trigger] regs[j]);
        let k = choose|j: int| 0 <= j < regs.len() && b == side_of(#[trigger] regs[j]);
        assert(k != i && b == side_of(regs[k]));
        lemma_element_totality(regs, i, b);
    } else if registered_side(regs, a) {
        let i = choose|j: int| 0 <= j < regs.len() && a == side_of(#[trigger] regs[j]);
        lemma_element_totality(regs, i, b);
    } else if registered_side(regs, b) {
        let k = choose|j: int| 0 <= j < regs.len() && b == side_of(#[trigger] regs[j]);
        lemma_element_totality(regs, k, a);
    } else {
        let fwd = spec_binding(Operator::EqualityTest, a, b, ResultCategory::Truth);
        let rev = spec_binding(Operator::EqualityTest, b, a, ResultCategory::Truth);
        if spec_generate(regs).contains(fwd) {
            lemma_no_foreign_foreign(regs, fwd);
        }
        if spec_generate(regs).contains(rev) {
            lemma_no_foreign_foreign(regs, rev);
        }
    }
}

/// Determinism: the generated binding list is a function of the
/// registration sequence alone, so two runs over the same sequence produce
/// identical lists.  Together with `generate`'s contract, which pins its
/// successful output to `spec_generate` of its input, re-running generation
/// reproduces the list element for element.
pub proof fn lemma_generation_deterministic(regs1: Seq<Registration>, regs2: Seq<Registration>)
    requires
        regs1 == regs2,
    ensures
        spec_generate(regs1) == spec_generate(regs2),
{
}

proof fn lemma_side_category_of_registered(regs: Seq<Registration>, i: int)
    requires
        distinct_ids(regs),
        0 <= i < regs.len(),
    ensures
        spec_side_category(regs, side_of(regs[i])) == if regs[i].claims_atom {
            SideCategory::AtomCat
        } else {
            SideCategory::ComponentCat
        },
{
    let id = regs[i].id;
    assert(0 <= i < regs.len() && regs[i].id == id);
    let j = choose|j: int| 0 <= j < regs.len() && (#[trigger] regs[j]).id == id;
    assert(0 <= j < regs.len() && regs[j].id == id);
    if i < j {
        assert(regs[i].id != regs[j].id);
    } else if j < i {
        assert(regs[j].id != regs[i].id);
    }
    assert(j == i);
}

/// Rule-table soundness: every binding in the generated list resolves
/// through the promotion rule table — the table maps its operator and the
/// categories of its two sides to exactly its result — and its semantic
/// call is the one its operator routes to.
pub proof fn lemma_bindings_respect_table(regs: Seq<Registration>, b: Binding)
    requires
        all_well_formed(regs),
        distinct_ids(regs),
        spec_generate(regs).contains(b),
    ensures
        spec_promote(b.op, spec_side_category(regs, b.left), spec_side_category(regs, b.right))
            == Some(b.result),
        b.call == call_of(b.op),
{
    lemma_generate_membership(regs, b);
    let i = choose|i: int| 0 <= i < regs.len() && #[trigger] pass_emits(regs, i, b);
    let t = side_of(regs[i]);
    lemma_side_category_of_registered(regs, i);
    if exists|u: Side| #[trigger] is_element_partner(regs, i, u) && emitted_by_element_ops(t, u, b) {
        let u = choose|u: Side|
            #[trigger] is_element_partner(regs, i, u) && emitted_by_element_ops(t, u, b);
    } else {
        assert(regs[i].claims_atom);
        let u = choose|u: Side|
            #[trigger] is_union_partner(regs, i, u) && emitted_by_union_ops(t, u, b);
        assert(spec_side_category(regs, t) is AtomCat);
        if u is Char {
        } else {
            let j = choose|j: int|
                0 <= j < regs.len() && j != i && (#[trigger] regs[j]).claims_atom && u == side_of(
                    regs[j],
                );
            lemma_side_category_of_registered(regs, j);
            assert(spec_side_category(regs, u) is AtomCat);
        }
    }
}

} // verus!

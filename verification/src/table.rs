//! The category registry's membership queries and the promotion rule table:
//! the pure function that maps an operator and the categories of its two
//! operands to the promoted result, or to "not offered".

use crate::model::{Operator, Registration, ResultCategory, Side};
use vstd::prelude::*;

verus! {

/// The category a binding side occupies when the rule table is consulted:
/// one of the two concrete categories for a registered type, one category
/// per primitive stand-in, and one for the composite result type `Rec`.
#[derive(Clone, Copy, Debug, PartialEq, Eq, Structural)]
pub enum SideCategory {
    AtomCat,
    ComponentCat,
    CharCat,
    StrViewCat,
    OwnedStrCat,
    RecCat,
}

/// The `Element` capability.  Every side category in this closed vocabulary
/// satisfies it: both concrete categories, the three primitive stand-ins,
/// and the composite `Rec`; so the `Element`-row lookups of the rule table
/// are total.
pub open spec fn cat_is_element(c: SideCategory) -> bool {
    ||| c is AtomCat
    ||| c is ComponentCat
    ||| c is CharCat
    ||| c is StrViewCat
    ||| c is OwnedStrCat
    ||| c is RecCat
}

/// Atom-likeness as the union operator sees it: the concrete `Atom`
/// category, and — as a deliberate, narrow exception — the `char` stand-in.
/// The other primitives and `Rec` are not atom-like, so union is never
/// offered to them.
pub open spec fn cat_is_atom_for_union(c: SideCategory) -> bool {
    c is AtomCat || c is CharCat
}

/// The promotion rule table.  One row per operator: concatenation and
/// alternation take any two `Element`s to `Rec`; union takes two atom-like
/// operands to `Ch` and is otherwise not offered; the equality test takes
/// any two `Element`s to a boolean.  `None` means the pairing is not
/// offered, which the enumerator skips silently.
pub open spec fn spec_promote(op: Operator, l: SideCategory, r: SideCategory) -> Option<ResultCategory> {
    match op {
        Operator::Concatenate => if cat_is_element(l) && cat_is_element(r) {
            Some(ResultCategory::Rec)
        } else {
            None
        },
        Operator::Alternate => if cat_is_element(l) && cat_is_element(r) {
            Some(ResultCategory::Rec)
        } else {
            None
        },
        Operator::Union => if cat_is_atom_for_union(l) && cat_is_atom_for_union(r) {
            Some(ResultCategory::Ch)
        } else {
            None
        },
        Operator::EqualityTest => if cat_is_element(l) && cat_is_element(r) {
            Some(ResultCategory::Truth)
        } else {
            None
        },
    }
}

/// Consults the promotion rule table.
pub fn promote(op: Operator, l: SideCategory, r: SideCategory) -> (res: Option<ResultCategory>)
    ensures
        res == spec_promote(op, l, r),
{
    match op {
        Operator::Concatenate => Some(ResultCategory::Rec),
        Operator::Alternate => Some(ResultCategory::Rec),
        Operator::Union => {
            let l_ok = match l {
                SideCategory::AtomCat => true,
                SideCategory::CharCat => true,
                _ => false,
            };
            let r_ok = match r {
                SideCategory::AtomCat => true,
                SideCategory::CharCat => true,
                _ => false,
            };
            if l_ok && r_ok {
                Some(ResultCategory::Ch)
            } else {
                None
            }
        },
        Operator::EqualityTest => Some(ResultCategory::Truth),
    }
}

/// The identifier is that of some registration in the sequence.
pub open spec fn id_registered(regs: Seq<Registration>, id: u64) -> bool {
    exists|j: int| 0 <= j < regs.len() && (#[trigger] regs[j]).id == id
}

/// The identifier is that of some registration claiming the `Atom` category.
pub open spec fn id_registered_atom(regs: Seq<Registration>, id: u64) -> bool {
    exists|j: int| 0 <= j < regs.len() && (#[trigger] regs[j]).id == id && regs[j].claims_atom
}

/// The category a side occupies when the rule table is consulted.  For a
/// registered side this is meaningful when the identifier is registered and
/// identifiers are distinct, which pins the chosen registration down.
pub open spec fn spec_side_category(regs: Seq<Registration>, s: Side) -> SideCategory {
    match s {
        Side::Registered(id) => {
            let j = choose|j: int| 0 <= j < regs.len() && (#[trigger] regs[j]).id == id;
            if regs[j].claims_atom {
                SideCategory::AtomCat
            } else {
                SideCategory::ComponentCat
            }
        },
        Side::Char => SideCategory::CharCat,
        Side::StrView => SideCategory::StrViewCat,
        Side::OwnedStr => SideCategory::OwnedStrCat,
        Side::Rec => SideCategory::RecCat,
    }
}

/// Finds the first registration carrying the identifier.
pub fn find_registration(regs: &Vec<Registration>, id: u64) -> (r: Option<usize>)
    ensures
        match r {
            Some(k) => k < regs@.len() && regs@[k as int].id == id && forall|j: int|
                0 <= j < k ==> (#[trigger] regs@[j]).id != id,
            None => !id_registered(regs@, id),
        },
{
    let mut k: usize = 0;
    while k < regs.len()
        invariant
            k <= regs@.len(),
            forall|j: int| 0 <= j < k ==> (#[trigger] regs@[j]).id != id,
        decreases regs@.len() - k,
    {
        if regs[k].id == id {
            return Some(k);
        }
        k = k + 1;
    }
    None
}

/// The registry's `Element` membership query: true for every registered
/// concrete type, for the three primitive stand-ins, and for the composite
/// `Rec`; false for an identifier nothing registered.
pub fn is_element(regs: &Vec<Registration>, s: Side) -> (r: bool)
    ensures
        r == match s {
            Side::Registered(id) => id_registered(regs@, id),
            _ => true,
        },
{
    match s {
        Side::Registered(id) => {
            let found = find_registration(regs, id);
            match found {
                Some(k) => {
                    assert(id_registered(regs@, id));
                    true
                },
                None => false,
            }
        },
        _ => true,
    }
}

/// The registry's `Atom` membership query: true for a registered type that
/// claims the `Atom` category and, only when consulted for the union
/// operator, for the `char` stand-in.
pub fn is_atom(regs: &Vec<Registration>, s: Side, union_context: bool) -> (r: bool)
    ensures
        r == match s {
            Side::Registered(id) => id_registered_atom(regs@, id),
            Side::Char => union_context,
            _ => false,
        },
{
    match s {
        Side::Registered(id) => {
            let mut k: usize = 0;
            while k < regs.len()
                invariant
                    k <= regs@.len(),
                    s == Side::Registered(id),
                    forall|j: int| 0 <= j < k ==> !((#[trigger] regs@[j]).id == id
                        && regs@[j].claims_atom),
                decreases regs@.len() - k,
            {
                if regs[k].id == id && regs[k].claims_atom {
                    assert(id_registered_atom(regs@, id));
                    return true;
                }
                k = k + 1;
            }
            false
        },
        Side::Char => union_context,
        _ => false,
    }
}

} // verus!

//! What the emitted type declaration holds: the part of emission that decides.
use vstd::prelude::*;
use crate::layout::{StructureItem, WireType};
use crate::rstruct::{Capability, RStruct};

verus! {

/// A member of the emitted type: a scalar of `ty`, or a list of `ty` elements.
#[derive(Debug, Clone, PartialEq, Eq)]
pub struct Member {
    pub name: String,
    pub ty: WireType,
    pub is_list: bool,
}

pub open spec fn member_view(m: Member) -> (Seq<char>, Seq<char>, bool) {
    (m.name@, m.ty.name@, m.is_list)
}

/// The members that a structure keeps: fields and lists, in item order.
pub open spec fn kept_members(items: Seq<StructureItem>) -> Seq<(Seq<char>, Seq<char>, bool)>
    decreases items.len(),
{
    if items.len() == 0 {
        seq![]
    } else {
        let prev = kept_members(items.drop_last());
        match items.last() {
            StructureItem::Field { name, ty } => prev.push((name@, ty.name@, false)),
            StructureItem::List(l) => prev.push((l.name@, l.ty.name@, true)),
            _ => prev,
        }
    }
}

/// The type declaration of a generated structure.
#[derive(Debug, Clone, PartialEq, Eq)]
pub struct Declaration {
    pub name: String,
    /// Whether the type is marked as having its one member's representation.
    pub transparent: bool,
    /// The capabilities to derive, or none where there are none.
    pub derives: Option<Vec<Capability>>,
    pub members: Vec<Member>,
}

/// Plan the type declaration of `s`: its name, its markers, and its members,
/// which leave out padding and length slots.
pub fn declaration_of(s: &RStruct) -> (d: Declaration)
    ensures
        d.name@ == s.name@,
        d.transparent == s.is_transparent,
        match d.derives {
            Some(v) => s.derives@.len() > 0 && v@ == s.derives@,
            None => s.derives@.len() == 0,
        },
        d.members@.map_values(|m: Member| member_view(m)) == kept_members(s.fields@),
{
    let ghost items = s.fields@;
    let mut members: Vec<Member> = Vec::new();
    let n = s.fields.len();
    let mut i: usize = 0;
    while i < n
        invariant
            n == items.len(),
            items == s.fields@,
            i <= n,
            members@.map_values(|m: Member| member_view(m)) == kept_members(items.subrange(0, i as int)),
        decreases n - i,
    {
        assert(items.subrange(0, i + 1).drop_last() == items.subrange(0, i as int));
        match &s.fields[i] {
            StructureItem::Field { name, ty } => {
                members.push(Member { name: name.clone(), ty: ty.duplicate(), is_list: false });
            },
            StructureItem::List(l) => {
                members.push(Member { name: l.name.clone(), ty: l.ty.duplicate(), is_list: true });
            },
            _ => {},
        }
        assert(members@.map_values(|m: Member| member_view(m)) =~= kept_members(items.subrange(0, i + 1)));
        i = i + 1;
    }
    assert(items.subrange(0, n as int) == items);
    let derives = if s.derives.len() == 0 {
        None
    } else {
        let mut v: Vec<Capability> = Vec::new();
        let mut j: usize = 0;
        while j < s.derives.len()
            invariant
                j <= s.derives@.len(),
                v@ == s.derives@.subrange(0, j as int),
            decreases s.derives@.len() - j,
        {
            v.push(s.derives[j]);
            j = j + 1;
            assert(v@ =~= s.derives@.subrange(0, j as int));
        }
        assert(s.derives@.subrange(0, j as int) == s.derives@);
        Some(v)
    };
    Declaration { name: s.name.clone(), transparent: s.is_transparent, derives, members }
}

} // verus!

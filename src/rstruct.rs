//! The generated structure: classification, naming and ASB population.
use vstd::prelude::*;
use crate::asb::{
    defect_at, kept_names, pending, read_plan, read_stmt_for, size_plan, slots_before,
    slots_resolved, write_plan, Asb, LenSource, ReadStatement, SizeSumPart, VarName,
    WriteStatement,
};
use crate::layout::{ListLength, Message, StructSpecial, StructureItem};

verus! {

/// A capability that a generated structure advertises.
#[derive(PartialEq, Eq, Structural, Clone, Copy, Debug)]
pub enum Capability {
    Clone,
    Debug,
    Default,
}

/// The type that a request's reply decodes into.
#[derive(Debug, Clone, PartialEq, Eq)]
pub enum ReplyType {
    Named(String),
    NoReply,
}

/// A kind-specific trait obligation of a generated structure.
#[derive(Debug, Clone, PartialEq, Eq)]
pub enum Trait {
    Event(u8),
    Error(u8),
    Request(u8, ReplyType),
}

/// What a trait obligation says, with names as character sequences.
pub enum TraitSpec {
    Event(u8),
    Error(u8),
    Request(u8, Option<Seq<char>>),
}

pub open spec fn trait_view(t: Trait) -> TraitSpec {
    match t {
        Trait::Event(o) => TraitSpec::Event(o),
        Trait::Error(o) => TraitSpec::Error(o),
        Trait::Request(o, ReplyType::Named(n)) => TraitSpec::Request(o, Some(n@)),
        Trait::Request(o, ReplyType::NoReply) => TraitSpec::Request(o, None),
    }
}

/// An inherent operation of a generated structure.
#[derive(Debug, Clone, PartialEq, Eq)]
pub struct Method {
    pub name: String,
}

/// A generated structure, ready to be emitted.
#[derive(Debug, Clone, PartialEq, Eq)]
pub struct RStruct {
    pub name: String,
    pub derives: Vec<Capability>,
    pub is_transparent: bool,
    pub fields: Vec<StructureItem>,
    pub methods: Vec<Method>,
    pub traits: Vec<Trait>,
    pub asb: Asb,
}

/// A length slot whose list was never found in the scratch table.
#[derive(Debug, Clone, PartialEq, Eq)]
pub struct LengthDefect {
    pub list: String,
}

/// The scratch table `t` holds exactly the entries of `m`, each key once.
pub open spec fn table_is(t: Seq<(String, usize)>, m: Map<Seq<char>, nat>) -> bool {
    &&& forall|i: int, j: int|
        0 <= i < t.len() && 0 <= j < t.len() && #[trigger] t[i].0@ == #[trigger] t[j].0@ ==> i == j
    &&& forall|i: int| 0 <= i < t.len() ==> #[trigger] m.contains_key(t[i].0@) && m[t[i].0@]
        == t[i].1 as nat
    &&& forall|k: Seq<char>| #[trigger]
        m.contains_key(k) ==> exists|i: int| 0 <= i < t.len() && t[i].0@ == k
}

fn find_key(t: &Vec<(String, usize)>, key: &String) -> (r: Option<usize>)
    ensures
        match r {
            Some(i) => i < t@.len() && t@[i as int].0@ == key@,
            None => forall|i: int| 0 <= i < t@.len() ==> t@[i].0@ != key@,
        },
{
    let mut j: usize = 0;
    while j < t.len()
        invariant
            j <= t@.len(),
            forall|i: int| 0 <= i < j ==> t@[i].0@ != key@,
        decreases t@.len() - j,
    {
        if t[j].0 == *key {
            return Some(j);
        }
        j = j + 1;
    }
    None
}

/// Record that the slot for `key` is held by temporary `k`.
fn table_insert(t: &mut Vec<(String, usize)>, key: &String, k: usize, Ghost(m): Ghost<
    Map<Seq<char>, nat>,
>)
    requires
        table_is(old(t)@, m),
    ensures
        table_is(final(t)@, m.insert(key@, k as nat)),
{
    let ghost pos: int;
    match find_key(t, key) {
        Some(i) => {
            t.set(i, (key.clone(), k));
            proof {
                pos = i as int;
            }
        },
        None => {
            t.push((key.clone(), k));
            proof {
                pos = old(t)@.len() as int;
            }
        },
    }
    let ghost m2 = m.insert(key@, k as nat);
    assert(t@[pos].0@ == key@);
    assert forall|q: Seq<char>| #[trigger] m2.contains_key(q) implies exists|i: int|
        0 <= i < t@.len() && t@[i].0@ == q by {
        if q != key@ {
            let i = choose|i: int| 0 <= i < old(t)@.len() && old(t)@[i].0@ == q;
            assert(i != pos);
            assert(t@[i].0@ == q);
        } else {
            assert(t@[pos].0@ == q);
        }
    }
    assert forall|a: int, b: int|
        0 <= a < t@.len() && 0 <= b < t@.len() && #[trigger] t@[a].0@ == #[trigger] t@[b].0@
        implies a == b by {
        if a != pos && b != pos {
            assert(old(t)@[a].0@ == old(t)@[b].0@);
        }
    }
    assert forall|a: int| 0 <= a < t@.len() implies #[trigger] m2.contains_key(t@[a].0@)
        && m2[t@[a].0@] == t@[a].1 as nat by {
        if a != pos {
            assert(old(t)@[a] == t@[a]);
            assert(m.contains_key(old(t)@[a].0@));
        }
    }
}

/// Take the temporary recorded for `key` out of the table, if there is one.
fn table_take(t: &mut Vec<(String, usize)>, key: &String, Ghost(m): Ghost<Map<Seq<char>, nat>>) -> (r:
    Option<usize>)
    requires
        table_is(old(t)@, m),
    ensures
        match r {
            Some(k) => m.contains_key(key@) && m[key@] == k as nat && table_is(
                final(t)@,
                m.remove(key@),
            ),
            None => !m.contains_key(key@) && final(t)@ == old(t)@,
        },
{
    match find_key(t, key) {
        Some(i) => {
            assert(m.contains_key(old(t)@[i as int].0@));
            let (_, k) = t.remove(i);
            let ghost m2 = m.remove(key@);
            assert forall|q: Seq<char>| #[trigger] m2.contains_key(q) implies exists|j: int|
                0 <= j < t@.len() && t@[j].0@ == q by {
                let j = choose|j: int| 0 <= j < old(t)@.len() && old(t)@[j].0@ == q;
                if j < i {
                    assert(t@[j].0@ == q);
                } else {
                    assert(j != i);
                    assert(t@[j - 1].0@ == q);
                }
            }
            assert forall|a: int, b: int|
                0 <= a < t@.len() && 0 <= b < t@.len() && #[trigger] t@[a].0@ == #[trigger] t@[b].0@
                implies a == b by {
                let a2 = if a < i { a } else { a + 1 };
                let b2 = if b < i { b } else { b + 1 };
                assert(old(t)@[a2].0@ == old(t)@[b2].0@);
            }
            assert forall|a: int| 0 <= a < t@.len() implies #[trigger] m2.contains_key(t@[a].0@)
                && m2[t@[a].0@] == t@[a].1 as nat by {
                let a2 = if a < i { a } else { a + 1 };
                assert(old(t)@[a2] == t@[a]);
                assert(a2 != i);
                assert(m.contains_key(old(t)@[a2].0@));
                if old(t)@[a2].0@ == old(t)@[i as int].0@ {
                    assert(a2 == i);
                }
            }
            Some(k)
        },
        None => {
            proof {
                if m.contains_key(key@) {
                    let j = choose|j: int| 0 <= j < t@.len() && t@[j].0@ == key@;
                    assert(false);
                }
            }
            None
        },
    }
}

/// `b` is `a` with at most its ASB descriptor changed.
pub open spec fn same_but_asb(a: RStruct, b: RStruct) -> bool {
    &&& a.name == b.name
    &&& a.derives == b.derives
    &&& a.is_transparent == b.is_transparent
    &&& a.fields == b.fields
    &&& a.methods == b.methods
    &&& a.traits == b.traits
}

impl RStruct {
    /// Fill in the whole ASB descriptor: both instruction sequences, then the
    /// size sum with one term per item. Fails where the read sequence does.
    pub fn populate_asb(&mut self) -> (r: Result<(), LengthDefect>)
        ensures
            same_but_asb(*final(self), *old(self)),
            write_plan(final(self).asb.as_bytes_stmts@, old(self).fields@),
            r is Ok <==> slots_resolved(old(self).fields@),
            match r {
                Ok(_) => read_plan(
                    final(self).asb.from_bytes_stmts@,
                    old(self).fields@,
                    old(self).name@,
                ) && size_plan(final(self).asb.size@, old(self).fields@),
                Err(e) => exists|n: int|
                    #[trigger] defect_at(old(self).fields@, n) && e.list@ == old(
                        self,
                    ).fields@[n]->List_0.name@ && forall|m: int|
                        0 <= m < n ==> !defect_at(old(self).fields@, m),
            },
    {
        self.populate_as_bytes();
        match self.populate_from_bytes() {
            Ok(()) => {},
            Err(e) => {
                return Err(e);
            },
        }
        let ghost items = self.fields@;
        let mut size: Vec<SizeSumPart> = Vec::new();
        let n = self.fields.len();
        let mut i: usize = 0;
        while i < n
            invariant
                n == items.len(),
                items == self.fields@,
                i <= n,
                size@.len() == i,
                forall|j: int| 0 <= j < i ==> #[trigger] crate::asb::size_part_for(size@[j], items[j]),
            decreases n - i,
        {
            let part = match &self.fields[i] {
                StructureItem::Field { name, .. } => SizeSumPart::SizeofField(name.clone()),
                StructureItem::Padding { bytes } => SizeSumPart::Bytes(*bytes),
                StructureItem::List(l) => SizeSumPart::ListTimesSize(l.name.clone(), l.ty.duplicate(), l.padding),
                StructureItem::LenSlot { ty, .. } => SizeSumPart::SizeofType(ty.duplicate()),
            };
            size.push(part);
            i = i + 1;
        }
        self.asb.size = size;
        Ok(())
    }

    /// Fill in the write sequence: start the cursor, one step per item, return
    /// the cursor. A length slot writes its list's current element count.
    pub fn populate_as_bytes(&mut self)
        ensures
            same_but_asb(*final(self), *old(self)),
            final(self).asb.size == old(self).asb.size,
            final(self).asb.from_bytes_stmts == old(self).asb.from_bytes_stmts,
            write_plan(final(self).asb.as_bytes_stmts@, old(self).fields@),
    {
        let ghost items = self.fields@;
        let mut stmts: Vec<WriteStatement> = Vec::new();
        stmts.push(WriteStatement::CreateIndex);
        let n = self.fields.len();
        let mut i: usize = 0;
        while i < n
            invariant
                n == items.len(),
                items == self.fields@,
                i <= n,
                stmts@.len() == i + 1,
                stmts@[0] == WriteStatement::CreateIndex,
                forall|j: int| 0 <= j < i ==> #[trigger] crate::asb::write_stmt_for(stmts@[j + 1], items[j]),
            decreases n - i,
        {
            let st = match &self.fields[i] {
                StructureItem::Field { name, .. } => WriteStatement::AppendField(name.clone()),
                StructureItem::Padding { bytes } => WriteStatement::Pad(*bytes),
                StructureItem::LenSlot { ty, owning_list } => WriteStatement::AppendLength {
                    list: owning_list.clone(),
                    ty: ty.duplicate(),
                },
                StructureItem::List(l) => WriteStatement::AsBytesList {
                    name: l.name.clone(),
                    ty: l.ty.duplicate(),
                    pad: l.padding,
                },
            };
            stmts.push(st);
            i = i + 1;
        }
        stmts.push(WriteStatement::ReturnIndex);
        self.asb.as_bytes_stmts = stmts;
    }

    /// Fill in the read sequence: one step per item, with each list that names
    /// a length slot reading its count from the temporary of that slot.
    /// Fails, changing nothing, at the first list whose slot was never read.
    /// A slot that no list uses is still read, so that the cursor moves past
    /// it, and its temporary is then left unused: that is not a defect here.
    pub fn populate_from_bytes(&mut self) -> (r: Result<(), LengthDefect>)
        ensures
            same_but_asb(*final(self), *old(self)),
            final(self).asb.size == old(self).asb.size,
            final(self).asb.as_bytes_stmts == old(self).asb.as_bytes_stmts,
            r is Ok <==> slots_resolved(old(self).fields@),
            match r {
                Ok(_) => read_plan(
                    final(self).asb.from_bytes_stmts@,
                    old(self).fields@,
                    old(self).name@,
                ),
                Err(e) => *final(self) == *old(self) && exists|n: int|
                    #[trigger] defect_at(old(self).fields@, n) && e.list@ == old(
                        self,
                    ).fields@[n]->List_0.name@ && forall|m: int|
                        0 <= m < n ==> !defect_at(old(self).fields@, m),
            },
    {
        let ghost items = self.fields@;
        let mut table: Vec<(String, usize)> = Vec::new();
        let mut counter: usize = 0;
        let mut stmts: Vec<ReadStatement> = Vec::new();
        let mut names: Vec<String> = Vec::new();
        stmts.push(ReadStatement::CreateIndex);
        let n = self.fields.len();
        let mut i: usize = 0;
        while i < n
            invariant
                n == items.len(),
                items == self.fields@,
                self == old(self),
                i <= n,
                counter <= i,
                counter as nat == slots_before(items, i as nat),
                table_is(table@, pending(items, i as nat)),
                stmts@.len() == i + 1,
                stmts@[0] == ReadStatement::CreateIndex,
                forall|j: int| 0 <= j < i ==> #[trigger] read_stmt_for(stmts@[j + 1], items, j),
                forall|j: int| 0 <= j < i ==> !#[trigger] defect_at(items, j),
                names@.map_values(|f: String| f@) == kept_names(items.subrange(0, i as int)),
            decreases n - i,
        {
            let ghost before = pending(items, i as nat);
            assert(items.subrange(0, i + 1).drop_last() == items.subrange(0, i as int));
            match &self.fields[i] {
                StructureItem::Field { name, ty } => {
                    stmts.push(ReadStatement::Load { var: VarName::Member(name.clone()), ty: ty.duplicate() });
                    names.push(name.clone());
                },
                StructureItem::Padding { bytes } => {
                    stmts.push(ReadStatement::Skip(*bytes));
                },
                StructureItem::LenSlot { ty, owning_list } => {
                    table_insert(&mut table, owning_list, counter, Ghost(before));
                    stmts.push(ReadStatement::Load { var: VarName::LenTemp(counter), ty: ty.duplicate() });
                    counter = counter + 1;
                },
                StructureItem::List(l) => {
                    let len = match &l.list_length {
                        ListLength::SingleSlot(_) => match table_take(&mut table, &l.name, Ghost(before)) {
                            Some(k) => LenSource::Temp(k),
                            None => {
                                assert(defect_at(items, i as int));
                                return Err(LengthDefect { list: l.name.clone() });
                            },
                        },
                        ListLength::Expr(e) => LenSource::Expr(e.duplicate()),
                    };
                    stmts.push(ReadStatement::LoadList { name: l.name.clone(), ty: l.ty.duplicate(), len, pad: l.padding });
                    names.push(l.name.clone());
                },
            }
            assert(names@.map_values(|f: String| f@) =~= kept_names(items.subrange(0, i + 1)));
            i = i + 1;
        }
        assert(items.subrange(0, n as int) == items);
        stmts.push(ReadStatement::ReturnStruct { sname: self.name.clone(), fields: names });
        self.asb.from_bytes_stmts = stmts;
        Ok(())
    }
}

/// The suffix that a message's kind adds to its name.
pub open spec fn name_suffix(m: Message, is_reply: bool) -> Seq<char> {
    if is_reply {
        "Reply"@
    } else {
        match m.special {
            StructSpecial::Regular => Seq::empty(),
            StructSpecial::Event(_) => "Event"@,
            StructSpecial::Error(_) => "Error"@,
            StructSpecial::Request(_, _) => "Request"@,
        }
    }
}

/// The trait obligations that a message's kind brings.
pub open spec fn expected_traits(m: Message, is_reply: bool) -> Seq<TraitSpec> {
    if is_reply {
        Seq::empty()
    } else {
        match m.special {
            StructSpecial::Regular => Seq::empty(),
            StructSpecial::Event(o) => seq![TraitSpec::Event(o)],
            StructSpecial::Error(o) => seq![TraitSpec::Error(o)],
            StructSpecial::Request(o, Some(rep)) => seq![TraitSpec::Request(o, Some(rep.name@ + "Reply"@))],
            StructSpecial::Request(o, None) => seq![TraitSpec::Request(o, None)],
        }
    }
}

/// `r` is the structure generated for `m`, not yet populated.
pub open spec fn classified(r: RStruct, m: Message, is_reply: bool) -> bool {
    &&& r.name@ == m.name@ + name_suffix(m, is_reply)
    &&& r.derives@ == seq![Capability::Clone, Capability::Debug, Capability::Default]
    &&& r.is_transparent == (m.fields@.len() == 1)
    &&& r.fields == m.fields
    &&& r.methods@.len() == 0
    &&& r.traits@.map_values(|t: Trait| trait_view(t)) == expected_traits(m, is_reply)
    &&& r.asb.size@.len() == 0
    &&& r.asb.as_bytes_stmts@.len() == 0
    &&& r.asb.from_bytes_stmts@.len() == 0
}

/// Whether a message is a request that carries a reply.
pub open spec fn has_reply(m: Message) -> bool {
    m.special matches StructSpecial::Request(_, Some(_))
}

/// Classify and name a message. A request with a reply also yields the
/// structure of its reply, named with the suffix "Reply" and with no trait.
pub fn from_lvl2(s: Message, is_reply: bool) -> (r: (RStruct, Option<RStruct>))
    ensures
        classified(r.0, s, is_reply),
        r.1 is Some <==> (!is_reply && has_reply(s)),
        match (r.1, s.special) {
            (Some(x), StructSpecial::Request(_, Some(rep))) => classified(x, *rep, true),
            _ => true,
        },
    decreases if is_reply { 0int } else { 1int },
{
    let Message { name, brief: _, desc: _, fields, special } = s;
    let mut traits: Vec<Trait> = Vec::new();
    let mut name = name;
    let other: Option<RStruct> = if is_reply {
        name = name.concat("Reply");
        None
    } else {
        match special {
            StructSpecial::Regular => {
                assert(name@ + Seq::<char>::empty() =~= name@);
                None
            },
            StructSpecial::Event(opcode) => {
                traits.push(Trait::Event(opcode));
                name = name.concat("Event");
                None
            },
            StructSpecial::Error(opcode) => {
                traits.push(Trait::Error(opcode));
                name = name.concat("Error");
                None
            },
            StructSpecial::Request(opcode, reply) => {
                let reply_ty = match &reply {
                    Some(rep) => ReplyType::Named(rep.name.clone().concat("Reply")),
                    None => ReplyType::NoReply,
                };
                traits.push(Trait::Request(opcode, reply_ty));
                name = name.concat("Request");
                match reply {
                    Some(rep) => {
                        let (rs, _) = from_lvl2(*rep, true);
                        Some(rs)
                    },
                    None => None,
                }
            },
        }
    };
    assert(traits@.map_values(|t: Trait| trait_view(t)) =~= expected_traits(s, is_reply));
    let res = RStruct {
        name,
        derives: vec![Capability::Clone, Capability::Debug, Capability::Default],
        is_transparent: fields.len() == 1,
        fields,
        methods: Vec::new(),
        traits,
        asb: Asb::new(),
    };
    (res, other)
}

} // verus!

//! The size expression and the instruction sequences of a generated structure.
use vstd::prelude::*;
use crate::layout::{same_expr, same_type, LengthExpr, ListLength, StructureItem, WireType};

verus! {

/// One term of a size sum.
#[derive(Debug, Clone, PartialEq, Eq)]
pub enum SizeSumPart {
    /// A literal number of bytes.
    Bytes(u64),
    /// The size of the named field's value.
    SizeofField(String),
    /// The size of a type.
    SizeofType(WireType),
    /// The named list's current length times its element size, plus padding.
    ListTimesSize(String, WireType, u64),
}

/// A variable that the reading code binds.
#[derive(Debug, Clone, PartialEq, Eq)]
pub enum VarName {
    /// A member of the structure.
    Member(String),
    /// The k-th temporary that holds a length slot's value.
    LenTemp(usize),
}

/// Where a list being read takes its element count from.
#[derive(Debug, Clone, PartialEq, Eq)]
pub enum LenSource {
    /// A length-slot temporary.
    Temp(usize),
    /// A length expression, evaluated directly.
    Expr(LengthExpr),
}

/// One step of the code that writes a structure to bytes.
#[derive(Debug, Clone, PartialEq, Eq)]
pub enum WriteStatement {
    /// Start the cursor at zero.
    CreateIndex,
    /// Append the named field's bytes and advance.
    AppendField(String),
    /// Append this many zero bytes and advance.
    Pad(u64),
    /// Append the current element count of the list `list` as a `ty` and advance.
    AppendLength { list: String, ty: WireType },
    /// Append each element of the named list, then `pad` zero bytes.
    AsBytesList { name: String, ty: WireType, pad: u64 },
    /// Return the cursor: the number of bytes written.
    ReturnIndex,
}

/// One step of the code that reads a structure from bytes.
#[derive(Debug, Clone, PartialEq, Eq)]
pub enum ReadStatement {
    /// Start the cursor at zero.
    CreateIndex,
    /// Read a value of `ty` at the cursor into `var` and advance by its size.
    Load { var: VarName, ty: WireType },
    /// Advance the cursor past this many unused bytes.
    Skip(u64),
    /// Read `len` elements of `ty` into the list `name`, then skip `pad` bytes.
    LoadList { name: String, ty: WireType, len: LenSource, pad: u64 },
    /// Build the structure `sname` from its bound members, with the cursor.
    ReturnStruct { sname: String, fields: Vec<String> },
}

/// The size expression and both instruction sequences of a structure.
#[derive(Debug, Clone, PartialEq, Eq)]
pub struct Asb {
    pub size: Vec<SizeSumPart>,
    pub as_bytes_stmts: Vec<WriteStatement>,
    pub from_bytes_stmts: Vec<ReadStatement>,
}

impl Asb {
    pub fn new() -> (r: Asb)
        ensures
            r.size@.len() == 0,
            r.as_bytes_stmts@.len() == 0,
            r.from_bytes_stmts@.len() == 0,
    {
        Asb { size: Vec::new(), as_bytes_stmts: Vec::new(), from_bytes_stmts: Vec::new() }
    }
}

/// The size term that stands for an item.
pub open spec fn size_part_for(p: SizeSumPart, it: StructureItem) -> bool {
    match it {
        StructureItem::Field { name, .. } => p matches SizeSumPart::SizeofField(n) && n@ == name@,
        StructureItem::Padding { bytes } => p == SizeSumPart::Bytes(bytes),
        StructureItem::LenSlot { ty, .. } => p matches SizeSumPart::SizeofType(t) && same_type(t, ty),
        StructureItem::List(l) => p matches SizeSumPart::ListTimesSize(n, t, pad)
            && n@ == l.name@ && same_type(t, l.ty) && pad == l.padding,
    }
}

/// The write step that stands for an item.
pub open spec fn write_stmt_for(s: WriteStatement, it: StructureItem) -> bool {
    match it {
        StructureItem::Field { name, .. } => s matches WriteStatement::AppendField(n) && n@ == name@,
        StructureItem::Padding { bytes } => s == WriteStatement::Pad(bytes),
        StructureItem::LenSlot { ty, owning_list } => s matches WriteStatement::AppendLength {
            list,
            ty: t,
        } && list@ == owning_list@ && same_type(t, ty),
        StructureItem::List(l) => s matches WriteStatement::AsBytesList { name, ty, pad }
            && name@ == l.name@ && same_type(ty, l.ty) && pad == l.padding,
    }
}

/// A whole write sequence for `items`: start, one step per item, return.
pub open spec fn write_plan(stmts: Seq<WriteStatement>, items: Seq<StructureItem>) -> bool {
    &&& stmts.len() == items.len() + 2
    &&& stmts[0] == WriteStatement::CreateIndex
    &&& stmts.last() == WriteStatement::ReturnIndex
    &&& forall|i: int| 0 <= i < items.len() ==> #[trigger] write_stmt_for(stmts[i + 1], items[i])
}

/// A whole size sum for `items`: one term per item.
pub open spec fn size_plan(parts: Seq<SizeSumPart>, items: Seq<StructureItem>) -> bool {
    &&& parts.len() == items.len()
    &&& forall|i: int| 0 <= i < items.len() ==> #[trigger] size_part_for(parts[i], items[i])
}

/// Whether a list takes its count from a length slot.
pub open spec fn uses_slot(it: StructureItem) -> bool {
    it matches StructureItem::List(l) && l.list_length is SingleSlot
}

/// The number of length slots among the first `n` items: the index of the
/// temporary that a slot at position `n` gets.
pub open spec fn slots_before(items: Seq<StructureItem>, n: nat) -> nat
    decreases n,
{
    if n == 0 || n > items.len() {
        0
    } else {
        slots_before(items, (n - 1) as nat) + if items[n - 1] is LenSlot { 1nat } else { 0nat }
    }
}

/// The scratch table after reading the first `n` items: for each list whose
/// slot was read and not yet used, the index of the temporary that holds it.
pub open spec fn pending(items: Seq<StructureItem>, n: nat) -> Map<Seq<char>, nat>
    decreases n,
{
    if n == 0 || n > items.len() {
        Map::empty()
    } else {
        let prev = pending(items, (n - 1) as nat);
        match items[n - 1] {
            StructureItem::LenSlot { owning_list, .. } => prev.insert(
                owning_list@,
                slots_before(items, (n - 1) as nat),
            ),
            StructureItem::List(l) => if l.list_length is SingleSlot {
                prev.remove(l.name@)
            } else {
                prev
            },
            _ => prev,
        }
    }
}

/// Item `n` is a list that names a length slot which no earlier item left for it.
pub open spec fn defect_at(items: Seq<StructureItem>, n: int) -> bool {
    0 <= n < items.len() && uses_slot(items[n]) && !pending(items, n as nat).contains_key(
        items[n]->List_0.name@,
    )
}

/// Every list that names a length slot finds one.
pub open spec fn slots_resolved(items: Seq<StructureItem>) -> bool {
    forall|n: int| !#[trigger] defect_at(items, n)
}

/// The read step that stands for item `i`.
pub open spec fn read_stmt_for(s: ReadStatement, items: Seq<StructureItem>, i: int) -> bool {
    match items[i] {
        StructureItem::Field { name, ty } => s matches ReadStatement::Load { var, ty: t }
            && var matches VarName::Member(n) && n@ == name@ && same_type(t, ty),
        StructureItem::Padding { bytes } => s == ReadStatement::Skip(bytes),
        StructureItem::LenSlot { ty, .. } => s matches ReadStatement::Load { var, ty: t }
            && var == VarName::LenTemp(slots_before(items, i as nat) as usize)
            && same_type(t, ty),
        StructureItem::List(l) => s matches ReadStatement::LoadList { name, ty, len, pad }
            && name@ == l.name@ && same_type(ty, l.ty) && pad == l.padding && match l.list_length {
            ListLength::SingleSlot(_) => len == LenSource::Temp(
                pending(items, i as nat)[l.name@] as usize,
            ),
            ListLength::Expr(e) => len matches LenSource::Expr(e2) && same_expr(e2, e),
        },
    }
}

/// The names of the members that the generated structure keeps, in order.
pub open spec fn kept_names(items: Seq<StructureItem>) -> Seq<Seq<char>>
    decreases items.len(),
{
    if items.len() == 0 {
        seq![]
    } else {
        let prev = kept_names(items.drop_last());
        match items.last() {
            StructureItem::Field { name, .. } => prev.push(name@),
            StructureItem::List(l) => prev.push(l.name@),
            _ => prev,
        }
    }
}

/// A whole read sequence for `items` into the structure `sname`.
pub open spec fn read_plan(
    stmts: Seq<ReadStatement>,
    items: Seq<StructureItem>,
    sname: Seq<char>,
) -> bool {
    &&& stmts.len() == items.len() + 2
    &&& stmts[0] == ReadStatement::CreateIndex
    &&& forall|i: int| 0 <= i < items.len() ==> #[trigger] read_stmt_for(stmts[i + 1], items, i)
    &&& stmts.last() matches ReadStatement::ReturnStruct { sname: n, fields }
        && n@ == sname && fields@.map_values(|f: String| f@) == kept_names(items)
}

} // verus!

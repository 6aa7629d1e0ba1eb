//! The layout model: the items of one message and its kind.
use vstd::prelude::*;

verus! {

/// A scalar wire type: its name in the generated code and its width in bytes.
#[derive(Debug, Clone, PartialEq, Eq)]
pub struct WireType {
    pub name: String,
    pub width: u64,
}

/// Two wire types with the same name and width.
pub open spec fn same_type(a: WireType, b: WireType) -> bool {
    a.name@ == b.name@ && a.width == b.width
}

impl WireType {
    pub fn new(name: &str, width: u64) -> (r: WireType)
        ensures
            r.name@ == name@,
            r.width == width,
    {
        WireType { name: String::from_str(name), width }
    }

    pub fn duplicate(&self) -> (r: WireType)
        ensures
            same_type(r, *self),
    {
        WireType { name: self.name.clone(), width: self.width }
    }
}

/// A list length that is computed from other parts of the message.
#[derive(Debug, Clone, PartialEq, Eq)]
pub enum LengthExpr {
    /// A fixed number of elements.
    Constant(u64),
    /// The value of an earlier field.
    FieldValue(String),
    /// As many elements as the rest of the input holds.
    Remaining,
}

/// Two length expressions that say the same thing.
pub open spec fn same_expr(a: LengthExpr, b: LengthExpr) -> bool {
    match (a, b) {
        (LengthExpr::Constant(x), LengthExpr::Constant(y)) => x == y,
        (LengthExpr::FieldValue(x), LengthExpr::FieldValue(y)) => x@ == y@,
        (LengthExpr::Remaining, LengthExpr::Remaining) => true,
        _ => false,
    }
}

impl LengthExpr {
    pub fn duplicate(&self) -> (r: LengthExpr)
        ensures
            same_expr(r, *self),
    {
        match self {
            LengthExpr::Constant(n) => LengthExpr::Constant(*n),
            LengthExpr::FieldValue(f) => LengthExpr::FieldValue(f.clone()),
            LengthExpr::Remaining => LengthExpr::Remaining,
        }
    }
}

/// How a list learns its element count.
#[derive(Debug, Clone, PartialEq, Eq)]
pub enum ListLength {
    /// From a single length slot, named here, that the list owns.
    SingleSlot(String),
    /// From an expression over constants, fields or the remaining input.
    Expr(LengthExpr),
}

/// A variable-length list member.
#[derive(Debug, Clone, PartialEq, Eq)]
pub struct List {
    pub name: String,
    pub ty: WireType,
    pub list_length: ListLength,
    pub padding: u64,
}

/// One element of a message's wire layout.
#[derive(Debug, Clone, PartialEq, Eq)]
pub enum StructureItem {
    /// A fixed-size member kept on the generated structure.
    Field { name: String, ty: WireType },
    /// Reserved bytes: zero on the wire, never a member.
    Padding { bytes: u64 },
    /// A wire-only scalar that carries the element count of `owning_list`.
    LenSlot { ty: WireType, owning_list: String },
    /// A variable-length member.
    List(List),
}

/// What kind of protocol entity a message is.
#[derive(Debug)]
pub enum StructSpecial {
    Regular,
    Event(u8),
    Error(u8),
    Request(u8, Option<Box<Message>>),
}

/// One protocol entity before code generation.
#[derive(Debug)]
pub struct Message {
    pub name: String,
    pub brief: Option<String>,
    pub desc: Option<String>,
    pub fields: Vec<StructureItem>,
    pub special: StructSpecial,
}

} // verus!

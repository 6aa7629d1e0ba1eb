use wire_codegen::asb::{LenSource, ReadStatement, SizeSumPart, VarName, WriteStatement};
use wire_codegen::emit::declaration_of;
use wire_codegen::layout::{
    LengthExpr, List, ListLength, Message, StructSpecial, StructureItem, WireType,
};
use wire_codegen::rstruct::{from_lvl2, Capability, RStruct, ReplyType, Trait};

fn ty(name: &str, width: u64) -> WireType {
    WireType { name: name.to_string(), width }
}

fn field(name: &str, t: WireType) -> StructureItem {
    StructureItem::Field { name: name.to_string(), ty: t }
}

fn message(name: &str, fields: Vec<StructureItem>, special: StructSpecial) -> Message {
    Message { name: name.to_string(), brief: None, desc: None, fields, special }
}

fn slot_list(name: &str, t: WireType) -> StructureItem {
    StructureItem::List(List {
        name: name.to_string(),
        ty: t,
        list_length: ListLength::SingleSlot(format!("{}_len", name)),
        padding: 0,
    })
}

fn len_slot(t: WireType, list: &str) -> StructureItem {
    StructureItem::LenSlot { ty: t, owning_list: list.to_string() }
}

fn populated(m: Message) -> RStruct {
    let (mut s, _) = from_lvl2(m, false);
    s.populate_asb().expect("every list finds its length slot");
    s
}

/// Bytes that a write sequence produces, for members of the given widths and
/// lists of the given lengths.
fn written_bytes(s: &RStruct, list_len: usize) -> Vec<u8> {
    let mut out = Vec::new();
    for st in &s.asb.as_bytes_stmts {
        match st {
            WriteStatement::AppendField(n) => {
                let w = s
                    .fields
                    .iter()
                    .find_map(|f| match f {
                        StructureItem::Field { name, ty } if name == n => Some(ty.width),
                        _ => None,
                    })
                    .unwrap();
                out.extend(std::iter::repeat(0xAB).take(w as usize));
            }
            WriteStatement::Pad(b) => out.extend(std::iter::repeat(0).take(*b as usize)),
            WriteStatement::AppendLength { ty, .. } => {
                let v = (list_len as u64).to_le_bytes();
                out.extend_from_slice(&v[..ty.width as usize]);
            }
            WriteStatement::AsBytesList { ty, pad, .. } => {
                out.extend(std::iter::repeat(0xCD).take(list_len * ty.width as usize));
                out.extend(std::iter::repeat(0).take(*pad as usize));
            }
            WriteStatement::CreateIndex | WriteStatement::ReturnIndex => {}
        }
    }
    out
}

fn size_total(s: &RStruct, list_len: u64) -> u64 {
    s.asb
        .size
        .iter()
        .map(|p| match p {
            SizeSumPart::Bytes(b) => *b,
            SizeSumPart::SizeofType(t) => t.width,
            SizeSumPart::SizeofField(n) => s
                .fields
                .iter()
                .find_map(|f| match f {
                    StructureItem::Field { name, ty } if name == n => Some(ty.width),
                    _ => None,
                })
                .unwrap(),
            SizeSumPart::ListTimesSize(_, t, pad) => list_len * t.width + pad,
        })
        .sum()
}

fn padded_pair() -> Message {
    message(
        "Pair",
        vec![
            field("a", ty("u32", 4)),
            StructureItem::Padding { bytes: 4 },
            field("b", ty("u16", 2)),
        ],
        StructSpecial::Regular,
    )
}

#[test]
fn regular_message_size_and_padding() {
    let s = populated(padded_pair());
    assert_eq!(s.name, "Pair");
    assert!(s.traits.is_empty());
    assert!(!s.is_transparent);
    assert_eq!(
        s.asb.size,
        vec![
            SizeSumPart::SizeofField("a".to_string()),
            SizeSumPart::Bytes(4),
            SizeSumPart::SizeofField("b".to_string()),
        ]
    );
    assert_eq!(size_total(&s, 0), 10);
    assert_eq!(
        s.asb.as_bytes_stmts,
        vec![
            WriteStatement::CreateIndex,
            WriteStatement::AppendField("a".to_string()),
            WriteStatement::Pad(4),
            WriteStatement::AppendField("b".to_string()),
            WriteStatement::ReturnIndex,
        ]
    );
    let bytes = written_bytes(&s, 0);
    assert_eq!(bytes.len(), 10);
    assert_eq!(&bytes[4..8], &[0, 0, 0, 0]);
}

#[test]
fn request_with_reply_splits_in_two() {
    let reply = message("GetValue", vec![field("value", ty("u32", 4))], StructSpecial::Regular);
    let m = message(
        "GetValue",
        vec![field("id", ty("u32", 4)), field("flags", ty("u8", 1))],
        StructSpecial::Request(5, Some(Box::new(reply))),
    );
    let (req, rep) = from_lvl2(m, false);
    assert_eq!(req.name, "GetValueRequest");
    assert_eq!(req.traits, vec![Trait::Request(5, ReplyType::Named("GetValueReply".to_string()))]);
    let rep = rep.expect("a reply structure");
    assert_eq!(rep.name, "GetValueReply");
    assert!(rep.is_transparent);
    assert!(rep.traits.is_empty());
}

#[test]
fn request_without_reply() {
    let m = message("Bell", vec![field("percent", ty("i8", 1))], StructSpecial::Request(104, None));
    let (req, rep) = from_lvl2(m, false);
    assert_eq!(req.name, "BellRequest");
    assert_eq!(req.traits, vec![Trait::Request(104, ReplyType::NoReply)]);
    assert!(rep.is_none());
}

#[test]
fn event_and_error_names_and_traits() {
    let (ev, none) = from_lvl2(message("KeyPress", vec![], StructSpecial::Event(2)), false);
    assert_eq!(ev.name, "KeyPressEvent");
    assert_eq!(ev.traits, vec![Trait::Event(2)]);
    assert!(none.is_none());
    let (er, _) = from_lvl2(message("Value", vec![], StructSpecial::Error(2)), false);
    assert_eq!(er.name, "ValueError");
    assert_eq!(er.traits, vec![Trait::Error(2)]);
    assert_eq!(er.derives, vec![Capability::Clone, Capability::Debug, Capability::Default]);
    assert!(er.methods.is_empty());
}

#[test]
fn reply_flag_overrides_kind() {
    let (r, other) = from_lvl2(message("Query", vec![], StructSpecial::Event(9)), true);
    assert_eq!(r.name, "QueryReply");
    assert!(r.traits.is_empty());
    assert!(other.is_none());
}

#[test]
fn classifying_twice_gives_the_same_result() {
    let mk = || {
        let reply = message("Q", vec![field("x", ty("u8", 1))], StructSpecial::Regular);
        message("Q", vec![], StructSpecial::Request(7, Some(Box::new(reply))))
    };
    let (a, ar) = from_lvl2(mk(), false);
    let (b, br) = from_lvl2(mk(), false);
    assert_eq!(a, b);
    assert_eq!(ar, br);
}

fn counted_items() -> Message {
    message(
        "Items",
        vec![len_slot(ty("u16", 2), "items"), slot_list("items", ty("u32", 4))],
        StructSpecial::Regular,
    )
}

#[test]
fn length_slot_resolves_list_count() {
    let s = populated(counted_items());
    assert_eq!(
        s.asb.from_bytes_stmts,
        vec![
            ReadStatement::CreateIndex,
            ReadStatement::Load { var: VarName::LenTemp(0), ty: ty("u16", 2) },
            ReadStatement::LoadList {
                name: "items".to_string(),
                ty: ty("u32", 4),
                len: LenSource::Temp(0),
                pad: 0,
            },
            ReadStatement::ReturnStruct {
                sname: "Items".to_string(),
                fields: vec!["items".to_string()],
            },
        ]
    );
    let bytes = written_bytes(&s, 3);
    assert_eq!(&bytes[0..2], &[3, 0]);
    assert_eq!(bytes.len(), 2 + 12);
    assert_eq!(size_total(&s, 3), 14);
}

#[test]
fn length_slot_writes_current_count() {
    let s = populated(counted_items());
    assert_eq!(
        s.asb.as_bytes_stmts[1],
        WriteStatement::AppendLength { list: "items".to_string(), ty: ty("u16", 2) }
    );
    let bytes = written_bytes(&s, 7);
    assert_eq!(&bytes[0..2], &[7, 0]);
}

#[test]
fn missing_length_slot_is_a_defect() {
    let m = message(
        "Broken",
        vec![field("a", ty("u8", 1)), slot_list("count", ty("u8", 1))],
        StructSpecial::Regular,
    );
    let (mut s, _) = from_lvl2(m, false);
    let err = s.populate_asb().unwrap_err();
    assert_eq!(err.list, "count");
    let (mut s2, _) = from_lvl2(
        message("Broken", vec![slot_list("count", ty("u8", 1))], StructSpecial::Regular),
        false,
    );
    assert!(s2.populate_from_bytes().is_err());
    assert!(s2.asb.from_bytes_stmts.is_empty());
}

#[test]
fn slot_after_its_list_is_a_defect() {
    let m = message(
        "Late",
        vec![slot_list("xs", ty("u8", 1)), len_slot(ty("u8", 1), "xs")],
        StructSpecial::Regular,
    );
    let (mut s, _) = from_lvl2(m, false);
    assert_eq!(s.populate_from_bytes().unwrap_err().list, "xs");
}

#[test]
fn a_slot_is_used_once() {
    let m = message(
        "Twice",
        vec![
            len_slot(ty("u8", 1), "xs"),
            slot_list("xs", ty("u8", 1)),
            slot_list("xs", ty("u8", 1)),
        ],
        StructSpecial::Regular,
    );
    let (mut s, _) = from_lvl2(m, false);
    assert!(s.populate_from_bytes().is_err());
}

#[test]
fn temporaries_are_numbered_in_order() {
    let m = message(
        "Two",
        vec![
            len_slot(ty("u8", 1), "xs"),
            len_slot(ty("u32", 4), "ys"),
            field("k", ty("u16", 2)),
            slot_list("ys", ty("u8", 1)),
            slot_list("xs", ty("u16", 2)),
        ],
        StructSpecial::Regular,
    );
    let s = populated(m);
    let st = &s.asb.from_bytes_stmts;
    assert_eq!(st[1], ReadStatement::Load { var: VarName::LenTemp(0), ty: ty("u8", 1) });
    assert_eq!(st[2], ReadStatement::Load { var: VarName::LenTemp(1), ty: ty("u32", 4) });
    assert!(matches!(&st[4], ReadStatement::LoadList { len: LenSource::Temp(1), .. }));
    assert!(matches!(&st[5], ReadStatement::LoadList { len: LenSource::Temp(0), .. }));
    assert_eq!(
        st[6],
        ReadStatement::ReturnStruct {
            sname: "Two".to_string(),
            fields: vec!["k".to_string(), "ys".to_string(), "xs".to_string()],
        }
    );
}

#[test]
fn expression_lengths_pass_through() {
    let m = message(
        "Fixed",
        vec![
            field("n", ty("u8", 1)),
            StructureItem::List(List {
                name: "data".to_string(),
                ty: ty("u8", 1),
                list_length: ListLength::Expr(LengthExpr::FieldValue("n".to_string())),
                padding: 3,
            }),
        ],
        StructSpecial::Regular,
    );
    let s = populated(m);
    assert_eq!(
        s.asb.from_bytes_stmts[2],
        ReadStatement::LoadList {
            name: "data".to_string(),
            ty: ty("u8", 1),
            len: LenSource::Expr(LengthExpr::FieldValue("n".to_string())),
            pad: 3,
        }
    );
    assert_eq!(
        s.asb.size[1],
        SizeSumPart::ListTimesSize("data".to_string(), ty("u8", 1), 3)
    );
    assert_eq!(size_total(&s, 5), 1 + 5 + 3);
}

#[test]
fn empty_message() {
    let s = populated(message("Empty", vec![], StructSpecial::Regular));
    assert!(s.asb.size.is_empty());
    assert_eq!(s.asb.as_bytes_stmts, vec![WriteStatement::CreateIndex, WriteStatement::ReturnIndex]);
    assert_eq!(s.asb.from_bytes_stmts.len(), 2);
    assert!(!s.is_transparent);
}

#[test]
fn padding_only_counts_for_transparency() {
    let (s, _) = from_lvl2(
        message("Pad", vec![StructureItem::Padding { bytes: 2 }], StructSpecial::Regular),
        false,
    );
    assert!(s.is_transparent);
}

#[test]
fn declaration_keeps_fields_and_lists() {
    let s = populated(counted_items());
    let d = declaration_of(&s);
    assert_eq!(d.name, "Items");
    assert_eq!(d.members.len(), 1);
    assert_eq!(d.members[0].name, "items");
    assert!(d.members[0].is_list);
    assert_eq!(d.derives, Some(vec![Capability::Clone, Capability::Debug, Capability::Default]));
    let a = declaration_of(&populated(padded_pair()));
    let names: Vec<&str> = a.members.iter().map(|m| m.name.as_str()).collect();
    assert_eq!(names, vec!["a", "b"]);
    assert!(!a.transparent);
}

#[test]
fn constant_and_remaining_lengths() {
    let m = message(
        "Tail",
        vec![
            StructureItem::List(List {
                name: "head".to_string(),
                ty: ty("u8", 1),
                list_length: ListLength::Expr(LengthExpr::Constant(4)),
                padding: 0,
            }),
            StructureItem::List(List {
                name: "rest".to_string(),
                ty: ty("u16", 2),
                list_length: ListLength::Expr(LengthExpr::Remaining),
                padding: 0,
            }),
        ],
        StructSpecial::Regular,
    );
    let s = populated(m);
    assert!(matches!(
        &s.asb.from_bytes_stmts[1],
        ReadStatement::LoadList { len: LenSource::Expr(LengthExpr::Constant(4)), .. }
    ));
    assert!(matches!(
        &s.asb.from_bytes_stmts[2],
        ReadStatement::LoadList { len: LenSource::Expr(LengthExpr::Remaining), .. }
    ));
    assert!(!s.is_transparent);
}

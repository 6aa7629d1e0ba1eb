//! What the write sequence produces on a populated structure, and the laws
//! that every generated write sequence obeys.
use vstd::prelude::*;
use crate::asb::{size_part_for, size_plan, write_plan, write_stmt_for, SizeSumPart, WriteStatement};
use crate::layout::StructureItem;
use crate::rstruct::{classified, trait_view, RStruct, Trait};
use crate::layout::Message;

verus! {

/// The values of one populated structure: the encoded bytes of each scalar
/// member and the encoded elements of each list, by name.
pub struct Populated {
    pub fields: Map<Seq<char>, Seq<u8>>,
    pub lists: Map<Seq<char>, Seq<Seq<u8>>>,
}

/// `n` zero bytes.
pub open spec fn zeros(n: nat) -> Seq<u8> {
    Seq::new(n, |i: int| 0u8)
}

/// The elements of a list, one after another.
pub open spec fn concat_all(xs: Seq<Seq<u8>>) -> Seq<u8>
    decreases xs.len(),
{
    if xs.len() == 0 {
        seq![]
    } else {
        concat_all(xs.drop_last()) + xs.last()
    }
}

/// The bytes that one write step appends. `enc(n, w)` is the encoding of the
/// count `n` as a scalar of `w` bytes.
pub open spec fn write_piece(
    s: WriteStatement,
    v: Populated,
    enc: spec_fn(nat, nat) -> Seq<u8>,
) -> Seq<u8> {
    match s {
        WriteStatement::CreateIndex => seq![],
        WriteStatement::AppendField(n) => v.fields[n@],
        WriteStatement::Pad(b) => zeros(b as nat),
        WriteStatement::AppendLength { list, ty } => enc(v.lists[list@].len(), ty.width as nat),
        WriteStatement::AsBytesList { name, pad, .. } => concat_all(v.lists[name@]) + zeros(
            pad as nat,
        ),
        WriteStatement::ReturnIndex => seq![],
    }
}

/// The bytes that a write sequence produces, in order.
pub open spec fn run_write(
    stmts: Seq<WriteStatement>,
    v: Populated,
    enc: spec_fn(nat, nat) -> Seq<u8>,
) -> Seq<u8>
    decreases stmts.len(),
{
    if stmts.len() == 0 {
        seq![]
    } else {
        run_write(stmts.drop_last(), v, enc) + write_piece(stmts.last(), v, enc)
    }
}

/// Where step `k` starts writing.
pub open spec fn offset_of(
    stmts: Seq<WriteStatement>,
    k: int,
    v: Populated,
    enc: spec_fn(nat, nat) -> Seq<u8>,
) -> nat {
    run_write(stmts.take(k), v, enc).len()
}

/// The total of a size sum on a populated structure.
pub open spec fn size_total(parts: Seq<SizeSumPart>, v: Populated) -> nat
    decreases parts.len(),
{
    if parts.len() == 0 {
        0
    } else {
        size_total(parts.drop_last(), v) + match parts.last() {
            SizeSumPart::Bytes(b) => b as nat,
            SizeSumPart::SizeofField(n) => v.fields[n@].len(),
            SizeSumPart::SizeofType(t) => t.width as nat,
            SizeSumPart::ListTimesSize(n, t, pad) => (v.lists[n@].len() * t.width + pad) as nat,
        }
    }
}

/// Each scalar member holds as many bytes as its type is wide, and each
/// count is encoded in exactly the width of its slot.
pub open spec fn fits(
    items: Seq<StructureItem>,
    v: Populated,
    enc: spec_fn(nat, nat) -> Seq<u8>,
) -> bool {
    &&& forall|i: int| 0 <= i < items.len() ==> match #[trigger] items[i] {
        StructureItem::Field { name, ty } => v.fields.contains_key(name@) && v.fields[name@].len()
            == ty.width,
        _ => true,
    }
    &&& forall|n: nat, w: nat| #[trigger] enc(n, w).len() == w
}

/// Each step's bytes stand in the output at that step's offset.
pub(crate) proof fn lemma_piece_in_output(
    stmts: Seq<WriteStatement>,
    k: int,
    v: Populated,
    enc: spec_fn(nat, nat) -> Seq<u8>,
)
    requires
        0 <= k < stmts.len(),
    ensures
        offset_of(stmts, k, v, enc) + write_piece(stmts[k], v, enc).len() <= run_write(
            stmts,
            v,
            enc,
        ).len(),
        run_write(stmts, v, enc).subrange(
            offset_of(stmts, k, v, enc) as int,
            (offset_of(stmts, k, v, enc) + write_piece(stmts[k], v, enc).len()) as int,
        ) == write_piece(stmts[k], v, enc),
    decreases stmts.len(),
{
    let prev = stmts.drop_last();
    if k == stmts.len() - 1 {
        assert(stmts.take(k) == prev);
        let a = run_write(prev, v, enc);
        let b = write_piece(stmts[k], v, enc);
        assert((a + b).subrange(a.len() as int, (a.len() + b.len()) as int) == b);
    } else {
        lemma_piece_in_output(prev, k, v, enc);
        assert(prev.take(k) == stmts.take(k));
        assert(prev[k] == stmts[k]);
        let a = run_write(prev, v, enc);
        let b = write_piece(stmts.last(), v, enc);
        let o = offset_of(stmts, k, v, enc) as int;
        let e = o + write_piece(stmts[k], v, enc).len();
        assert((a + b).subrange(o, e) == a.subrange(o, e));
    }
}

/// Every padding region of the output holds only zero bytes.
pub proof fn lemma_padding_is_zero(
    stmts: Seq<WriteStatement>,
    items: Seq<StructureItem>,
    v: Populated,
    enc: spec_fn(nat, nat) -> Seq<u8>,
    i: int,
    j: int,
)
    requires
        write_plan(stmts, items),
        0 <= i < items.len(),
        items[i] is Padding,
        offset_of(stmts, i + 1, v, enc) <= j < offset_of(stmts, i + 1, v, enc)
            + items[i]->Padding_bytes,
    ensures
        j < run_write(stmts, v, enc).len(),
        run_write(stmts, v, enc)[j] == 0,
{
    assert(write_stmt_for(stmts[i + 1], items[i]));
    lemma_piece_in_output(stmts, i + 1, v, enc);
    let o = offset_of(stmts, i + 1, v, enc) as int;
    assert(run_write(stmts, v, enc).subrange(o, o + items[i]->Padding_bytes)[j - o] == 0);
}

/// A length slot's bytes are the encoding of its list's element count at the
/// time of writing.
pub proof fn lemma_length_slot_is_current(
    stmts: Seq<WriteStatement>,
    items: Seq<StructureItem>,
    v: Populated,
    enc: spec_fn(nat, nat) -> Seq<u8>,
    i: int,
)
    requires
        write_plan(stmts, items),
        0 <= i < items.len(),
        items[i] is LenSlot,
    ensures
        ({
            let o = offset_of(stmts, i + 1, v, enc) as int;
            let w = items[i]->LenSlot_ty.width as nat;
            let count = v.lists[items[i]->LenSlot_owning_list@].len();
            run_write(stmts, v, enc).subrange(o, o + enc(count, w).len()) == enc(count, w)
        }),
{
    assert(write_stmt_for(stmts[i + 1], items[i]));
    lemma_piece_in_output(stmts, i + 1, v, enc);
}

/// Without lists, the size sum of a message equals the number of bytes
/// that its write sequence produces.
pub proof fn lemma_size_matches_output(
    parts: Seq<SizeSumPart>,
    stmts: Seq<WriteStatement>,
    items: Seq<StructureItem>,
    v: Populated,
    enc: spec_fn(nat, nat) -> Seq<u8>,
)
    requires
        size_plan(parts, items),
        write_plan(stmts, items),
        fits(items, v, enc),
        forall|i: int| 0 <= i < items.len() ==> !(#[trigger] items[i] is List),
    ensures
        size_total(parts, v) == run_write(stmts, v, enc).len(),
    decreases items.len(),
{
    let last_out = run_write(stmts.drop_last(), v, enc);
    assert(run_write(stmts, v, enc) =~= last_out + Seq::<u8>::empty());
    if items.len() == 0 {
        assert(stmts.drop_last().drop_last() == Seq::<WriteStatement>::empty());
        assert(stmts.drop_last().last() == WriteStatement::CreateIndex);
        assert(run_write(stmts.drop_last().drop_last(), v, enc) == Seq::<u8>::empty());
        assert(last_out =~= Seq::<u8>::empty() + Seq::<u8>::empty());
    } else {
        let k = items.len() - 1;
        let items2 = items.drop_last();
        let parts2 = parts.drop_last();
        let stmts2 = stmts.drop_last().drop_last().push(WriteStatement::ReturnIndex);
        assert forall|i: int| 0 <= i < items2.len() implies #[trigger] write_stmt_for(
            stmts2[i + 1],
            items2[i],
        ) by {
            assert(write_stmt_for(stmts[i + 1], items[i]));
        }
        assert forall|i: int| 0 <= i < items2.len() implies #[trigger] size_part_for(
            parts2[i],
            items2[i],
        ) by {
            assert(size_part_for(parts[i], items[i]));
        }
        assert forall|i: int| 0 <= i < items2.len() implies match #[trigger] items2[i] {
            StructureItem::Field { name, ty } => v.fields.contains_key(name@)
                && v.fields[name@].len() == ty.width,
            _ => true,
        } by {
            assert(items[i] == items2[i]);
        }
        assert forall|i: int| 0 <= i < items2.len() implies !(#[trigger] items2[i] is List) by {
            assert(items[i] == items2[i]);
        }
        lemma_size_matches_output(parts2, stmts2, items2, v, enc);
        assert(stmts2.drop_last() == stmts.drop_last().drop_last());
        assert(parts2 == parts.drop_last());
        let inner = run_write(stmts.drop_last().drop_last(), v, enc);
        assert(run_write(stmts2, v, enc) =~= inner + Seq::<u8>::empty());
        assert(stmts.drop_last().last() == stmts[k + 1]);
        assert(last_out == inner + write_piece(stmts[k + 1], v, enc));
        assert(write_stmt_for(stmts[k + 1], items[k]));
        assert(size_part_for(parts[k], items[k]));
        let w = items[k];
        match w {
            StructureItem::Field { name, ty } => {
                assert(v.fields[name@].len() == ty.width);
            },
            StructureItem::LenSlot { ty, owning_list } => {
                let c = v.lists[owning_list@].len();
                assert(enc(c, ty.width as nat).len() == ty.width);
            },
            _ => {},
        }
    }
}

/// Classifying one message twice gives the same name and the same trait
/// obligations.
pub proof fn lemma_naming_deterministic(m: Message, is_reply: bool, a: RStruct, b: RStruct)
    requires
        classified(a, m, is_reply),
        classified(b, m, is_reply),
    ensures
        a.name@ == b.name@,
        a.traits@.map_values(|t: Trait| trait_view(t)) == b.traits@.map_values(
            |t: Trait| trait_view(t),
        ),
        a.is_transparent == b.is_transparent,
        a.derives@ == b.derives@,
{
}

} // verus!

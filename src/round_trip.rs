//! What the read sequence recovers from bytes, and the law that reading what
//! the write sequence produced gives back every member.
use vstd::prelude::*;
use crate::asb::{
    pending, read_plan, read_stmt_for, slots_before, slots_resolved, write_plan, write_stmt_for,
    defect_at, LenSource, ReadStatement, VarName, WriteStatement,
};
use crate::layout::{LengthExpr, ListLength, StructureItem};
use crate::wire::{concat_all, lemma_piece_in_output, offset_of, run_write, write_piece, Populated};

verus! {

/// What the reading code has bound so far, and where its cursor stands.
pub struct ReadState {
    pub pos: nat,
    pub members: Map<Seq<char>, Seq<u8>>,
    pub lists: Map<Seq<char>, Seq<Seq<u8>>>,
    pub temps: Map<nat, nat>,
}

/// `count` consecutive elements of `w` bytes each.
pub open spec fn chunks(b: Seq<u8>, count: nat, w: nat) -> Seq<Seq<u8>> {
    Seq::new(count, |i: int| b.subrange(i * w, i * w + w))
}

/// The element count that a list being read takes. `dec` decodes a scalar.
pub open spec fn read_count(
    len: LenSource,
    st: ReadState,
    inp: Seq<u8>,
    w: nat,
    pad: nat,
    dec: spec_fn(Seq<u8>) -> nat,
) -> nat {
    match len {
        LenSource::Temp(k) => st.temps[k as nat],
        LenSource::Expr(LengthExpr::Constant(c)) => c as nat,
        LenSource::Expr(LengthExpr::FieldValue(f)) => dec(st.members[f@]),
        LenSource::Expr(LengthExpr::Remaining) => if w > 0 && inp.len() >= st.pos + pad {
            ((inp.len() - st.pos - pad) / (w as int)) as nat
        } else {
            0
        },
    }
}

/// The effect of one read step on input `inp`.
pub open spec fn read_step(
    s: ReadStatement,
    st: ReadState,
    inp: Seq<u8>,
    dec: spec_fn(Seq<u8>) -> nat,
) -> ReadState {
    match s {
        ReadStatement::CreateIndex => ReadState { pos: 0, ..st },
        ReadStatement::Load { var, ty } => {
            let w = ty.width as nat;
            let bytes = inp.subrange(st.pos as int, (st.pos + w) as int);
            match var {
                VarName::Member(n) => ReadState {
                    pos: (st.pos + w) as nat,
                    members: st.members.insert(n@, bytes),
                    ..st
                },
                VarName::LenTemp(k) => ReadState {
                    pos: (st.pos + w) as nat,
                    temps: st.temps.insert(k as nat, dec(bytes)),
                    ..st
                },
            }
        },
        ReadStatement::Skip(b) => ReadState { pos: (st.pos + b) as nat, ..st },
        ReadStatement::LoadList { name, ty, len, pad } => {
            let w = ty.width as nat;
            let c = read_count(len, st, inp, w, pad as nat, dec);
            ReadState {
                pos: (st.pos + c * w + pad) as nat,
                lists: st.lists.insert(
                    name@,
                    chunks(inp.subrange(st.pos as int, (st.pos + c * w) as int), c, w),
                ),
                ..st
            }
        },
        ReadStatement::ReturnStruct { .. } => st,
    }
}

/// The state after running a read sequence on `inp`.
pub open spec fn run_read(
    stmts: Seq<ReadStatement>,
    inp: Seq<u8>,
    dec: spec_fn(Seq<u8>) -> nat,
) -> ReadState
    decreases stmts.len(),
{
    if stmts.len() == 0 {
        ReadState { pos: 0, members: Map::empty(), lists: Map::empty(), temps: Map::empty() }
    } else {
        read_step(stmts.last(), run_read(stmts.drop_last(), inp, dec), inp, dec)
    }
}

/// Item `it` adds no byte to the output on the values `v`.
pub open spec fn writes_nothing(
    it: StructureItem,
    v: Populated,
    enc: spec_fn(nat, nat) -> Seq<u8>,
) -> bool {
    match it {
        StructureItem::Field { name, .. } => v.fields[name@].len() == 0,
        StructureItem::Padding { bytes } => bytes == 0,
        StructureItem::LenSlot { ty, .. } => ty.width == 0,
        StructureItem::List(l) => v.lists[l.name@].len() == 0 && l.padding == 0,
    }
}

/// The values fit their types, counts survive encoding, and every length
/// expression of a list agrees with the list: a constant equals its length; a
/// field that gives it is read before the list and decodes to its length; and
/// a list that takes the rest of the input has elements of some width and is
/// followed by nothing that adds a byte.
pub open spec fn consistent(
    items: Seq<StructureItem>,
    v: Populated,
    enc: spec_fn(nat, nat) -> Seq<u8>,
    dec: spec_fn(Seq<u8>) -> nat,
) -> bool {
    &&& forall|n: nat, w: nat| #[trigger] enc(n, w).len() == w
    &&& forall|i: int| 0 <= i < items.len() ==> match #[trigger] items[i] {
        StructureItem::Field { name, ty } => v.fields[name@].len() == ty.width,
        StructureItem::LenSlot { ty, owning_list } => dec(
            enc(v.lists[owning_list@].len(), ty.width as nat),
        ) == v.lists[owning_list@].len(),
        StructureItem::List(l) => (forall|e: int|
            0 <= e < v.lists[l.name@].len() ==> (#[trigger] v.lists[l.name@][e]).len()
                == l.ty.width) && match l.list_length {
            ListLength::SingleSlot(_) => true,
            ListLength::Expr(LengthExpr::Constant(c)) => c == v.lists[l.name@].len(),
            ListLength::Expr(LengthExpr::FieldValue(f)) => exists|j: int|
                0 <= j < i && #[trigger] items[j] is Field && items[j]->Field_name@ == f@
                    && dec(v.fields[f@]) == v.lists[l.name@].len(),
            ListLength::Expr(LengthExpr::Remaining) => l.ty.width > 0 && forall|j: int|
                i < j < items.len() ==> writes_nothing(#[trigger] items[j], v, enc),
        },
        _ => true,
    }
}

proof fn lemma_concat_chunks(xs: Seq<Seq<u8>>, w: nat)
    requires
        forall|i: int| 0 <= i < xs.len() ==> (#[trigger] xs[i]).len() == w,
    ensures
        concat_all(xs).len() == xs.len() * w,
        chunks(concat_all(xs), xs.len(), w) == xs,
    decreases xs.len(),
{
    if xs.len() > 0 {
        let p = xs.drop_last();
        lemma_concat_chunks(p, w);
        let a = concat_all(p);
        let b = xs.last();
        let n = xs.len() as int;
        assert(p.len() * w + w == n * w) by (nonlinear_arith)
            requires
                p.len() + 1 == n,
        ;
        assert forall|i: int| 0 <= i < n implies #[trigger] concat_all(xs).subrange(i * w, i * w + w)
            == xs[i] by {
            if i < p.len() {
                assert(i * w + w <= p.len() * w) by (nonlinear_arith)
                    requires
                        0 <= i < p.len(),
                ;
                assert(0 <= i * w) by (nonlinear_arith)
                    requires
                        0 <= i,
                ;
                assert(chunks(a, p.len(), w)[i] == p[i]);
                assert((a + b).subrange(i * w, i * w + w) == a.subrange(i * w, i * w + w));
            } else {
                assert((a + b).subrange(a.len() as int, (a.len() + w) as int) == b);
            }
        }
        assert(chunks(concat_all(xs), xs.len(), w) =~= xs);
    } else {
        assert(chunks(concat_all(xs), 0, w) =~= xs);
    }
}

proof fn lemma_pending_below(items: Seq<StructureItem>, k: nat)
    requires
        k <= items.len(),
    ensures
        forall|q: Seq<char>| #[trigger]
            pending(items, k).contains_key(q) ==> pending(items, k)[q] < slots_before(items, k),
    decreases k,
{
    if k > 0 {
        let k1 = (k - 1) as nat;
        lemma_pending_below(items, k1);
        let prev = pending(items, k1);
        assert forall|q: Seq<char>| #[trigger] pending(items, k).contains_key(q) implies pending(
            items,
            k,
        )[q] < slots_before(items, k) by {
            match items[k1 as int] {
                StructureItem::LenSlot { owning_list, .. } => {
                    if q != owning_list@ {
                        assert(prev.contains_key(q));
                    }
                },
                _ => {
                    assert(prev.contains_key(q));
                },
            }
        }
    }
}

proof fn lemma_quiet_tail(
    wstmts: Seq<WriteStatement>,
    v: Populated,
    enc: spec_fn(nat, nat) -> Seq<u8>,
    a: int,
    b: int,
)
    requires
        0 <= a <= b <= wstmts.len(),
        forall|j: int| a <= j < b ==> (#[trigger] write_piece(wstmts[j], v, enc)).len() == 0,
    ensures
        run_write(wstmts.take(b), v, enc).len() == run_write(wstmts.take(a), v, enc).len(),
    decreases b - a,
{
    if b > a {
        lemma_quiet_tail(wstmts, v, enc, a, b - 1);
        assert(wstmts.take(b).drop_last() == wstmts.take(b - 1));
        assert(wstmts.take(b).last() == wstmts[b - 1]);
    }
}

proof fn lemma_slots_before_bound(items: Seq<StructureItem>, k: nat)
    ensures
        slots_before(items, k) <= k,
    decreases k,
{
    if k > 0 {
        lemma_slots_before_bound(items, (k - 1) as nat);
    }
}

/// After the first `k` items, the reader stands where the writer did and has
/// bound every member of those items, and each pending slot temporary holds
/// its list's length.
spec fn prefix_recovered(
    items: Seq<StructureItem>,
    wstmts: Seq<WriteStatement>,
    rstmts: Seq<ReadStatement>,
    v: Populated,
    enc: spec_fn(nat, nat) -> Seq<u8>,
    dec: spec_fn(Seq<u8>) -> nat,
    k: nat,
) -> bool {
    let out = run_write(wstmts, v, enc);
    let st = run_read(rstmts.take((k + 1) as int), out, dec);
    &&& st.pos == offset_of(wstmts, (k + 1) as int, v, enc)
    &&& forall|j: int| 0 <= j < k ==> match #[trigger] items[j] {
        StructureItem::Field { name, .. } => st.members.contains_key(name@) && st.members[name@]
            == v.fields[name@],
        StructureItem::List(l) => st.lists.contains_key(l.name@) && st.lists[l.name@]
            == v.lists[l.name@],
        _ => true,
    }
    &&& forall|q: Seq<char>| #[trigger]
        pending(items, k).contains_key(q) ==> st.temps.contains_key(pending(items, k)[q])
            && st.temps[pending(items, k)[q]] == v.lists[q].len()
}

#[verifier::rlimit(60)]
proof fn lemma_prefix_recovered(
    items: Seq<StructureItem>,
    wstmts: Seq<WriteStatement>,
    rstmts: Seq<ReadStatement>,
    sname: Seq<char>,
    v: Populated,
    enc: spec_fn(nat, nat) -> Seq<u8>,
    dec: spec_fn(Seq<u8>) -> nat,
    k: nat,
)
    requires
        write_plan(wstmts, items),
        read_plan(rstmts, items, sname),
        slots_resolved(items),
        consistent(items, v, enc, dec),
        items.len() <= usize::MAX,
        k <= items.len(),
    ensures
        prefix_recovered(items, wstmts, rstmts, v, enc, dec, k),
    decreases k,
{
    let out = run_write(wstmts, v, enc);
    if k == 0 {
        assert(rstmts.take(1).drop_last() == Seq::<ReadStatement>::empty());
        assert(rstmts.take(1).last() == ReadStatement::CreateIndex);
        assert(wstmts.take(1).drop_last() == Seq::<WriteStatement>::empty());
        assert(wstmts.take(1).last() == WriteStatement::CreateIndex);
        assert(run_write(Seq::<WriteStatement>::empty(), v, enc) == Seq::<u8>::empty());
        assert(write_piece(WriteStatement::CreateIndex, v, enc) == Seq::<u8>::empty());
        assert(run_write(wstmts.take(1), v, enc) =~= Seq::<u8>::empty() + Seq::<u8>::empty());
    } else {
        let k1 = (k - 1) as nat;
        let i = k1 as int;
        lemma_prefix_recovered(items, wstmts, rstmts, sname, v, enc, dec, k1);
        lemma_pending_below(items, k1);
        lemma_slots_before_bound(items, k1);
        let st0 = run_read(rstmts.take(k as int), out, dec);
        assert(rstmts.take((k + 1) as int).drop_last() == rstmts.take(k as int));
        assert(rstmts.take((k + 1) as int).last() == rstmts[k as int]);
        let st = read_step(rstmts[k as int], st0, out, dec);
        assert(run_read(rstmts.take((k + 1) as int), out, dec) == st);
        assert(wstmts.take((k + 1) as int).drop_last() == wstmts.take(k as int));
        assert(wstmts.take((k + 1) as int).last() == wstmts[k as int]);
        let o = offset_of(wstmts, k as int, v, enc) as int;
        let piece = write_piece(wstmts[k as int], v, enc);
        assert(offset_of(wstmts, (k + 1) as int, v, enc) == o + piece.len());
        lemma_piece_in_output(wstmts, k as int, v, enc);
        assert(out.subrange(o, (o + piece.len()) as int) == piece);
        assert(read_stmt_for(rstmts[i + 1], items, i));
        assert(write_stmt_for(wstmts[i + 1], items[i]));
        assert(match items[i] {
            StructureItem::Field { name, ty } => v.fields[name@].len() == ty.width,
            _ => true,
        });
        match items[i] {
            StructureItem::Field { name, ty } => {
                assert(st.members[name@] == v.fields[name@]);
                assert(pending(items, k) == pending(items, k1));
            },
            StructureItem::Padding { bytes } => {
                assert(pending(items, k) == pending(items, k1));
            },
            StructureItem::LenSlot { ty, owning_list } => {
                let t_new = slots_before(items, k1);
                let c = v.lists[owning_list@].len();
                assert(dec(enc(c, ty.width as nat)) == c);
                assert(enc(c, ty.width as nat).len() == ty.width);
                assert(st.temps[t_new] == c);
                assert forall|q: Seq<char>| #[trigger] pending(items, k).contains_key(q) implies st.temps.contains_key(
                    pending(items, k)[q],
                ) && st.temps[pending(items, k)[q]] == v.lists[q].len() by {
                    if q != owning_list@ {
                        assert(pending(items, k1).contains_key(q));
                        assert(pending(items, k1)[q] < t_new);
                    }
                }
            },
            StructureItem::List(l) => {
                let xs = v.lists[l.name@];
                let w = l.ty.width as nat;
                let pad = l.padding as nat;
                assert(forall|e: int| 0 <= e < xs.len() ==> (#[trigger] xs[e]).len() == w);
                lemma_concat_chunks(xs, w);
                let len = rstmts[k as int]->LoadList_len;
                let c = read_count(len, st0, out, w, pad, dec);
                match l.list_length {
                    ListLength::SingleSlot(_) => {
                        assert(!defect_at(items, i));
                        assert(pending(items, k1).contains_key(l.name@));
                    },
                    ListLength::Expr(LengthExpr::Remaining) => {
                        let n = items.len() as int;
                        assert forall|j: int| k + 1 <= j < n + 2 implies (#[trigger] write_piece(
                            wstmts[j],
                            v,
                            enc,
                        )).len() == 0 by {
                            if j <= n {
                                let jj = j - 1;
                                assert(write_stmt_for(wstmts[jj + 1], items[jj]));
                                assert(writes_nothing(items[j - 1], v, enc));
                                if items[j - 1] is LenSlot {
                                    let c2 = v.lists[items[j - 1]->LenSlot_owning_list@].len();
                                    assert(enc(c2, items[j - 1]->LenSlot_ty.width as nat).len()
                                        == items[j - 1]->LenSlot_ty.width);
                                }
                                if items[j - 1] is List {
                                    let e = v.lists[items[j - 1]->List_0.name@];
                                    assert(concat_all(e) =~= Seq::<u8>::empty());
                                }
                            } else {
                                assert(wstmts[j] == wstmts.last());
                            }
                        }
                        lemma_quiet_tail(wstmts, v, enc, (k + 1) as int, n + 2);
                        assert(wstmts.take(n + 2) == wstmts);
                        assert(out.len() == o + xs.len() * w + pad);
                        assert(((xs.len() * w) as int) / (w as int) == xs.len()) by (nonlinear_arith)
                            requires
                                w > 0,
                        ;
                    },
                    ListLength::Expr(LengthExpr::FieldValue(f)) => {
                        let j = choose|j: int|
                            0 <= j < i && #[trigger] items[j] is Field && items[j]->Field_name@
                                == f@ && dec(v.fields[f@]) == v.lists[l.name@].len();
                        assert(st0.members[f@] == v.fields[f@]);
                    },
                    _ => {},
                }
                assert(c == xs.len());
                assert(piece == concat_all(xs) + crate::wire::zeros(pad));
                assert(out.subrange(o, (o + c * w) as int) == piece.subrange(0, (c * w) as int));
                assert(piece.subrange(0, (c * w) as int) == concat_all(xs));
                assert(st.lists[l.name@] == xs);
                assert forall|q: Seq<char>| #[trigger] pending(items, k).contains_key(q) implies st.temps.contains_key(
                    pending(items, k)[q],
                ) && st.temps[pending(items, k)[q]] == v.lists[q].len() by {
                    assert(pending(items, k1).contains_key(q));
                }
            },
        }
    }
}

/// Reading back what the write sequence produced recovers every member, and
/// the reader's cursor ends at the number of bytes written. This holds for a
/// message whose lists all find their length, and for values that fit their
/// types (see [`consistent`]).
pub proof fn lemma_round_trip(
    items: Seq<StructureItem>,
    wstmts: Seq<WriteStatement>,
    rstmts: Seq<ReadStatement>,
    sname: Seq<char>,
    v: Populated,
    enc: spec_fn(nat, nat) -> Seq<u8>,
    dec: spec_fn(Seq<u8>) -> nat,
)
    requires
        write_plan(wstmts, items),
        read_plan(rstmts, items, sname),
        slots_resolved(items),
        consistent(items, v, enc, dec),
        items.len() <= usize::MAX,
    ensures
        ({
            let out = run_write(wstmts, v, enc);
            let st = run_read(rstmts, out, dec);
            &&& st.pos == out.len()
            &&& forall|j: int| 0 <= j < items.len() ==> match #[trigger] items[j] {
                StructureItem::Field { name, .. } => st.members[name@] == v.fields[name@],
                StructureItem::List(l) => st.lists[l.name@] == v.lists[l.name@],
                _ => true,
            }
        }),
{
    let n = items.len();
    lemma_prefix_recovered(items, wstmts, rstmts, sname, v, enc, dec, n);
    let out = run_write(wstmts, v, enc);
    assert(rstmts.take((n + 2) as int) == rstmts);
    assert(rstmts.drop_last() == rstmts.take((n + 1) as int));
    assert(wstmts.drop_last() == wstmts.take((n + 1) as int));
    assert(out =~= run_write(wstmts.take((n + 1) as int), v, enc) + Seq::<u8>::empty());
}

} // verus!

//! Laws of the layout resolver: packing, placement and address derivation.

use vstd::prelude::*;
use vstd::arithmetic::div_mod::{
    lemma_fundamental_div_mod_converse, lemma_fundamental_div_mod, lemma_div_is_ordered,
};
use crate::types::{spec_parse_type, spec_size_of, LayoutError};
use crate::tree::TypeName;
use crate::layout::{
    spec_resolve, spec_resolve_elems, spec_resolve_decls, spec_content_slot, VarModel,
};

verus! {

/// The declared type is elementary and classifies to bit-width `w`.
pub open spec fn elementary_of_width(t: TypeName, w: nat) -> bool {
    match t {
        TypeName::ElementaryTypeName { name } => match spec_parse_type(name@) {
            Ok(st) => spec_size_of(st) == w,
            Err(_) => false,
        },
        _ => false,
    }
}

/// Sum of the first `i` widths.
pub open spec fn sum_prefix(ws: Seq<nat>, i: int) -> nat
    decreases i,
{
    if i <= 0 || i > ws.len() {
        0
    } else {
        sum_prefix(ws, i - 1) + ws[i - 1]
    }
}

/// A shorter prefix of widths never sums to more.
pub proof fn lemma_sum_prefix_mono(ws: Seq<nat>, a: int, b: int)
    requires
        0 <= a <= b <= ws.len(),
    ensures
        sum_prefix(ws, a) <= sum_prefix(ws, b),
    decreases b - a,
{
    if a < b {
        lemma_sum_prefix_mono(ws, a, b - 1);
    }
}

/// From position `i` on, each width fits in what remains of the slot that
/// the widths before it have partly filled: the run packs with no gaps.
pub open spec fn gap_free(ws: Seq<nat>, i: int) -> bool
    decreases ws.len() - i,
{
    i >= ws.len() || (sum_prefix(ws, i) % 256 + ws[i] <= 256 && gap_free(ws, i + 1))
}

/// One elementary field packs at the position that the total width `s`
/// declared before it dictates: slot `s / 256`, offset `s % 256`.
pub proof fn lemma_pack_step(nm: Seq<char>, t: TypeName, w: nat, slot: nat, off: nat, s: nat, p: Seq<char>, r: Seq<char>)
    requires
        elementary_of_width(t, w),
        1 <= w <= 256,
        off <= 256,
        slot < usize::MAX,
        slot * 256 + off == s,
        s % 256 + w <= 256,
    ensures
        spec_resolve(nm, t, slot, off, p, r) matches Ok((m, s2, o2)) && m.slot == s / 256
            && m.offset == s % 256 && m.size == w && s2 == s / 256 && o2 == s % 256 + w && s2 * 256
            + o2 == s + w && o2 <= 256,
{
    if off + w > 256 {
        if off < 256 {
            lemma_fundamental_div_mod_converse(s as int, 256, slot as int, off as int);
            assert(false);
        }
        lemma_fundamental_div_mod_converse(s as int, 256, slot as int + 1, 0);
    } else {
        lemma_fundamental_div_mod_converse(s as int, 256, slot as int, off as int);
    }
}

/// Law: a run of elementary declarations whose widths pack gap-free lays
/// every field at the slot and offset given by the prefix sum of the widths:
/// the `k`-th remaining field sits at slot `S / 256`, offset `S % 256`, where
/// `S` is the total width declared before it, and the cursor afterwards
/// encodes the total width of the whole run.
pub proof fn lemma_elementary_run(ds: Seq<(String, TypeName)>, ws: Seq<nat>, i: int, slot: nat, off: nat)
    requires
        0 <= i <= ds.len(),
        ws.len() == ds.len(),
        forall|j: int| i <= j < ds.len() ==> elementary_of_width((#[trigger] ds[j]).1, ws[j]),
        forall|j: int| 0 <= j < ws.len() ==> 1 <= #[trigger] ws[j] <= 256,
        gap_free(ws, i),
        sum_prefix(ws, ds.len() as int) <= usize::MAX,
        off <= 256,
        slot * 256 + off == sum_prefix(ws, i),
    ensures
        spec_resolve_decls(ds, i as nat, slot, off) matches Ok((ms, s2, o2)) && ms.len() == ds.len()
            - i && o2 <= 256 && s2 * 256 + o2 == sum_prefix(ws, ds.len() as int) && (forall|k: int|
            0 <= k < ms.len() ==> (#[trigger] ms[k]).1.slot == sum_prefix(ws, i + k) / 256 && ms[
                k
            ].1.offset == sum_prefix(ws, i + k) % 256 && ms[k].1.size == ws[i + k] && ms[k].0 == ds[
                i + k
            ].0@),
    decreases ds.len() - i,
{
    if i < ds.len() {
        let s_i = sum_prefix(ws, i);
        let w = ws[i];
        assert(s_i % 256 + w <= 256 && gap_free(ws, i + 1));
        lemma_sum_prefix_mono(ws, i + 1, ds.len() as int);
        assert(sum_prefix(ws, i + 1) == s_i + w);
        assert(slot < usize::MAX);
        lemma_pack_step(ds[i].0@, ds[i].1, w, slot, off, s_i, ds[i].0@, ds[i].0@);
        let m = spec_resolve(ds[i].0@, ds[i].1, slot, off, ds[i].0@, ds[i].0@)->Ok_0.0;
        let es = s_i / 256;
        let eo = s_i % 256;
        lemma_elementary_run(ds, ws, i + 1, es, eo + w);
        let ms_rest = spec_resolve_decls(ds, (i + 1) as nat, es, eo + w)->Ok_0.0;
        let ms = spec_resolve_decls(ds, i as nat, slot, off)->Ok_0.0;
        assert(ms == seq![(ds[i].0@, m)] + ms_rest);
        assert forall|k: int| 0 <= k < ms.len() implies (#[trigger] ms[k]).1.slot == sum_prefix(
            ws,
            i + k,
        ) / 256 && ms[k].1.offset == sum_prefix(ws, i + k) % 256 && ms[k].1.size == ws[i + k] && ms[
            k
        ].0 == ds[i + k].0@ by {
            if k > 0 {
                assert(ms[k] == ms_rest[k - 1]);
            } else {
                assert(ms[0] == (ds[i].0@, m));
            }
        }
    }
}

/// Law: two consecutive elementary fields of combined width at most 256 bits
/// share one slot; of combined width above 256 bits they occupy two slots,
/// the second starting at offset zero of a fresh slot.
pub proof fn lemma_pair_packing(nm1: Seq<char>, nm2: Seq<char>, t1: TypeName, t2: TypeName, w1: nat, w2: nat, p: Seq<char>, r: Seq<char>)
    requires
        elementary_of_width(t1, w1),
        elementary_of_width(t2, w2),
        1 <= w1 <= 256,
        1 <= w2 <= 256,
    ensures
        spec_resolve(nm1, t1, 0, 0, p, r) matches Ok((m1, s1, o1)) && m1.slot == 0 && m1.offset
            == 0 && (spec_resolve(nm2, t2, s1, o1, p, r) matches Ok((m2, _s, _o)) && (w1 + w2 <= 256
            ==> m2.slot == 0 && m2.offset == w1) && (w1 + w2 > 256 ==> m2.slot == 1 && m2.offset
            == 0)),
{
}

/// Law: a mapping declared while the cursor stands on slot `S` is placed at
/// slot `S + 1` with size 256 at offset zero, and the enclosing cursor moves
/// on to slot `S + 2`, offset zero: no sibling ever aliases the mapping's
/// slot.
pub proof fn lemma_mapping_placement(nm: Seq<char>, t: TypeName, slot: nat, off: nat, p: Seq<char>, r: Seq<char>)
    requires
        t matches TypeName::Mapping { .. },
        spec_resolve(nm, t, slot, off, p, r) matches Ok(_),
    ensures
        spec_resolve(nm, t, slot, off, p, r) matches Ok((m, s2, o2)) && m.slot == slot + 1
            && m.offset == 0 && m.size == 256 && s2 == slot + 2 && o2 == 0,
{
}

/// Law: the elements of a fixed array of elementary items of width `w` (with
/// `w` at most 256 and dividing 256 evenly) pack from the array's start slot
/// `init`: the `k`-th remaining element sits at slot `init + ((i+k)*w)/256`,
/// offset `((i+k)*w) % 256`, within the `ceil(len*w/256)` slots the array
/// spans, and the cursor afterwards encodes the array's total width.
pub proof fn lemma_fixed_elements_placement(base: TypeName, i: nat, len: nat, slot: nat, off: nat, raw: Seq<char>, init: nat, w: nat)
    requires
        elementary_of_width(base, w),
        1 <= w <= 256,
        256nat % w == 0,
        i <= len,
        init + len <= usize::MAX,
        init <= slot,
        off <= 256,
        off % w == 0,
        slot * 256 + off == init * 256 + i * w,
    ensures
        spec_resolve_elems(base, i, len, slot, off, raw, init) matches Ok((ms, s2, o2)) && ms.len()
            == len - i && o2 <= 256 && s2 * 256 + o2 == init * 256 + len * w && (forall|k: int|
            0 <= k < ms.len() ==> (#[trigger] ms[k]).1.slot == init + ((i + k) * w) / 256 && ms[
                k
            ].1.offset == ((i + k) * w) % 256 && ms[k].1.size == w && ms[k].1.slot * 256 < init
                * 256 + len * w + 256),
    decreases len - i,
{
    if i < len {
        let tn = base->ElementaryTypeName_name;
        let st = spec_parse_type(tn@)->Ok_0;
        assert((i + 1) * w == i * w + w) by (nonlinear_arith);
        // a field never straddles a boundary: if it would overflow, the slot
        // is exactly full
        if off + w > 256 && off < 256 {
            assert(false) by (nonlinear_arith)
                requires
                    off % w == 0,
                    256nat % w == 0,
                    0 <= off < 256,
                    1 <= w <= 256,
                    off + w > 256,
            ;
        }
        let es: nat = if off + w > 256 {
            slot + 1
        } else {
            slot
        };
        let eo: nat = if off + w > 256 {
            0
        } else {
            off
        };
        if off + w > 256 {
            assert(off == 256);
            lemma_fundamental_div_mod_converse((i * w) as int, 256, es as int - init as int, 0);
        } else {
            lemma_fundamental_div_mod_converse(
                (i * w) as int,
                256,
                slot as int - init as int,
                off as int,
            );
        }
        assert(es == init + (i * w) / 256 && eo == (i * w) % 256);
        assert((es - init) * 256 <= i * w);
        assert(i * w <= i * 256) by (nonlinear_arith)
            requires
                w <= 256,
        ;
        assert(es <= init + i);
        assert((eo + w) % w == 0) by (nonlinear_arith)
            requires
                eo % w == 0,
                w >= 1,
        ;
        lemma_fixed_elements_placement(base, i + 1, len, es, eo + w, raw, init, w);
        let enm = "element_"@ + crate::text::dec_of(i);
        let m = spec_resolve(enm, base, slot, off, Seq::empty(), raw + "."@ + enm)->Ok_0.0;
        assert(m.slot == es && m.offset == eo && m.size == w);
        let ms_rest = spec_resolve_elems(base, i + 1, len, es, eo + w, raw, init)->Ok_0.0;
        let full = spec_resolve_elems(base, i, len, slot, off, raw, init)->Ok_0.0;
        assert(full[0].1.slot == es && full[0].1.offset == eo && full[0].1.size == w);
        assert(full.len() == 1 + ms_rest.len());
        assert(full =~= seq![full[0]] + ms_rest);
        assert forall|k: int| 0 <= k < full.len() implies (#[trigger] full[k]).1.slot == init + ((
        i + k) * w) / 256 && full[k].1.offset == ((i + k) * w) % 256 && full[k].1.size == w
            && full[k].1.slot * 256 < init * 256 + len * w + 256 by {
            if k > 0 {
                assert(full[k] == ms_rest[k - 1]);
            } else {
                assert((es - init) * 256 + eo == i * w);
                lemma_fundamental_div_mod((i * w) as int, 256);
                assert(((i * w) / 256) * 256 <= i * w);
                assert(i * w <= len * w) by (nonlinear_arith)
                    requires
                        i <= len,
                ;
                assert(es * 256 < init * 256 + len * w + 256);
            }
        }
    }
}

/// Law: the derived content slot of a dynamic array depends on the pointer
/// slot alone — deriving twice from equal pointer slots gives equal content
/// slots, so the derivation is deterministic.
pub proof fn lemma_content_slot_deterministic(p1: nat, p2: nat)
    requires
        p1 == p2,
    ensures
        spec_content_slot(p1) == spec_content_slot(p2),
{
}

/// Law: a declaration whose elementary type name matches no known pattern
/// fails with `UnrecognizedType` and produces no layout entry, and the cursor
/// arguments play no part in that outcome.
pub proof fn lemma_unrecognized_type_aborts(nm: Seq<char>, t: TypeName, slot: nat, off: nat, p: Seq<char>, r: Seq<char>)
    requires
        t matches TypeName::ElementaryTypeName { name } && spec_parse_type(name@) == Err::<
            crate::types::SolidityType,
            LayoutError,
        >(LayoutError::UnrecognizedType),
    ensures
        spec_resolve(nm, t, slot, off, p, r) == Err::<(VarModel, nat, nat), LayoutError>(
            LayoutError::UnrecognizedType,
        ),
{
}

/// Law: when gap-free elementary declarations sum to exactly `256·n` bits,
/// the run occupies slots `0 .. n-1` and nothing beyond: every field that
/// starts at a multiple of 256 bits opens a fresh slot at offset zero, and
/// the cursor afterwards closes slot `n - 1` exactly.
pub proof fn lemma_exact_fill(ds: Seq<(String, TypeName)>, ws: Seq<nat>, n: nat)
    requires
        ws.len() == ds.len(),
        ds.len() >= 1,
        forall|j: int| 0 <= j < ds.len() ==> elementary_of_width((#[trigger] ds[j]).1, ws[j]),
        forall|j: int| 0 <= j < ws.len() ==> 1 <= #[trigger] ws[j] <= 256,
        gap_free(ws, 0),
        sum_prefix(ws, ds.len() as int) <= usize::MAX,
        sum_prefix(ws, ds.len() as int) == 256 * n,
    ensures
        spec_resolve_decls(ds, 0, 0, 0) matches Ok((ms, s2, o2)) && s2 * 256 + o2 == 256 * n && (
        forall|j: int| 0 <= j < ds.len() ==> (#[trigger] ms[j]).1.slot < n) && (forall|j: int|
            0 <= j < ds.len() && sum_prefix(ws, j) % 256 == 0 ==> (#[trigger] ms[j]).1.offset == 0
                && ms[j].1.slot == sum_prefix(ws, j) / 256),
{
    lemma_elementary_run(ds, ws, 0, 0, 0);
    let ms = spec_resolve_decls(ds, 0, 0, 0)->Ok_0.0;
    assert forall|j: int| 0 <= j < ds.len() implies (#[trigger] ms[j]).1.slot < n by {
        assert(ms[j].1.slot == sum_prefix(ws, 0 + j) / 256);
        lemma_sum_prefix_mono(ws, j + 1, ds.len() as int);
        assert(sum_prefix(ws, j + 1) == sum_prefix(ws, j) + ws[j]);
        assert(sum_prefix(ws, j) <= 256 * n - 1);
        lemma_div_is_ordered(sum_prefix(ws, j) as int, 256 * (n as int) - 1, 256);
        lemma_fundamental_div_mod_converse(256 * (n as int) - 1, 256, n as int - 1, 255);
    }
    assert forall|j: int|
        0 <= j < ds.len() && sum_prefix(ws, j) % 256 == 0 implies (#[trigger] ms[j]).1.offset == 0
            && ms[j].1.slot == sum_prefix(ws, j) / 256 by {
        assert(ms[j].1.slot == sum_prefix(ws, 0 + j) / 256);
        assert(ms[j].1.offset == sum_prefix(ws, 0 + j) % 256);
    }
}

} // verus!

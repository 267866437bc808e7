//! Properties that relate the results of the queries.
use crate::clinvar::{
    exact_slots, longest, overlap_len, overlaps, range_keep, ratio_le, reaches, selects, sv_begin,
    sv_keep, vcvs_of, window_keep, Ratio, Record, StructuralVariant,
};
use crate::schema::{patho_rank, spanless, Pathogenicity};
use vstd::prelude::*;

verus! {

/// A range query without a pathogenicity minimum returns a record of the
/// store exactly when its span meets the query range under half-open
/// semantics, returns nothing that is not in the store, and returns what a
/// linear scan of the store for meeting spans returns, up to order.
pub proof fn lemma_overlap_correctness(store: Seq<Record>, out: Seq<Record>, qb: u32, qe: u32)
    requires
        selects(store, out, |x: Record| range_keep(x, qb, qe, None)),
    ensures
        forall|i: int|
            0 <= i < store.len() ==> (out.contains(#[trigger] store[i]) <==> overlaps(
                store[i].begin,
                store[i].end,
                qb,
                qe,
            )),
        forall|k: int|
            0 <= k < out.len() ==> store.contains(#[trigger] out[k]) && overlaps(
                out[k].begin,
                out[k].end,
                qb,
                qe,
            ),
        out.to_multiset() =~= store.filter(|x: Record| range_keep(x, qb, qe, None)).to_multiset(),
{
    let keep = |x: Record| range_keep(x, qb, qe, None);
    lemma_selects_is_linear_scan(store, out, keep);
    let slots = choose|slots: Seq<int>|
        exact_slots(store, slots, keep) && out.len() == slots.len() && forall|k: int|
            0 <= k < out.len() ==> #[trigger] out[k] == store[slots[k]];
    assert forall|k: int| 0 <= k < out.len() implies store.contains(#[trigger] out[k]) && overlaps(
        out[k].begin,
        out[k].end,
        qb,
        qe,
    ) by {
        assert(slots.contains(slots[k]));
        assert(keep(store[slots[k]]));
    }
    assert forall|i: int| 0 <= i < store.len() implies (out.contains(#[trigger] store[i]) <==> overlaps(
        store[i].begin,
        store[i].end,
        qb,
        qe,
    )) by {
        if out.contains(store[i]) {
            let k = choose|k: int| 0 <= k < out.len() && out[k] == store[i];
            assert(keep(out[k]));
        }
        if overlaps(store[i].begin, store[i].end, qb, qe) {
            assert(keep(store[i]));
            assert(slots.contains(i));
            let k = choose|k: int| 0 <= k < slots.len() && slots[k] == i;
            assert(out[k] == store[i]);
        }
    }
}

/// A query's result holds the same records, each as often, as a linear scan
/// of the store that keeps what the query keeps.
pub proof fn lemma_selects_is_linear_scan(
    store: Seq<Record>,
    out: Seq<Record>,
    keep: spec_fn(Record) -> bool,
)
    requires
        selects(store, out, keep),
    ensures
        out.to_multiset() =~= store.filter(keep).to_multiset(),
        vcvs_of(out).to_multiset() =~= vcvs_of(store.filter(keep)).to_multiset(),
    decreases store.len(),
{
    broadcast use vstd::multiset::group_multiset_axioms;
    broadcast use vstd::seq_lib::group_to_multiset_ensures;

    let slots = choose|slots: Seq<int>|
        exact_slots(store, slots, keep) && out.len() == slots.len() && forall|k: int|
            0 <= k < out.len() ==> #[trigger] out[k] == store[slots[k]];
    if store.len() == 0 {
        if slots.len() > 0 {
            assert(0 <= slots[0] < store.len());
        }
        assert(out =~= Seq::<Record>::empty());
        assert(store.filter(keep) =~= Seq::<Record>::empty()) by {
            store.lemma_filter_len(keep);
        }
        assert(vcvs_of(out) =~= Seq::<u32>::empty());
        assert(vcvs_of(store.filter(keep)) =~= Seq::<u32>::empty());
    } else {
        let n = store.len() - 1;
        let x = store[n];
        let s0 = store.drop_last();
        assert(store =~= s0.push(x));
        s0.lemma_filter_push(x, keep);
        if keep(x) {
            assert(slots.contains(n));
            let p = choose|p: int| 0 <= p < slots.len() && slots[p] == n;
            let slots2 = slots.remove(p);
            let out2 = out.remove(p);
            assert forall|k: int| 0 <= k < slots2.len() implies 0 <= #[trigger] slots2[k] < s0.len() by {
                if k < p {
                    assert(slots2[k] == slots[k]);
                    assert(slots[k] != slots[p]);
                } else {
                    assert(slots2[k] == slots[k + 1]);
                    assert(slots[k + 1] != slots[p]);
                }
            }
            assert(slots2.no_duplicates()) by {
                assert forall|a: int, b: int| 0 <= a < slots2.len() && 0 <= b < slots2.len() && a != b
                    implies slots2[a] != slots2[b] by {
                    let a1 = if a < p { a } else { a + 1 };
                    let b1 = if b < p { b } else { b + 1 };
                    assert(slots2[a] == slots[a1]);
                    assert(slots2[b] == slots[b1]);
                }
            }
            assert forall|i: int| 0 <= i < s0.len() implies (slots2.contains(i) <==> keep(
                #[trigger] s0[i],
            )) by {
                assert(s0[i] == store[i]);
                if slots2.contains(i) {
                    let k = choose|k: int| 0 <= k < slots2.len() && slots2[k] == i;
                    let k1 = if k < p { k } else { k + 1 };
                    assert(slots[k1] == i);
                }
                if slots.contains(i) {
                    let k = choose|k: int| 0 <= k < slots.len() && slots[k] == i;
                    assert(k != p);
                    let k2 = if k < p { k } else { k - 1 };
                    assert(slots2[k2] == i);
                }
            }
            assert forall|k: int| 0 <= k < out2.len() implies #[trigger] out2[k] == s0[slots2[k]] by {
                let k1 = if k < p { k } else { k + 1 };
                assert(out2[k] == out[k1]);
                assert(slots2[k] == slots[k1]);
            }
            assert(exact_slots(s0, slots2, keep));
            lemma_selects_is_linear_scan(s0, out2, keep);
            assert(out[p] == x);
            vstd::seq_lib::to_multiset_remove(out, p);
            assert(out.to_multiset().count(x) > 0) by {
                assert(out.contains(x));
            }
            vstd::seq_lib::to_multiset_build(s0.filter(keep), x);
            assert(out.to_multiset() =~= out2.to_multiset().insert(x));
            let vo = vcvs_of(out);
            assert(vcvs_of(out2) =~= vo.remove(p));
            assert(vo[p] == x.vcv);
            vstd::seq_lib::to_multiset_remove(vo, p);
            assert(vo.to_multiset().count(x.vcv) > 0) by {
                assert(vo.contains(x.vcv));
            }
            assert(vcvs_of(s0.filter(keep).push(x)) =~= vcvs_of(s0.filter(keep)).push(x.vcv));
            vstd::seq_lib::to_multiset_build(vcvs_of(s0.filter(keep)), x.vcv);
            assert(vo.to_multiset() =~= vcvs_of(out2).to_multiset().insert(x.vcv));
        } else {
            assert(!slots.contains(n));
            assert forall|k: int| 0 <= k < slots.len() implies 0 <= #[trigger] slots[k] < s0.len() by {
                if slots[k] == n {
                    assert(slots.contains(n));
                }
            }
            assert forall|i: int| 0 <= i < s0.len() implies (slots.contains(i) <==> keep(
                #[trigger] s0[i],
            )) by {
                assert(s0[i] == store[i]);
            }
            assert forall|k: int| 0 <= k < out.len() implies #[trigger] out[k] == s0[slots[k]] by {
                assert(0 <= slots[k] < s0.len());
            }
            assert(exact_slots(s0, slots, keep));
            lemma_selects_is_linear_scan(s0, out, keep);
        }
    }
}

/// A larger minimal reciprocal overlap admits no span pair that a smaller one
/// rejects.
pub proof fn lemma_reaches_monotone(b: u32, e: u32, qb: u32, qe: u32, m1: Ratio, m2: Ratio)
    requires
        m1.den > 0,
        m2.den > 0,
        ratio_le(m1, m2),
        qb <= qe,
        reaches(b, e, qb, qe, m2),
    ensures
        reaches(b, e, qb, qe, m1),
{
    let o = overlap_len(b, e, qb, qe);
    let l = longest(b, e, qb, qe);
    let n1 = m1.num as int;
    let d1 = m1.den as int;
    let n2 = m2.num as int;
    let d2 = m2.den as int;
    assert(l >= 0);
    assert(o * d2 >= n2 * l);
    assert(n1 * d2 <= n2 * d1);
    assert(o * d1 >= n1 * l) by (nonlinear_arith)
        requires
            l >= 0,
            d1 > 0,
            d2 > 0,
            o * d2 >= n2 * l,
            n1 * d2 <= n2 * d1,
    {
        assert(o * d2 * d1 >= n2 * l * d1);
        assert(n2 * d1 * l >= n1 * d2 * l);
        assert(d2 * (o * d1 - n1 * l) >= 0);
    }
}

/// Scanning with a predicate that keeps less gives a sub-multiset of VCV
/// identifiers.
proof fn lemma_scan_vcvs_monotone(
    store: Seq<Record>,
    k1: spec_fn(Record) -> bool,
    k2: spec_fn(Record) -> bool,
)
    requires
        forall|x: Record| #[trigger] k2(x) ==> k1(x),
    ensures
        vcvs_of(store.filter(k2)).to_multiset().subset_of(vcvs_of(store.filter(k1)).to_multiset()),
    decreases store.len(),
{
    broadcast use vstd::multiset::group_multiset_axioms;
    broadcast use vstd::seq_lib::group_to_multiset_ensures;

    if store.len() == 0 {
        assert(store.filter(k1) =~= Seq::<Record>::empty()) by {
            store.lemma_filter_len(k1);
        }
        assert(store.filter(k2) =~= Seq::<Record>::empty()) by {
            store.lemma_filter_len(k2);
        }
        assert(vcvs_of(store.filter(k2)) =~= Seq::<u32>::empty());
    } else {
        let x = store.last();
        let s0 = store.drop_last();
        assert(store =~= s0.push(x));
        s0.lemma_filter_push(x, k1);
        s0.lemma_filter_push(x, k2);
        lemma_scan_vcvs_monotone(s0, k1, k2);
        let a1 = vcvs_of(s0.filter(k1));
        let a2 = vcvs_of(s0.filter(k2));
        if k1(x) {
            assert(vcvs_of(s0.filter(k1).push(x)) =~= a1.push(x.vcv));
            vstd::seq_lib::to_multiset_build(a1, x.vcv);
        }
        if k2(x) {
            assert(vcvs_of(s0.filter(k2).push(x)) =~= a2.push(x.vcv));
            vstd::seq_lib::to_multiset_build(a2, x.vcv);
        }
    }
}

/// For a reciprocal-overlap query, the VCV identifiers returned for a minimal
/// overlap `m2` form a sub-multiset of those returned for any smaller minimum,
/// and of those returned without a minimum.
pub proof fn lemma_overlap_filter_monotone(
    store: Seq<Record>,
    sv: StructuralVariant,
    min: Option<Pathogenicity>,
    m1: Option<Ratio>,
    m2: Ratio,
    vcvs1: Seq<u32>,
    vcvs2: Seq<u32>,
)
    requires
        m2.den > 0,
        match m1 {
            Some(m) => m.den > 0 && ratio_le(m, m2),
            None => true,
        },
        exists|recs: Seq<Record>|
            selects(store, recs, |x: Record| sv_keep(x, sv, min, m1)) && vcvs1
                == #[trigger] vcvs_of(recs),
        exists|recs: Seq<Record>|
            selects(store, recs, |x: Record| sv_keep(x, sv, min, Some(m2))) && vcvs2
                == #[trigger] vcvs_of(recs),
    ensures
        vcvs2.to_multiset().subset_of(vcvs1.to_multiset()),
{
    let keep1 = |x: Record| sv_keep(x, sv, min, m1);
    let keep2 = |x: Record| sv_keep(x, sv, min, Some(m2));
    let out1 = choose|recs: Seq<Record>| selects(store, recs, keep1) && vcvs1 == #[trigger] vcvs_of(recs);
    let out2 = choose|recs: Seq<Record>| selects(store, recs, keep2) && vcvs2 == #[trigger] vcvs_of(recs);
    lemma_selects_is_linear_scan(store, out1, keep1);
    lemma_selects_is_linear_scan(store, out2, keep2);
    assert forall|x: Record| #[trigger] keep2(x) implies keep1(x) by {
        let qb = sv_begin(sv);
        assert(window_keep(x, qb, sv.end, min, Some(m2)));
        if let Some(m) = m1 {
            lemma_reaches_monotone(x.begin, x.end, qb, sv.end, m, m2);
        }
    }
    lemma_scan_vcvs_monotone(store, keep1, keep2);
}

/// A reciprocal-overlap query whose own type is an insertion or a breakend
/// keeps no record at all.
pub proof fn lemma_spanless_keeps_nothing(
    r: Record,
    sv: StructuralVariant,
    min: Option<Pathogenicity>,
    min_overlap: Option<Ratio>,
)
    requires
        spanless(sv.sv_type),
    ensures
        !sv_keep(r, sv, min, min_overlap),
{
}

/// Every record of a range query with minimal pathogenicity `min` has at
/// least that rank.
pub proof fn lemma_patho_filter_sound(
    store: Seq<Record>,
    out: Seq<Record>,
    qb: u32,
    qe: u32,
    min: Pathogenicity,
)
    requires
        selects(store, out, |x: Record| range_keep(x, qb, qe, Some(min))),
    ensures
        forall|k: int| 0 <= k < out.len() ==> patho_rank(#[trigger] out[k].pathogenicity) >= patho_rank(min),
{
    let keep = |x: Record| range_keep(x, qb, qe, Some(min));
    let slots = choose|slots: Seq<int>|
        exact_slots(store, slots, keep) && out.len() == slots.len() && forall|k: int|
            0 <= k < out.len() ==> #[trigger] out[k] == store[slots[k]];
    assert forall|k: int| 0 <= k < out.len() implies patho_rank(#[trigger] out[k].pathogenicity)
        >= patho_rank(min) by {
        assert(slots.contains(slots[k]));
        assert(keep(store[slots[k]]));
    }
}

/// Every VCV identifier of a reciprocal-overlap query with minimal
/// pathogenicity `min` belongs to a record of the store of at least that rank.
pub proof fn lemma_sv_patho_filter_sound(
    store: Seq<Record>,
    sv: StructuralVariant,
    min: Pathogenicity,
    min_overlap: Option<Ratio>,
    vcvs: Seq<u32>,
)
    requires
        exists|recs: Seq<Record>|
            selects(store, recs, |x: Record| sv_keep(x, sv, Some(min), min_overlap)) && vcvs
                == #[trigger] vcvs_of(recs),
    ensures
        forall|k: int| 0 <= k < vcvs.len() ==> ranked_vcv_in(store, #[trigger] vcvs[k], min),
{
    let keep = |x: Record| sv_keep(x, sv, Some(min), min_overlap);
    let out = choose|recs: Seq<Record>| selects(store, recs, keep) && vcvs == #[trigger] vcvs_of(recs);
    let slots = choose|slots: Seq<int>|
        exact_slots(store, slots, keep) && out.len() == slots.len() && forall|k: int|
            0 <= k < out.len() ==> #[trigger] out[k] == store[slots[k]];
    assert forall|k: int| 0 <= k < vcvs.len() implies ranked_vcv_in(store, #[trigger] vcvs[k], min) by {
        assert(vcvs.len() == out.len());
        let i = slots[k];
        assert(0 <= i < store.len());
        assert(slots.contains(i));
        assert(keep(store[i]));
        assert(out[k] == store[i]);
        assert(vcvs[k] == out[k].vcv);
        assert(patho_rank(store[i].pathogenicity) >= patho_rank(min));
    }
}

/// `v` is the VCV identifier of a record of `store` whose pathogenicity is at
/// least `min`.
pub open spec fn ranked_vcv_in(store: Seq<Record>, v: u32, min: Pathogenicity) -> bool {
    exists|i: int|
        0 <= i < store.len() && #[trigger] store[i].vcv == v && patho_rank(store[i].pathogenicity)
            >= patho_rank(min)
}

/// Without a pathogenicity minimum a range query returns exactly what it
/// returns with the lowest rank as minimum.
pub proof fn lemma_unset_minimum_is_benign(store: Seq<Record>, out: Seq<Record>, qb: u32, qe: u32)
    ensures
        selects(store, out, |x: Record| range_keep(x, qb, qe, None)) <==> selects(
            store,
            out,
            |x: Record| range_keep(x, qb, qe, Some(Pathogenicity::Benign)),
        ),
{
    let k1 = |x: Record| range_keep(x, qb, qe, None);
    let k2 = |x: Record| range_keep(x, qb, qe, Some(Pathogenicity::Benign));
    assert forall|x: Record| #[trigger] k1(x) == k2(x) by {}
    assert(k1 =~= k2);
}

} // verus!

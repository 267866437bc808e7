//! Known ClinVar structural variants: loading into per-chromosome interval
//! trees and overlap queries.
use crate::chrom::{first_slot, ChromMap};
use crate::error::Error;
use crate::schema::{
    patho_of_code, patho_rank, spanless, variation_of_code, Pathogenicity, SvType, VariationType,
};
use crate::tree::{
    hits, tree_entries, tree_find, tree_index, tree_indexed, tree_insert, tree_new,
    unique_payloads, IntervalTree,
};
use vstd::multiset::Multiset;
use vstd::prelude::*;

verus! {

broadcast use vstd::multiset::group_multiset_axioms;

/// Information stored per ClinVar structural variant.
#[derive(Debug, Clone, Copy, PartialEq, Eq, Structural)]
pub struct Record {
    /// 0-based begin position.
    pub begin: u32,
    /// End position (exclusive).
    pub end: u32,
    /// Type of the ClinVar SV variation.
    pub variation_type: VariationType,
    /// Pathogenicity annotation.
    pub pathogenicity: Pathogenicity,
    /// The ClinVar VCV identifier.
    pub vcv: u32,
}

/// A record as it stands in the binary table, before its codes are decoded.
#[derive(Debug, Clone, Copy, PartialEq, Eq, Structural)]
pub struct RawRecord {
    pub chrom_no: u32,
    pub begin: u32,
    pub end: u32,
    pub variation_type: u8,
    pub pathogenicity: u8,
    pub vcv: u32,
}

/// A chromosome name and a half-open range on it.
#[derive(Debug, Clone, PartialEq, Eq)]
pub struct ChromRange {
    pub chromosome: String,
    /// 0-based begin position.
    pub begin: u32,
    /// End position (exclusive).
    pub end: u32,
}

/// A called structural variant, used as the subject of a reciprocal-overlap query.
#[derive(Debug, Clone, PartialEq, Eq)]
pub struct StructuralVariant {
    pub chrom: String,
    /// 1-based start position.
    pub pos: u32,
    /// End position (inclusive, 1-based).
    pub end: u32,
    pub sv_type: SvType,
}

/// The fraction `num / den`, used as a minimal reciprocal overlap; `den` is
/// positive for the fraction to have its usual meaning.
#[derive(Debug, Clone, Copy, PartialEq, Eq, Structural)]
pub struct Ratio {
    pub num: u32,
    pub den: u32,
}

/// Known ClinVar SVs, stored by chromosome.
pub struct ClinvarSv {
    /// Records, stored by chromosome.
    pub records: Vec<Vec<Record>>,
    /// Interval trees, stored by chromosome; payloads are slots into `records`.
    pub trees: Vec<IntervalTree>,
}

/// Whether a raw record can be decoded for a chromosome index of size `n`.
pub open spec fn raw_valid(r: RawRecord, n: nat) -> bool {
    &&& (r.chrom_no as nat) < n
    &&& r.begin <= r.end
    &&& patho_of_code(r.pathogenicity).is_some()
    &&& variation_of_code(r.variation_type).is_some()
}

/// The record that a valid raw record decodes to.
pub open spec fn decoded(r: RawRecord) -> Record {
    Record {
        begin: r.begin,
        end: r.end,
        variation_type: variation_of_code(r.variation_type).unwrap(),
        pathogenicity: patho_of_code(r.pathogenicity).unwrap(),
        vcv: r.vcv,
    }
}

/// The decoded records of chromosome `c`, in the order of the table.
pub open spec fn chrom_records(raw: Seq<RawRecord>, c: int) -> Seq<Record>
    decreases raw.len(),
{
    if raw.len() == 0 {
        Seq::empty()
    } else {
        let prev = chrom_records(raw.drop_last(), c);
        if raw.last().chrom_no as int == c {
            prev.push(decoded(raw.last()))
        } else {
            prev
        }
    }
}

/// The half-open spans `[begin, end)` and `[qb, qe)` have a non-empty
/// intersection: `max(begin, qb) < min(end, qe)`.
pub open spec fn overlaps(begin: u32, end: u32, qb: u32, qe: u32) -> bool {
    begin < end && qb < qe && begin < qe && qb < end
}

/// The lowest rank that the pathogenicity filter keeps.
pub open spec fn min_rank(min: Option<Pathogenicity>) -> nat {
    match min {
        Some(p) => patho_rank(p),
        None => 0,
    }
}

/// Length of the intersection of `[b, e)` and `[qb, qe)`.
pub open spec fn overlap_len(b: u32, e: u32, qb: u32, qe: u32) -> int {
    let lo = if b > qb { b } else { qb };
    let hi = if e < qe { e } else { qe };
    if lo < hi { hi - lo } else { 0 }
}

/// The larger of the two spans' lengths.
pub open spec fn longest(b: u32, e: u32, qb: u32, qe: u32) -> int {
    let l1 = e - b;
    let l2 = qe - qb;
    if l1 > l2 { l1 } else { l2 }
}

/// The reciprocal overlap of `[b, e)` and `[qb, qe)` is at least `m`.
pub open spec fn reaches(b: u32, e: u32, qb: u32, qe: u32, m: Ratio) -> bool {
    overlap_len(b, e, qb, qe) * m.den >= m.num * longest(b, e, qb, qe)
}

/// `m2` is at least `m1` as a fraction.
pub open spec fn ratio_le(m1: Ratio, m2: Ratio) -> bool {
    m1.num * m2.den <= m2.num * m1.den
}

/// What a range query keeps.
pub open spec fn range_keep(r: Record, qb: u32, qe: u32, min: Option<Pathogenicity>) -> bool {
    overlaps(r.begin, r.end, qb, qe) && patho_rank(r.pathogenicity) >= min_rank(min)
}

/// What a query over `[qb, qe)` keeps, with an optional minimal reciprocal overlap.
pub open spec fn window_keep(
    r: Record,
    qb: u32,
    qe: u32,
    min: Option<Pathogenicity>,
    min_overlap: Option<Ratio>,
) -> bool {
    &&& range_keep(r, qb, qe, min)
    &&& match min_overlap {
        Some(m) => reaches(r.begin, r.end, qb, qe, m),
        None => true,
    }
}

/// Begin of the 0-based range of a structural variant.
pub open spec fn sv_begin(sv: StructuralVariant) -> u32 {
    if sv.pos >= 1 { (sv.pos - 1) as u32 } else { 0 }
}

/// What a reciprocal-overlap query keeps.
pub open spec fn sv_keep(
    r: Record,
    sv: StructuralVariant,
    min: Option<Pathogenicity>,
    min_overlap: Option<Ratio>,
) -> bool {
    &&& !spanless(sv.sv_type)
    &&& window_keep(r, sv_begin(sv), sv.end, min, min_overlap)
}

/// `slots` lists, without repetition, exactly the slots of `store` whose record
/// `keep` accepts.
pub open spec fn exact_slots(store: Seq<Record>, slots: Seq<int>, keep: spec_fn(Record) -> bool) -> bool {
    &&& slots.no_duplicates()
    &&& forall|k: int| 0 <= k < slots.len() ==> 0 <= #[trigger] slots[k] < store.len()
    &&& forall|i: int| 0 <= i < store.len() ==> (slots.contains(i) <==> keep(#[trigger] store[i]))
}

/// `out` holds each record of `store` that `keep` accepts once per slot, in
/// some order, and nothing else.
pub open spec fn selects(store: Seq<Record>, out: Seq<Record>, keep: spec_fn(Record) -> bool) -> bool {
    exists|slots: Seq<int>|
        exact_slots(store, slots, keep) && out.len() == slots.len() && forall|k: int|
            0 <= k < out.len() ==> #[trigger] out[k] == store[slots[k]]
}

/// The VCV identifiers of `recs`, in their order.
pub open spec fn vcvs_of(recs: Seq<Record>) -> Seq<u32> {
    recs.map_values(|x: Record| x.vcv)
}

/// The outcome of a range query on `db`: no records where the dataset holds no
/// chromosome; else a lookup error for an unknown chromosome name; else exactly
/// the records of that chromosome that meet `[qb, qe)` and the pathogenicity
/// filter.
pub open spec fn range_fetch(
    db: ClinvarSv,
    chrom_map: Seq<Seq<char>>,
    chrom: Seq<char>,
    qb: u32,
    qe: u32,
    min: Option<Pathogenicity>,
    r: Result<Vec<Record>, Error>,
) -> bool {
    if db.records@.len() == 0 {
        r is Ok && r->Ok_0@.len() == 0
    } else {
        match first_slot(chrom_map, chrom) {
            None => r == Err::<Vec<Record>, Error>(Error::UnknownChromosome),
            Some(c) => r is Ok && selects(db.store(c), r->Ok_0@, |x: Record| range_keep(x, qb, qe, min)),
        }
    }
}

/// Entries of a tree that match the slots of `store` one for one.
pub open spec fn slot_spans(m: Multiset<(u32, u32, u32)>, store: Seq<Record>) -> bool {
    forall|x: (u32, u32, u32)|
        #[trigger] m.count(x) == if (x.2 as int) < store.len() && store[x.2 as int].begin == x.0
            && store[x.2 as int].end == x.1 {
            1nat
        } else {
            0nat
        }
}

/// Whether `[b, e)` and `[qb, qe)` overlap reciprocally by at least `m`: the
/// length of their intersection, divided by the larger of their lengths.
pub fn reciprocal_overlap_reaches(b: u32, e: u32, qb: u32, qe: u32, m: Ratio) -> (r: bool)
    requires
        b <= e,
        qb <= qe,
    ensures
        r == reaches(b, e, qb, qe, m),
{
    let lo = if b > qb { b } else { qb };
    let hi = if e < qe { e } else { qe };
    let ovl: u64 = if lo < hi { (hi - lo) as u64 } else { 0 };
    let l1 = e - b;
    let l2 = qe - qb;
    let long: u64 = if l1 > l2 { l1 as u64 } else { l2 as u64 };
    let den = m.den as u64;
    let num = m.num as u64;
    assert(ovl * den <= 0xFFFF_FFFFu64 * 0xFFFF_FFFFu64) by (nonlinear_arith)
        requires ovl <= 0xFFFF_FFFFu64, den <= 0xFFFF_FFFFu64;
    assert(num * long <= 0xFFFF_FFFFu64 * 0xFFFF_FFFFu64) by (nonlinear_arith)
        requires num <= 0xFFFF_FFFFu64, long <= 0xFFFF_FFFFu64;
    ovl * den >= num * long
}

impl ClinvarSv {
    /// One indexed tree per chromosome, whose entries are the spans of that
    /// chromosome's records with their slots as payload.
    pub open spec fn wf(&self) -> bool {
        &&& self.trees@.len() == self.records@.len()
        &&& forall|c: int|
            0 <= c < self.records@.len() ==> {
                &&& tree_indexed(#[trigger] self.trees@[c])
                &&& slot_spans(tree_entries(self.trees@[c]), self.records@[c]@)
                &&& self.records@[c]@.len() <= u32::MAX
                &&& forall|i: int|
                    0 <= i < self.records@[c]@.len() ==> #[trigger] self.records@[c]@[i].begin
                        <= self.records@[c]@[i].end
            }
    }

    /// Records of chromosome slot `c`; none where the dataset has no such slot.
    pub open spec fn store(&self, c: int) -> Seq<Record> {
        if 0 <= c < self.records@.len() {
            self.records@[c]@
        } else {
            Seq::empty()
        }
    }

    /// A dataset that holds nothing, as for a release declared empty.
    pub fn new() -> (r: ClinvarSv)
        ensures
            r.wf(),
            r.records@.len() == 0,
    {
        ClinvarSv { records: Vec::new(), trees: Vec::new() }
    }

    /// Slots of chromosome `c` whose entries the tree reports for `[qb, qe)`,
    /// each once.
    fn overlapping_slots(&self, c: usize, qb: u32, qe: u32) -> (r: Vec<u32>)
        requires
            self.wf(),
            c < self.records@.len(),
            qb <= qe,
        ensures
            r@.no_duplicates(),
            forall|k: int|
                0 <= k < r@.len() ==> (#[trigger] r@[k] as int) < self.store(c as int).len()
                    && hits(
                    self.store(c as int)[r@[k] as int].begin,
                    self.store(c as int)[r@[k] as int].end,
                    qb,
                    qe,
                ),
            forall|i: int|
                0 <= i < self.store(c as int).len() && hits(
                    #[trigger] self.store(c as int)[i].begin,
                    self.store(c as int)[i].end,
                    qb,
                    qe,
                ) ==> r@.contains(i as u32),
    {
        let r = tree_find(&self.trees[c], qb, qe);
        proof {
            let m = tree_entries(self.trees@[c as int]);
            let store = self.records@[c as int]@;
            assert(slot_spans(m, store));
            assert forall|x: (u32, u32, u32), y: (u32, u32, u32)|
                #[trigger] m.contains(x) && #[trigger] m.contains(y) && x.2 == y.2 implies x
                == y by {
                assert(m.count(x) > 0);
                assert(m.count(y) > 0);
            }
            assert forall|x: (u32, u32, u32)| #[trigger] m.count(x) <= 1 by {}
            assert(unique_payloads(m));
            assert forall|k: int| 0 <= k < r@.len() implies (#[trigger] r@[k] as int)
                < store.len() && hits(store[r@[k] as int].begin, store[r@[k] as int].end, qb, qe) by {
                let (b, e) = choose|b: u32, e: u32|
                    #[trigger] m.contains((b, e, r@[k])) && hits(b, e, qb, qe);
                assert(m.count((b, e, r@[k])) > 0);
            }
            assert forall|i: int|
                0 <= i < store.len() && hits(
                    #[trigger] store[i].begin,
                    store[i].end,
                    qb,
                    qe,
                ) implies r@.contains(i as u32) by {
                assert(m.count((store[i].begin, store[i].end, i as u32)) == 1);
                assert(m.contains((store[i].begin, store[i].end, i as u32)));
            }
        }
        r
    }

    /// Records of chromosome `c` that meet `[qb, qe)` and pass both filters.
    fn filter_slots(
        &self,
        c: usize,
        qb: u32,
        qe: u32,
        min: Option<Pathogenicity>,
        min_overlap: Option<Ratio>,
    ) -> (out: Vec<Record>)
        requires
            self.wf(),
            c < self.records@.len(),
            qb < qe,
        ensures
            selects(self.store(c as int), out@, |x: Record| window_keep(x, qb, qe, min, min_overlap)),
    {
        let slots = self.overlapping_slots(c, qb, qe);
        let floor = match min {
            Some(p) => p,
            None => Pathogenicity::Benign,
        };
        let ghost store = self.store(c as int);
        let ghost keep = |x: Record| window_keep(x, qb, qe, min, min_overlap);
        assert(tree_indexed(self.trees@[c as int]));
        assert forall|i: int| 0 <= i < store.len() implies (#[trigger] store[i]).begin <= store[i].end by {
            assert(self.records@[c as int]@[i].begin <= self.records@[c as int]@[i].end);
        }
        let mut out: Vec<Record> = Vec::new();
        let ghost mut gs: Seq<int> = Seq::empty();
        let mut k: usize = 0;
        while k < slots.len()
            invariant
                self.wf(),
                c < self.records@.len(),
                qb < qe,
                store == self.store(c as int),
                patho_rank(floor) == min_rank(min),
                keep == (|x: Record| window_keep(x, qb, qe, min, min_overlap)),
                store.len() <= u32::MAX,
                forall|i: int| 0 <= i < store.len() ==> (#[trigger] store[i]).begin <= store[i].end,
                0 <= k <= slots@.len(),
                slots@.no_duplicates(),
                forall|j: int|
                    0 <= j < slots@.len() ==> (#[trigger] slots@[j] as int) < store.len()
                        && hits(store[slots@[j] as int].begin, store[slots@[j] as int].end, qb, qe),
                forall|i: int|
                    0 <= i < store.len() && hits(#[trigger] store[i].begin, store[i].end, qb, qe)
                        ==> slots@.contains(i as u32),
                out@.len() == gs.len(),
                gs.no_duplicates(),
                forall|j: int|
                    0 <= j < gs.len() ==> 0 <= #[trigger] gs[j] < store.len() && out@[j] == store[gs[j]],
                forall|i: int|
                    0 <= i < store.len() ==> (#[trigger] gs.contains(i) <==> (keep(store[i])
                        && slots@.take(k as int).contains(i as u32))),
            decreases slots@.len() - k,
        {
            let s = slots[k];
            let rec = self.records[c][s as usize];
            assert(rec == store[s as int]);
            let wide = match min_overlap {
                Some(m) => reciprocal_overlap_reaches(rec.begin, rec.end, qb, qe, m),
                None => true,
            };
            proof {
                let t0 = slots@.take(k as int);
                let t1 = slots@.take(k + 1);
                assert(t1 =~= t0.push(s));
                assert forall|i: int| 0 <= i < store.len() implies (#[trigger] t1.contains(i as u32)
                    <==> (t0.contains(i as u32) || i == s as int)) by {
                    if t1.contains(i as u32) {
                        let j = choose|j: int| 0 <= j < t1.len() && t1[j] == i as u32;
                        if j < k {
                            assert(t0[j] == i as u32);
                        }
                    }
                    if t0.contains(i as u32) {
                        let j = choose|j: int| 0 <= j < t0.len() && t0[j] == i as u32;
                        assert(t1[j] == i as u32);
                    }
                    if i == s as int {
                        assert(t1[k as int] == i as u32);
                    }
                }
                if gs.contains(s as int) {
                    assert(t0.contains(s));
                    let j = choose|j: int| 0 <= j < t0.len() && t0[j] == s;
                    assert(slots@[j] == slots@[k as int]);
                }
            }
            let pass = rec.begin < rec.end && rec.pathogenicity.at_least(&floor) && wide;
            proof {
                assert(pass == window_keep(rec, qb, qe, min, min_overlap));
                assert(pass == keep(store[s as int]));
            }
            if pass {
                out.push(rec);
                proof {
                    let old_gs = gs;
                    gs = gs.push(s as int);
                    assert forall|i: int| 0 <= i < store.len() implies (#[trigger] gs.contains(i) <==> (
                    keep(store[i]) && slots@.take(k + 1).contains(i as u32))) by {
                        if i == s as int {
                            assert(gs[gs.len() - 1] == i);
                            assert(slots@.take(k + 1).contains(i as u32));
                        } else {
                            if gs.contains(i) {
                                let j = choose|j: int| 0 <= j < gs.len() && gs[j] == i;
                                assert(old_gs[j] == i);
                            }
                            if old_gs.contains(i) {
                                let j = choose|j: int| 0 <= j < old_gs.len() && old_gs[j] == i;
                                assert(gs[j] == i);
                            }
                            assert(old_gs.contains(i) <==> (keep(store[i]) && slots@.take(k as int).contains(i as u32)));
                            assert(slots@.take(k + 1).contains(i as u32) <==> slots@.take(k as int).contains(i as u32));
                        }
                    }
                }
            } else {
                proof {
                    assert forall|i: int| 0 <= i < store.len() implies (#[trigger] gs.contains(i) <==> (
                    keep(store[i]) && slots@.take(k + 1).contains(i as u32))) by {
                        assert(gs.contains(i) <==> (keep(store[i]) && slots@.take(k as int).contains(i as u32)));
                        assert(slots@.take(k + 1).contains(i as u32) <==> (slots@.take(k as int).contains(i as u32) || i == s as int));
                    }
                }
            }
            k = k + 1;
        }
        proof {
            assert(slots@.take(k as int) =~= slots@);
            assert forall|i: int| 0 <= i < store.len() implies (gs.contains(i) <==> keep(#[trigger] store[i])) by {
                if keep(store[i]) {
                    assert(overlaps(store[i].begin, store[i].end, qb, qe));
                    assert(hits(store[i].begin, store[i].end, qb, qe));
                    assert(slots@.contains(i as u32));
                    let j = choose|j: int| 0 <= j < slots@.len() && slots@[j] == i as u32;
                    assert(slots@[j] as int == i);
                }
                if gs.contains(i) {}
            }
            assert(exact_slots(store, gs, keep));
        }
        out
    }

    /// Records on the chromosome of `chrom_range` whose spans meet its range and
    /// whose pathogenicity is at least `min_patho` (no filter when absent).
    /// A dataset that holds no chromosome answers every query with no records.
    pub fn fetch_records(
        &self,
        chrom_range: &ChromRange,
        chrom_map: &ChromMap,
        min_patho: Option<Pathogenicity>,
    ) -> (r: Result<Vec<Record>, Error>)
        requires
            self.wf(),
        ensures
            range_fetch(
                *self,
                chrom_map@,
                chrom_range.chromosome@,
                chrom_range.begin,
                chrom_range.end,
                min_patho,
                r,
            ),
    {
        if self.records.len() == 0 {
            return Ok(Vec::new());
        }
        let c = match chrom_map.resolve(&chrom_range.chromosome) {
            Ok(c) => c,
            Err(e) => return Err(e),
        };
        let ghost keep = |x: Record| range_keep(x, chrom_range.begin, chrom_range.end, min_patho);
        if c >= self.records.len() || chrom_range.begin >= chrom_range.end {
            let out: Vec<Record> = Vec::new();
            proof {
                let store = self.store(c as int);
                assert(exact_slots(store, Seq::<int>::empty(), keep));
            }
            return Ok(out);
        }
        let out = self.filter_slots(c, chrom_range.begin, chrom_range.end, min_patho, None);
        proof {
            let k2 = |x: Record| window_keep(x, chrom_range.begin, chrom_range.end, min_patho, None);
            assert forall|x: Record| #[trigger] keep(x) == k2(x) by {}
            assert(keep =~= k2);
            assert(selects(self.store(c as int), out@, keep));
        }
        Ok(out)
    }

    /// VCV identifiers of the records that overlap `sv` reciprocally by at
    /// least `min_overlap` and whose pathogenicity is at least `min_patho`.
    /// Insertions and breakends overlap nothing.
    pub fn overlapping_vcvs(
        &self,
        sv: &StructuralVariant,
        chrom_map: &ChromMap,
        min_patho: Option<Pathogenicity>,
        min_overlap: Option<Ratio>,
    ) -> (r: Result<Vec<u32>, Error>)
        requires
            self.wf(),
        ensures
            spanless(sv.sv_type) ==> r is Ok && r->Ok_0@.len() == 0,
            self.records@.len() == 0 ==> r is Ok && r->Ok_0@.len() == 0,
            !spanless(sv.sv_type) && self.records@.len() > 0 ==> match first_slot(chrom_map@, sv.chrom@) {
                None => r == Err::<Vec<u32>, Error>(Error::UnknownChromosome),
                Some(c) => r is Ok && exists|recs: Seq<Record>|
                    selects(self.store(c), recs, |x: Record| sv_keep(x, *sv, min_patho, min_overlap))
                        && r->Ok_0@ == #[trigger] vcvs_of(recs),
            },
    {
        if sv.sv_type.is_spanless() || self.records.len() == 0 {
            return Ok(Vec::new());
        }
        let c = match chrom_map.resolve(&sv.chrom) {
            Ok(c) => c,
            Err(e) => return Err(e),
        };
        let qb: u32 = if sv.pos >= 1 { sv.pos - 1 } else { 0 };
        let qe = sv.end;
        let ghost keep = |x: Record| sv_keep(x, *sv, min_patho, min_overlap);
        if c >= self.records.len() || qb >= qe {
            let out: Vec<u32> = Vec::new();
            proof {
                let store = self.store(c as int);
                assert(exact_slots(store, Seq::<int>::empty(), keep));
                assert(out@ =~= vcvs_of(Seq::<Record>::empty()));
            }
            return Ok(out);
        }
        let recs = self.filter_slots(c, qb, qe, min_patho, min_overlap);
        proof {
            let k2 = |x: Record| window_keep(x, qb, qe, min_patho, min_overlap);
            assert forall|x: Record| #[trigger] keep(x) == k2(x) by {}
            assert(keep =~= k2);
            assert(selects(self.store(c as int), recs@, keep));
        }
        let mut out: Vec<u32> = Vec::new();
        let mut j: usize = 0;
        while j < recs.len()
            invariant
                j <= recs@.len(),
                out@ =~= recs@.take(j as int).map_values(|x: Record| x.vcv),
            decreases recs@.len() - j,
        {
            out.push(recs[j].vcv);
            proof {
                assert(recs@.take(j + 1) =~= recs@.take(j as int).push(recs@[j as int]));
            }
            j = j + 1;
        }
        proof {
            assert(recs@.take(j as int) =~= recs@);
            assert(out@ =~= vcvs_of(recs@));
        }
        Ok(out)
    }
}

/// Builds a dataset over `n_chroms` chromosome slots from the records of a
/// binary table, in table order: each record goes to the end of its
/// chromosome's store and into that chromosome's tree with its slot as
/// payload; the trees are indexed once all records are in. Fails with a decode
/// error when a record's chromosome or a code is unknown, or its span is
/// reversed.
pub fn load_clinvar_sv(raw: &Vec<RawRecord>, n_chroms: usize) -> (r: Result<ClinvarSv, Error>)
    requires
        raw@.len() <= u32::MAX,
    ensures
        r is Ok <==> forall|i: int| 0 <= i < raw@.len() ==> raw_valid(#[trigger] raw@[i], n_chroms as nat),
        r is Err ==> r == Err::<ClinvarSv, Error>(Error::Decode),
        r is Ok ==> {
            let db = r->Ok_0;
            &&& db.wf()
            &&& db.records@.len() == n_chroms
            &&& forall|c: int| 0 <= c < n_chroms ==> #[trigger] db.store(c) == chrom_records(raw@, c)
        },
{
    let mut records: Vec<Vec<Record>> = Vec::new();
    let mut trees: Vec<IntervalTree> = Vec::new();
    let mut c: usize = 0;
    while c < n_chroms
        invariant
            c <= n_chroms,
            records@.len() == c,
            trees@.len() == c,
            forall|j: int| 0 <= j < c ==> (#[trigger] records@[j])@.len() == 0,
            forall|j: int| 0 <= j < c ==> tree_entries(#[trigger] trees@[j]) =~= Multiset::empty(),
        decreases n_chroms - c,
    {
        records.push(Vec::new());
        trees.push(tree_new());
        c = c + 1;
    }
    let mut i: usize = 0;
    while i < raw.len()
        invariant
            i <= raw@.len(),
            raw@.len() <= u32::MAX,
            records@.len() == n_chroms,
            trees@.len() == n_chroms,
            forall|j: int| 0 <= j < i ==> raw_valid(#[trigger] raw@[j], n_chroms as nat),
            forall|j: int|
                0 <= j < n_chroms ==> {
                    &&& (#[trigger] records@[j])@ == chrom_records(raw@.take(i as int), j)
                    &&& records@[j]@.len() <= i
                    &&& slot_spans(tree_entries(trees@[j]), records@[j]@)
                    &&& forall|k: int|
                        0 <= k < records@[j]@.len() ==> #[trigger] records@[j]@[k].begin
                            <= records@[j]@[k].end
                },
        decreases raw@.len() - i,
    {
        let x = raw[i];
        if x.chrom_no as usize >= n_chroms || x.begin > x.end {
            return Err(Error::Decode);
        }
        let pathogenicity = match Pathogenicity::from_code(x.pathogenicity) {
            Ok(p) => p,
            Err(e) => return Err(e),
        };
        let variation_type = match VariationType::from_code(x.variation_type) {
            Ok(v) => v,
            Err(e) => return Err(e),
        };
        let rec = Record { begin: x.begin, end: x.end, variation_type, pathogenicity, vcv: x.vcv };
        let c = x.chrom_no as usize;
        let slot = records[c].len() as u32;
        let ghost old_records = records@;
        let ghost old_trees = trees@;
        tree_insert(&mut trees[c], x.begin, x.end, slot);
        records[c].push(rec);
        proof {
            assert(raw@.take(i + 1).drop_last() =~= raw@.take(i as int));
            assert(raw@.take(i + 1).last() == x);
            assert(rec == decoded(x));
            assert forall|j: int| 0 <= j < n_chroms implies {
                &&& (#[trigger] records@[j])@ == chrom_records(raw@.take(i + 1), j)
                &&& records@[j]@.len() <= i + 1
                &&& slot_spans(tree_entries(trees@[j]), records@[j]@)
                &&& forall|k: int|
                    0 <= k < records@[j]@.len() ==> #[trigger] records@[j]@[k].begin
                        <= records@[j]@[k].end
            } by {
                if j == c as int {
                    let st = records@[j]@;
                    let ost = old_records[j]@;
                    assert(st == ost.push(rec));
                    let m = tree_entries(trees@[j]);
                    let om = tree_entries(old_trees[j]);
                    assert(m =~= om.insert((x.begin, x.end, slot)));
                    assert forall|y: (u32, u32, u32)|
                        #[trigger] m.count(y) == if (y.2 as int) < st.len() && st[y.2 as int].begin
                            == y.0 && st[y.2 as int].end == y.1 {
                            1nat
                        } else {
                            0nat
                        } by {
                        assert(om.count(y) == if (y.2 as int) < ost.len() && ost[y.2 as int].begin
                            == y.0 && ost[y.2 as int].end == y.1 {
                            1nat
                        } else {
                            0nat
                        });
                        if y == (x.begin, x.end, slot) {
                        } else {
                            if (y.2 as int) < ost.len() {
                                assert(st[y.2 as int] == ost[y.2 as int]);
                            }
                        }
                    }
                    assert forall|k: int| 0 <= k < st.len() implies #[trigger] st[k].begin <= st[k].end by {
                        if k < ost.len() {
                            assert(st[k] == ost[k]);
                            assert(old_records[j]@[k].begin <= old_records[j]@[k].end);
                        }
                    }
                } else {
                    assert(records@[j] == old_records[j]);
                    assert(trees@[j] == old_trees[j]);
                }
            }
        }
        i = i + 1;
    }
    proof {
        assert(raw@.take(raw@.len() as int) =~= raw@);
    }
    let mut c: usize = 0;
    while c < n_chroms
        invariant
            c <= n_chroms,
            records@.len() == n_chroms,
            trees@.len() == n_chroms,
            forall|j: int|
                0 <= j < n_chroms ==> {
                    &&& (#[trigger] records@[j])@ == chrom_records(raw@, j)
                    &&& records@[j]@.len() <= u32::MAX
                    &&& slot_spans(tree_entries(trees@[j]), records@[j]@)
                    &&& forall|k: int|
                        0 <= k < records@[j]@.len() ==> #[trigger] records@[j]@[k].begin
                            <= records@[j]@[k].end
                    &&& j < c ==> tree_indexed(trees@[j])
                },
        decreases n_chroms - c,
    {
        let ghost old_trees = trees@;
        tree_index(&mut trees[c]);
        proof {
            assert forall|j: int| 0 <= j < n_chroms && j != c implies trees@[j] == old_trees[j] by {}
        }
        c = c + 1;
    }
    let db = ClinvarSv { records, trees };
    proof {
        assert forall|j: int| 0 <= j < db.records@.len() implies tree_indexed(#[trigger] db.trees@[j]) by {
            assert(records@[j]@ == chrom_records(raw@, j));
        }
    }
    Ok(db)
}

} // verus!

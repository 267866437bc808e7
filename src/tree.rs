//! The interval tree of the `bio` crate, as the rest of the library sees it.
use bio::data_structures::interval_tree::ArrayBackedIntervalTree;
use vstd::multiset::Multiset;
use vstd::prelude::*;

verus! {

/// Interval tree over `u32` coordinates whose payload is a slot index.
pub type IntervalTree = ArrayBackedIntervalTree<u32, u32>;

#[verifier::external_type_specification]
#[verifier::external_body]
#[verifier::reject_recursive_types(N)]
#[verifier::reject_recursive_types(D)]
pub struct ExArrayBackedIntervalTree<N: Ord + Clone + Copy, D>(ArrayBackedIntervalTree<N, D>);

/// The entries of a tree: one `(begin, end, payload)` per inserted interval.
pub uninterp spec fn tree_entries(t: ArrayBackedIntervalTree<u32, u32>) -> Multiset<(u32, u32, u32)>;

/// Whether the tree has been indexed since its last insertion.
pub uninterp spec fn tree_indexed(t: ArrayBackedIntervalTree<u32, u32>) -> bool;

/// Half-open intersection test that the tree's search applies to each entry.
pub open spec fn hits(begin: u32, end: u32, qb: u32, qe: u32) -> bool {
    begin < qe && qb < end
}

/// No entry occurs twice, and no two entries share a payload.
pub open spec fn unique_payloads(m: Multiset<(u32, u32, u32)>) -> bool {
    &&& forall|x: (u32, u32, u32)| #[trigger] m.count(x) <= 1
    &&& forall|x: (u32, u32, u32), y: (u32, u32, u32)|
        #[trigger] m.contains(x) && #[trigger] m.contains(y) && x.2 == y.2 ==> x == y
}

/// Relies on `ArrayBackedIntervalTree::new`: an empty tree, not yet indexed.
#[verifier::external_body]
pub fn tree_new() -> (t: IntervalTree)
    ensures
        tree_entries(t) =~= Multiset::empty(),
        !tree_indexed(t),
{
    ArrayBackedIntervalTree::new()
}

/// Relies on `ArrayBackedIntervalTree::insert`: appends one entry and clears the
/// indexed flag. Converting `begin..end` into an interval panics when `end < begin`.
#[verifier::external_body]
pub fn tree_insert(t: &mut IntervalTree, begin: u32, end: u32, data: u32)
    requires
        begin <= end,
    ensures
        tree_entries(*final(t)) =~= tree_entries(*old(t)).insert((begin, end, data)),
        !tree_indexed(*final(t)),
{
    t.insert(begin..end, data)
}

/// Relies on `ArrayBackedIntervalTree::index`: reorders the entries for search
/// and sets the indexed flag.
#[verifier::external_body]
pub fn tree_index(t: &mut IntervalTree)
    ensures
        tree_entries(*final(t)) =~= tree_entries(*old(t)),
        tree_indexed(*final(t)),
{
    t.index()
}

/// Relies on `ArrayBackedIntervalTree::find`: reports each entry whose interval
/// meets `[qb, qe)` exactly once, in traversal order. It panics on a tree that
/// is not indexed, and when `qe < qb`.
#[verifier::external_body]
pub fn tree_find(t: &IntervalTree, qb: u32, qe: u32) -> (r: Vec<u32>)
    requires
        tree_indexed(*t),
        qb <= qe,
    ensures
        forall|k: int|
            #![trigger r@[k]]
            0 <= k < r@.len() ==> exists|b: u32, e: u32|
                #[trigger] tree_entries(*t).contains((b, e, r@[k])) && hits(b, e, qb, qe),
        forall|b: u32, e: u32, d: u32|
            #[trigger] tree_entries(*t).contains((b, e, d)) && hits(b, e, qb, qe) ==> r@.contains(d),
        unique_payloads(tree_entries(*t)) ==> r@.no_duplicates(),
{
    t.find(qb..qe).iter().map(|e| *e.data()).collect()
}

} // verus!

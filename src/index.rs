//! The outside collections and parallel sort that version deduplication relies on.
use crate::types::PathData;
use fxhash::FxHashMap;
use rayon::slice::ParallelSliceMut;
use vstd::prelude::*;

verus! {

/// The modification time and size of an entry.
pub type Fingerprint = (i128, u64);

/// Entries keyed by their fingerprint.
pub type VersionIndex = FxHashMap<Fingerprint, PathData>;

#[verifier::external_type_specification]
#[verifier::external_body]
pub struct ExFxHasher(fxhash::FxHasher);

#[verifier::external_type_specification]
#[verifier::external_body]
#[verifier::reject_recursive_types(H)]
pub struct ExBuildHasherDefault<H>(std::hash::BuildHasherDefault<H>);

/// Relies on `FxHashMap::default` (std's `HashMap` with fxhash's hasher): a new map is empty.
#[verifier::external_body]
pub(crate) fn new_version_index() -> (r: VersionIndex)
    ensures
        r@ =~= Map::empty(),
{
    FxHashMap::default()
}

/// Relies on `HashMap::insert` over `FxHashMap`: the key now maps to the value, and every
/// other key keeps its value. Keys are pairs of integers, whose `Eq` and `Hash` are std's.
#[verifier::external_body]
pub(crate) fn version_index_insert(
    m: &mut VersionIndex,
    k: Fingerprint,
    v: PathData,
)
    ensures
        final(m)@ == old(m)@.insert(k, v),
{
    let _ = m.insert(k, v);
}

/// `r` holds the value of each key of `m` exactly once.
pub open spec fn lists_each_value_once(r: Seq<PathData>, m: Map<Fingerprint, PathData>) -> bool {
    exists|ks: Seq<Fingerprint>|
        {
            &&& ks.len() == r.len()
            &&& ks.no_duplicates()
            &&& ks.to_set() == m.dom()
            &&& forall|i: int| 0 <= i < ks.len() ==> r[i] == m[#[trigger] ks[i]]
        }
}

/// Relies on `HashMap::into_values` over `FxHashMap`: the value of each key exactly once,
/// in an unspecified order.
#[verifier::external_body]
pub(crate) fn version_index_values(m: VersionIndex) -> (r: Vec<PathData>)
    ensures
        lists_each_value_once(r@, m@),
{
    m.into_values().collect()
}

/// Relies on rayon's `par_sort_unstable_by_key`: the same entries, reordered so that
/// modification times ascend.
#[verifier::external_body]
pub(crate) fn sort_by_time(v: &mut Vec<PathData>)
    ensures
        final(v)@.to_multiset() == old(v)@.to_multiset(),
        forall|i: int, j: int|
            0 <= i <= j < final(v)@.len() ==> (#[trigger] final(v)@[i]).system_time
                <= (#[trigger] final(v)@[j]).system_time,
{
    v.par_sort_unstable_by_key(|p| p.system_time);
}

} // verus!

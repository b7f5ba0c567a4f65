//! The hash collections of the index: std's `HashMap` and `HashSet` with the
//! hasher of the `fxhash` crate.
//!
//! Nothing here is proved. The contracts that vstd gives to the methods of
//! these collections hold only for the hashers that it knows, and this one
//! is none of them. So what each collection holds has a name, and each
//! function below says of one method of std what it does to the named
//! contents. Keys are compared by `Eq` and hashed by `Hash`: for a pair of
//! integers both are std's own, for a [`Key`] both are derived from its text
//! or element, so that two keys are the same key exactly when their views
//! are equal.

use crate::ids::OpId;
use crate::owned::OwnedMarkData;
use crate::types::{Key, KeyView, MarkDataView};
use fxhash::FxBuildHasher;
use std::collections::{HashMap, HashSet};
use vstd::prelude::*;

verus! {

/// The hasher of the `fxhash` crate.
#[verifier::external_type_specification]
#[verifier::external_body]
pub struct ExFxHasher(fxhash::FxHasher);

/// The hasher builder of std that makes each hasher by `Default`.
#[verifier::external_type_specification]
#[verifier::external_body]
#[verifier::reject_recursive_types(H)]
pub struct ExBuildHasherDefault<H>(std::hash::BuildHasherDefault<H>);

/// The operation identifiers that a set holds, each as the pair of its
/// counter and its actor.
pub uninterp spec fn id_set(s: HashSet<(u64, usize), FxBuildHasher>) -> Set<OpId>;

/// The counts that a map holds, by key.
pub uninterp spec fn key_counts(m: HashMap<Key, usize, FxBuildHasher>) -> Map<KeyView, nat>;

/// The marks that a map holds, by the identifier of the operation that
/// opened each.
pub uninterp spec fn mark_map(m: HashMap<(u64, usize), OwnedMarkData, FxBuildHasher>) -> Map<
    OpId,
    MarkDataView,
>;

/// `HashSet::default`: a set that holds nothing.
#[verifier::external_body]
pub(crate) fn id_set_new() -> (s: HashSet<(u64, usize), FxBuildHasher>)
    ensures
        id_set(s) == Set::<OpId>::empty(),
{
    HashSet::default()
}

/// `HashSet::clone`: a set that holds what `s` holds.
#[verifier::external_body]
pub(crate) fn id_set_clone(s: &HashSet<(u64, usize), FxBuildHasher>) -> (c: HashSet<
    (u64, usize),
    FxBuildHasher,
>)
    ensures
        id_set(c) == id_set(*s),
{
    s.clone()
}

/// `HashSet::insert`: the set holds `id` besides what it held.
#[verifier::external_body]
pub(crate) fn id_set_insert(s: &mut HashSet<(u64, usize), FxBuildHasher>, id: OpId)
    ensures
        id_set(*final(s)) == id_set(*old(s)).insert(id),
{
    s.insert((id.counter, id.actor));
}

/// `HashSet::remove`: the set holds what it held but `id`.
#[verifier::external_body]
pub(crate) fn id_set_remove(s: &mut HashSet<(u64, usize), FxBuildHasher>, id: &OpId)
    ensures
        id_set(*final(s)) == id_set(*old(s)).remove(*id),
{
    s.remove(&(id.counter, id.actor));
}

/// `HashSet::contains`: whether the set holds `id`.
#[verifier::external_body]
pub(crate) fn id_set_contains(s: &HashSet<(u64, usize), FxBuildHasher>, id: &OpId) -> (b: bool)
    ensures
        b == id_set(*s).contains(*id),
{
    s.contains(&(id.counter, id.actor))
}

/// `HashSet::len`: the number of identifiers that the set holds.
#[verifier::external_body]
pub(crate) fn id_set_len(s: &HashSet<(u64, usize), FxBuildHasher>) -> (n: usize)
    ensures
        n == id_set(*s).len(),
{
    s.len()
}

/// `HashSet::iter`: the identifiers that the set holds, each once, in the
/// order in which the set is walked, of which nothing is said.
#[verifier::external_body]
pub(crate) fn id_set_items(s: &HashSet<(u64, usize), FxBuildHasher>) -> (v: Vec<OpId>)
    ensures
        forall|id: OpId| id_set(*s).contains(id) <==> v@.contains(id),
        v@.no_duplicates(),
{
    s.iter().map(|p| OpId { counter: p.0, actor: p.1 }).collect()
}

/// `HashMap::default`: a map that holds nothing.
#[verifier::external_body]
pub(crate) fn key_counts_new() -> (m: HashMap<Key, usize, FxBuildHasher>)
    ensures
        key_counts(m) == (Map::<KeyView, nat>::empty()),
{
    HashMap::default()
}

/// `HashMap::clone`: a map that holds what `m` holds.
#[verifier::external_body]
pub(crate) fn key_counts_clone(m: &HashMap<Key, usize, FxBuildHasher>) -> (c: HashMap<
    Key,
    usize,
    FxBuildHasher,
>)
    ensures
        key_counts(c) == key_counts(*m),
{
    m.clone()
}

/// `HashMap::get`: the count held for `key`, if one is.
#[verifier::external_body]
pub(crate) fn key_counts_get(m: &HashMap<Key, usize, FxBuildHasher>, key: &Key) -> (r: Option<
    usize,
>)
    ensures
        match r {
            Some(n) => key_counts(*m).contains_key(key@) && key_counts(*m)[key@] == n,
            None => !key_counts(*m).contains_key(key@),
        },
{
    m.get(key).copied()
}

/// `HashMap::contains_key`: whether a count is held for `key`.
#[verifier::external_body]
pub(crate) fn key_counts_contains(m: &HashMap<Key, usize, FxBuildHasher>, key: &Key) -> (b: bool)
    ensures
        b == key_counts(*m).contains_key(key@),
{
    m.contains_key(key)
}

/// `HashMap::len`: the number of keys for which a count is held.
#[verifier::external_body]
pub(crate) fn key_counts_len(m: &HashMap<Key, usize, FxBuildHasher>) -> (n: usize)
    ensures
        n == key_counts(*m).dom().len(),
{
    m.len()
}

/// `HashMap::insert`: the map holds `n` for `key`, and for every other key
/// what it held.
#[verifier::external_body]
pub(crate) fn key_counts_insert(m: &mut HashMap<Key, usize, FxBuildHasher>, key: Key, n: usize)
    ensures
        key_counts(*final(m)) == key_counts(*old(m)).insert(key@, n as nat),
{
    m.insert(key, n);
}

/// `HashMap::remove`: the map holds nothing for `key`, and for every other
/// key what it held.
#[verifier::external_body]
pub(crate) fn key_counts_remove(m: &mut HashMap<Key, usize, FxBuildHasher>, key: &Key)
    ensures
        key_counts(*final(m)) == key_counts(*old(m)).remove(key@),
{
    m.remove(key);
}

/// `HashMap::iter`: the keys of the map with their counts, each key once, in
/// the order in which the map is walked, of which nothing is said.
#[verifier::external_body]
pub(crate) fn key_counts_entries<'a>(m: &'a HashMap<Key, usize, FxBuildHasher>) -> (v: Vec<
    (&'a Key, usize),
>)
    ensures
        forall|i: int|
            0 <= i < v.len() ==> key_counts(*m).contains_key((#[trigger] v[i]).0@) && key_counts(
                *m,
            )[v[i].0@] == v[i].1,
        forall|k: KeyView|
            key_counts(*m).contains_key(k) ==> exists|i: int|
                0 <= i < v.len() && (#[trigger] v[i]).0@ == k,
        forall|i: int, j: int| 0 <= i < j < v.len() ==> v[i].0@ != v[j].0@,
{
    m.iter().map(|(k, n)| (k, *n)).collect()
}

/// `HashMap::default`: a map that holds nothing.
#[verifier::external_body]
pub(crate) fn mark_map_new() -> (m: HashMap<(u64, usize), OwnedMarkData, FxBuildHasher>)
    ensures
        mark_map(m) == (Map::<OpId, MarkDataView>::empty()),
{
    HashMap::default()
}

/// `HashMap::clone`: a map that holds what `m` holds.
#[verifier::external_body]
pub(crate) fn mark_map_clone(m: &HashMap<(u64, usize), OwnedMarkData, FxBuildHasher>) -> (c:
    HashMap<(u64, usize), OwnedMarkData, FxBuildHasher>)
    ensures
        mark_map(c) == mark_map(*m),
{
    m.clone()
}

/// `HashMap::insert`: the map holds `data` for `id`, and for every other
/// identifier what it held.
#[verifier::external_body]
pub(crate) fn mark_map_insert(
    m: &mut HashMap<(u64, usize), OwnedMarkData, FxBuildHasher>,
    id: OpId,
    data: OwnedMarkData,
)
    ensures
        mark_map(*final(m)) == mark_map(*old(m)).insert(id, data@),
{
    m.insert((id.counter, id.actor), data);
}

/// `HashMap::remove`: the map holds nothing for `id`, and for every other
/// identifier what it held; the result is the mark that it held for `id`,
/// if it held one.
#[verifier::external_body]
pub(crate) fn mark_map_remove(
    m: &mut HashMap<(u64, usize), OwnedMarkData, FxBuildHasher>,
    id: &OpId,
) -> (taken: Option<OwnedMarkData>)
    ensures
        mark_map(*final(m)) == mark_map(*old(m)).remove(*id),
        match taken {
            Some(data) => mark_map(*old(m)).contains_key(*id) && mark_map(*old(m))[*id] == data@,
            None => !mark_map(*old(m)).contains_key(*id),
        },
{
    m.remove(&(id.counter, id.actor))
}

/// `HashMap::contains_key`: whether a mark is held for `id`.
#[verifier::external_body]
pub(crate) fn mark_map_contains(
    m: &HashMap<(u64, usize), OwnedMarkData, FxBuildHasher>,
    id: &OpId,
) -> (b: bool)
    ensures
        b == mark_map(*m).contains_key(*id),
{
    m.contains_key(&(id.counter, id.actor))
}

/// `HashMap::keys`: the identifiers for which a mark is held, each once, in
/// the order in which the map is walked, of which nothing is said.
#[verifier::external_body]
pub(crate) fn mark_map_ids(m: &HashMap<(u64, usize), OwnedMarkData, FxBuildHasher>) -> (v: Vec<
    OpId,
>)
    ensures
        forall|id: OpId| mark_map(*m).contains_key(id) <==> v@.contains(id),
        v@.no_duplicates(),
{
    m.keys().map(|p| OpId { counter: p.0, actor: p.1 }).collect()
}

/// `HashMap::len`: the number of marks held.
#[verifier::external_body]
pub(crate) fn mark_map_len(m: &HashMap<(u64, usize), OwnedMarkData, FxBuildHasher>) -> (n: usize)
    ensures
        n == mark_map(*m).dom().len(),
{
    m.len()
}

/// `HashMap::extend` with the entries of another map: the map holds what
/// the other held, and besides it what it held for the identifiers that
/// the other did not hold.
#[verifier::external_body]
pub(crate) fn mark_map_extend(
    m: &mut HashMap<(u64, usize), OwnedMarkData, FxBuildHasher>,
    other: HashMap<(u64, usize), OwnedMarkData, FxBuildHasher>,
)
    ensures
        mark_map(*final(m)) == mark_map(*old(m)).union_prefer_right(mark_map(other)),
{
    m.extend(other);
}

} // verus!

//! The lookup tables the core keeps: a hash map for config tables and an
//! insertion-ordered map for per-alert output fields, both from outside
//! crates and used through trusted contracts.
use vstd::prelude::*;

verus! {

#[verifier::external_type_specification]
#[verifier::external_body]
#[verifier::reject_recursive_types(K)]
#[verifier::reject_recursive_types(V)]
#[verifier::reject_recursive_types(S)]
pub struct ExLinkedHashMap<K, V, S>(linked_hash_map::LinkedHashMap<K, V, S>);

/// The (key, value) pairs an insertion-ordered map holds, oldest first:
/// the order its iterator walks.
pub uninterp spec fn lhm_pairs(m: linked_hash_map::LinkedHashMap<String, String>) -> Seq<
    (Seq<char>, Seq<char>),
>;

/// Whether no key occurs twice.
pub open spec fn keys_unique(ps: Seq<(Seq<char>, Seq<char>)>) -> bool {
    forall|i: int, j: int| 0 <= i < j < ps.len() ==> ps[i].0 != ps[j].0
}

/// The position of the entry holding `k`, `-1` where there is none.
pub open spec fn key_index(ps: Seq<(Seq<char>, Seq<char>)>, k: Seq<char>) -> int
    decreases ps.len(),
{
    if ps.len() == 0 {
        -1
    } else if ps[0].0 == k {
        0
    } else if key_index(ps.drop_first(), k) == -1 {
        -1
    } else {
        key_index(ps.drop_first(), k) + 1
    }
}

pub proof fn lemma_key_index(ps: Seq<(Seq<char>, Seq<char>)>, k: Seq<char>)
    ensures
        key_index(ps, k) == -1 ==> forall|i: int| 0 <= i < ps.len() ==> ps[i].0 != k,
        key_index(ps, k) != -1 ==> 0 <= key_index(ps, k) < ps.len() && ps[key_index(ps, k)].0
            == k,
    decreases ps.len(),
{
    if ps.len() > 0 {
        lemma_key_index(ps.drop_first(), k);
        if ps[0].0 != k && key_index(ps.drop_first(), k) == -1 {
            assert forall|i: int| 0 <= i < ps.len() implies ps[i].0 != k by {
                if i > 0 {
                    assert(ps.drop_first()[i - 1] == ps[i]);
                }
            }
        }
    }
}

/// Relies on `LinkedHashMap::clone`; nothing is assumed of the copy.
pub assume_specification<K, V, S>[ <linked_hash_map::LinkedHashMap<
    K,
    V,
    S,
> as std::clone::Clone>::clone ](m: &linked_hash_map::LinkedHashMap<K, V, S>)
    -> linked_hash_map::LinkedHashMap<K, V, S>
    where
        K: std::hash::Hash + std::cmp::Eq + std::clone::Clone,
        S: std::hash::BuildHasher + std::clone::Clone,
        V: std::clone::Clone,
;

/// Relies on `LinkedHashMap::new`: the fresh map is empty.
#[verifier::external_body]
pub fn lhm_new() -> (r: linked_hash_map::LinkedHashMap<String, String>)
    ensures
        lhm_pairs(r) == Seq::<(Seq<char>, Seq<char>)>::empty(),
{
    linked_hash_map::LinkedHashMap::new()
}

/// Relies on `LinkedHashMap::insert`: a fresh key lands at the back, an
/// existing key's entry gets the new value and moves to the back. Keys
/// stay pairwise distinct.
#[verifier::external_body]
pub fn lhm_insert(m: &mut linked_hash_map::LinkedHashMap<String, String>, k: String, v: String)
    ensures
        ({
            let ps = lhm_pairs(*old(m));
            let i = key_index(ps, k@);
            lhm_pairs(*final(m)) == if i == -1 {
                ps.push((k@, v@))
            } else {
                ps.remove(i).push((k@, v@))
            }
        }),
        keys_unique(lhm_pairs(*final(m))),
{
    m.insert(k, v);
}

/// Relies on `LinkedHashMap::iter`: entries come oldest first.
#[verifier::external_body]
pub fn lhm_entries(m: &linked_hash_map::LinkedHashMap<String, String>) -> (r: Vec<
    (String, String),
>)
    ensures
        entry_views(r@) == lhm_pairs(*m),
        keys_unique(entry_views(r@)),
{
    m.iter().map(|(k, v)| (k.clone(), v.clone())).collect()
}

/// The views of a vector of owned (key, value) pairs.
pub open spec fn entry_views(ps: Seq<(String, String)>) -> Seq<(Seq<char>, Seq<char>)> {
    Seq::new(ps.len(), |i: int| (ps[i].0@, ps[i].1@))
}

/// A lookup table from lower-cased names to display text, immutable after
/// load. The hash map inside comes from an outside crate whose type Verus
/// cannot declare, so the whole struct stays opaque and is used through
/// the trusted contracts below.
#[verifier::external_body]
pub struct StringTable {
    inner: hashbrown::HashMap<String, String>,
}

/// What a lookup table holds.
pub uninterp spec fn table_map(t: StringTable) -> Map<Seq<char>, Seq<char>>;

impl StringTable {
    /// Relies on `hashbrown::HashMap::new`: the fresh table is empty.
    #[verifier::external_body]
    pub fn new() -> (r: StringTable)
        ensures
            forall|k: Seq<char>| !(#[trigger] table_map(r).contains_key(k)),
    {
        StringTable { inner: hashbrown::HashMap::new() }
    }

    /// Relies on `hashbrown::HashMap::insert`: the key now maps to `v`,
    /// nothing else changes.
    #[verifier::external_body]
    pub fn insert(&mut self, k: String, v: String)
        ensures
            table_map(*final(self)) == table_map(*old(self)).insert(k@, v@),
    {
        self.inner.insert(k, v);
    }

    /// Relies on `hashbrown::HashMap::get`: the value stored under `k`.
    #[verifier::external_body]
    pub fn get(&self, k: &str) -> (r: Option<&String>)
        ensures
            match r {
                Option::Some(v) => table_map(*self).contains_key(k@) && table_map(*self)[k@]
                    == v@,
                Option::None => !table_map(*self).contains_key(k@),
            },
    {
        self.inner.get(k)
    }

    /// Relies on `hashbrown::HashMap::len`: how many keys the table holds.
    #[verifier::external_body]
    pub fn len(&self) -> (r: usize)
        ensures
            r == table_map(*self).dom().len(),
    {
        self.inner.len()
    }
}

} // verus!

//! Insertion-ordered maps with text keys (`indexmap::IndexMap`), modelled by
//! their entries in order.
use vstd::prelude::*;

verus! {

#[verifier::external_type_specification]
#[verifier::external_body]
#[verifier::reject_recursive_types(K)]
#[verifier::reject_recursive_types(V)]
#[verifier::reject_recursive_types(S)]
pub struct ExIndexMap<K, V, S>(indexmap::IndexMap<K, V, S>);

/// Index of the first entry with key `k`.
pub open spec fn assoc_find<V>(e: Seq<(Seq<char>, V)>, k: Seq<char>) -> Option<int>
    decreases e.len(),
{
    if e.len() == 0 {
        None
    } else {
        match assoc_find(e.drop_last(), k) {
            Some(i) => Some(i),
            None => if e.last().0 == k {
                Some(e.len() - 1)
            } else {
                None
            },
        }
    }
}

/// The value of the first entry with key `k`.
pub open spec fn assoc_get<V>(e: Seq<(Seq<char>, V)>, k: Seq<char>) -> Option<V> {
    match assoc_find(e, k) {
        Some(i) => Some(e[i].1),
        None => None,
    }
}

/// `IndexMap::insert`: an existing key keeps its place and takes the new
/// value; a new key goes last.
pub open spec fn assoc_insert<V>(e: Seq<(Seq<char>, V)>, k: Seq<char>, v: V) -> Seq<(Seq<char>, V)> {
    match assoc_find(e, k) {
        Some(i) => e.update(i, (k, v)),
        None => e.push((k, v)),
    }
}

/// `assoc_find` gives the first index holding the key, or `None` when no
/// entry holds it.
pub proof fn lemma_assoc_find<V>(e: Seq<(Seq<char>, V)>, k: Seq<char>)
    ensures
        assoc_find(e, k) matches Some(i) ==> {
            &&& 0 <= i < e.len()
            &&& e[i].0 == k
            &&& forall|j: int| 0 <= j < i ==> e[j].0 != k
        },
        assoc_find(e, k) is None ==> forall|j: int| 0 <= j < e.len() ==> e[j].0 != k,
    decreases e.len(),
{
    if e.len() > 0 {
        let r = e.drop_last();
        lemma_assoc_find(r, k);
        assert(forall|j: int| 0 <= j < r.len() ==> r[j] == e[j]);
    }
}

/// Reading a key back after an insert gives the inserted value; other keys
/// read what they read before.
pub proof fn lemma_assoc_get_insert<V>(e: Seq<(Seq<char>, V)>, k: Seq<char>, v: V, k2: Seq<char>)
    ensures
        assoc_get(assoc_insert(e, k, v), k2) == if k2 == k {
            Some(v)
        } else {
            assoc_get(e, k2)
        },
{
    let e2 = assoc_insert(e, k, v);
    lemma_assoc_find(e, k);
    lemma_assoc_find(e, k2);
    lemma_assoc_find(e2, k2);
    match assoc_find(e, k) {
        Some(i) => {
            assert(e2.len() == e.len());
            match assoc_find(e2, k2) {
                Some(j) => {
                    if k2 != k {
                        assert(e2[j] == e[j]);
                        match assoc_find(e, k2) {
                            Some(m) => {
                                assert(e2[m] == e[m]);
                            },
                            None => {},
                        }
                    } else {
                        assert(e2[i].0 == k);
                    }
                },
                None => {
                    if k2 == k {
                        assert(e2[i].0 == k);
                    } else {
                        match assoc_find(e, k2) {
                            Some(m) => {
                                assert(e2[m] == e[m]);
                            },
                            None => {},
                        }
                    }
                },
            }
        },
        None => {
            assert(e2 == e.push((k, v)));
            match assoc_find(e2, k2) {
                Some(j) => {
                    if j < e.len() {
                        assert(e2[j] == e[j]);
                        match assoc_find(e, k2) {
                            Some(m) => {
                                assert(e2[m] == e[m]);
                            },
                            None => {},
                        }
                    }
                },
                None => {
                    assert(e2[e.len() as int].0 == k);
                    match assoc_find(e, k2) {
                        Some(m) => {
                            assert(e2[m] == e[m]);
                        },
                        None => {},
                    }
                },
            }
        },
    }
}

/// The entries of a map from file names to texts, in insertion order.
pub uninterp spec fn text_map_entries(m: indexmap::IndexMap<String, String>) -> Seq<(Seq<char>, Seq<char>)>;

/// `IndexMap::new`.
#[verifier::external_body]
pub(crate) fn text_map_new() -> (r: indexmap::IndexMap<String, String>)
    ensures
        text_map_entries(r) == Seq::<(Seq<char>, Seq<char>)>::empty(),
{
    indexmap::IndexMap::new()
}

/// `IndexMap::insert`.
#[verifier::external_body]
pub(crate) fn text_map_insert(m: &mut indexmap::IndexMap<String, String>, k: String, v: String)
    ensures
        text_map_entries(*final(m)) == assoc_insert(text_map_entries(*old(m)), k@, v@),
{
    m.insert(k, v);
}

/// `IndexMap::clone`: a map with the same entries in the same order.
#[verifier::external_body]
pub(crate) fn text_map_clone(m: &indexmap::IndexMap<String, String>) -> (r: indexmap::IndexMap<String, String>)
    ensures
        text_map_entries(r) == text_map_entries(*m),
{
    m.clone()
}

/// `IndexMap::iter`, each entry copied out, in order.
#[verifier::external_body]
pub(crate) fn text_map_pairs(m: &indexmap::IndexMap<String, String>) -> (r: Vec<(String, String)>)
    ensures
        r.deep_view() == text_map_entries(*m),
{
    m.iter().map(|(k, v)| (k.clone(), v.clone())).collect()
}

} // verus!

//! The ordered name-to-URL map of an index, kept in a `LinkedHashMap`.
use vstd::prelude::*;
use linked_hash_map::LinkedHashMap;
use crate::url::WebUrl;

verus! {

#[verifier::external_type_specification]
#[verifier::external_body]
#[verifier::reject_recursive_types(K)]
#[verifier::reject_recursive_types(V)]
#[verifier::reject_recursive_types(S)]
pub struct ExLinkedHashMap<K, V, S>(LinkedHashMap<K, V, S>);

/// The entries of `m` as (name, URL) pairs, in the map's order.
pub uninterp spec fn linked_entries(m: LinkedHashMap<String, WebUrl>) -> Seq<(Seq<char>, Seq<char>)>;

/// `es` without the entries named `k`.
pub open spec fn remove_key(es: Seq<(Seq<char>, Seq<char>)>, k: Seq<char>) -> Seq<(Seq<char>, Seq<char>)>
    decreases es.len(),
{
    if es.len() == 0 {
        es
    } else if es.last().0 == k {
        remove_key(es.drop_last(), k)
    } else {
        remove_key(es.drop_last(), k).push(es.last())
    }
}

/// `es` after inserting `(k, v)`: an entry named `k` is replaced and moves to the end.
pub open spec fn put_entry(es: Seq<(Seq<char>, Seq<char>)>, k: Seq<char>, v: Seq<char>) -> Seq<(Seq<char>, Seq<char>)> {
    remove_key(es, k).push((k, v))
}

/// Whether no name occurs twice in `es`.
pub open spec fn distinct_names(es: Seq<(Seq<char>, Seq<char>)>) -> bool {
    forall|i: int, j: int| 0 <= i < j < es.len() ==> es[i].0 != es[j].0
}

/// Whether some entry of `es` is named `k`.
pub open spec fn has_name(es: Seq<(Seq<char>, Seq<char>)>, k: Seq<char>) -> bool {
    exists|i: int| 0 <= i < es.len() && es[i].0 == k
}

/// Removing a name that does not occur changes nothing.
pub proof fn lemma_remove_absent(es: Seq<(Seq<char>, Seq<char>)>, k: Seq<char>)
    requires
        !has_name(es, k),
    ensures
        remove_key(es, k) == es,
    decreases es.len(),
{
    if es.len() > 0 {
        assert(!has_name(es.drop_last(), k)) by {
            if has_name(es.drop_last(), k) {
                let i = choose|i: int| 0 <= i < es.drop_last().len() && es.drop_last()[i].0 == k;
                assert(es[i].0 == k);
            }
        }
        lemma_remove_absent(es.drop_last(), k);
        assert(es.last().0 != k);
        assert(es.drop_last().push(es.last()) =~= es);
    }
}

/// Relies on `LinkedHashMap::new`: an empty map.
#[verifier::external_body]
pub(crate) fn new_files() -> (m: LinkedHashMap<String, WebUrl>)
    ensures
        linked_entries(m) == Seq::<(Seq<char>, Seq<char>)>::empty(),
{
    LinkedHashMap::new()
}

/// Relies on `LinkedHashMap::insert`: a new key goes to the end; an existing
/// key gets the new value and moves to the end.
#[verifier::external_body]
pub(crate) fn insert_file(m: &mut LinkedHashMap<String, WebUrl>, k: String, v: WebUrl)
    ensures
        linked_entries(*final(m)) == put_entry(linked_entries(*old(m)), k@, v@),
{
    m.insert(k, v);
}

/// Relies on `LinkedHashMap::iter`: the entries in the map's order.
#[verifier::external_body]
pub(crate) fn files_in_order(m: &LinkedHashMap<String, WebUrl>) -> (r: Vec<(String, WebUrl)>)
    ensures
        r@.len() == linked_entries(*m).len(),
        forall|i: int| 0 <= i < r@.len() ==> (#[trigger] r@[i]).0@ == linked_entries(*m)[i].0
            && r@[i].1@ == linked_entries(*m)[i].1,
{
    m.iter().map(|(k, v)| (k.clone(), v.clone())).collect()
}

} // verus!

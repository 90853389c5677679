use crate::title_key::{compare_by_suffix, suffix_rank};
use indexmap::IndexMap;
use vstd::prelude::*;

verus! {

#[verifier::external_type_specification]
#[verifier::external_body]
#[verifier::reject_recursive_types(K)]
#[verifier::reject_recursive_types(V)]
#[verifier::reject_recursive_types(S)]
pub struct ExIndexMap<K, V, S>(IndexMap<K, V, S>);

/// The entries of a title-to-pages index, in their order.
pub uninterp spec fn index_entries(m: IndexMap<String, u32>) -> Seq<(Seq<char>, u32)>;

/// No two entries share a title.
pub open spec fn titles_unique(e: Seq<(Seq<char>, u32)>) -> bool {
    forall|i: int, j: int|
        0 <= i < e.len() && 0 <= j < e.len() && i != j ==> #[trigger] e[i].0 != #[trigger] e[j].0
}

/// `after` holds the entries of `before`, ordered by ascending sort rank,
/// with entries of equal rank in the order they had in `before`.
pub open spec fn is_stable_rank_sort(
    before: Seq<(Seq<char>, u32)>,
    after: Seq<(Seq<char>, u32)>,
) -> bool {
    &&& after.len() == before.len()
    &&& after.to_multiset() == before.to_multiset()
    &&& forall|i: int, j: int|
        0 <= i < j < after.len() ==> suffix_rank(#[trigger] after[i].0) <= suffix_rank(
            #[trigger] after[j].0,
        )
    &&& forall|i: int, j: int|
        0 <= i < j < after.len() && suffix_rank(#[trigger] after[i].0) == suffix_rank(
            #[trigger] after[j].0,
        ) ==> exists|p: int, q: int|
            0 <= p < q < before.len() && before[p] == after[i] && before[q] == after[j]
}

/// Relies on `IndexMap::new`: a new map is empty.
#[verifier::external_body]
pub(crate) fn index_new() -> (r: IndexMap<String, u32>)
    ensures
        index_entries(r) == Seq::<(Seq<char>, u32)>::empty(),
{
    IndexMap::new()
}

/// Relies on `IndexMap::len`: the number of entries.
#[verifier::external_body]
pub(crate) fn index_len(m: &IndexMap<String, u32>) -> (r: usize)
    ensures
        r == index_entries(*m).len(),
{
    m.len()
}

/// Relies on `IndexMap::get_index_of`: the position of the entry with this
/// title, if there is one.
#[verifier::external_body]
pub(crate) fn index_position(m: &IndexMap<String, u32>, title: &str) -> (r: Option<usize>)
    ensures
        r matches Some(i) ==> i < index_entries(*m).len() && index_entries(*m)[i as int].0
            == title@,
        r is None ==> forall|i: int|
            0 <= i < index_entries(*m).len() ==> #[trigger] index_entries(*m)[i].0 != title@,
{
    m.get_index_of(title)
}

/// Relies on `IndexMap::get_index`: the entry at a position below the length.
#[verifier::external_body]
pub(crate) fn index_entry(m: &IndexMap<String, u32>, i: usize) -> (r: (String, u32))
    requires
        i < index_entries(*m).len(),
    ensures
        r.0@ == index_entries(*m)[i as int].0,
        r.1 == index_entries(*m)[i as int].1,
{
    let (k, v) = m.get_index(i).unwrap();
    (k.clone(), *v)
}

/// Relies on `IndexMap::insert`: a known title keeps its place and takes the
/// new value; a new title is appended last.
#[verifier::external_body]
pub(crate) fn index_insert(m: &mut IndexMap<String, u32>, title: String, pages: u32)
    ensures
        (exists|i: int|
            0 <= i < index_entries(*old(m)).len() && #[trigger] index_entries(*old(m))[i].0
                == title@) ==> exists|i: int|
            0 <= i < index_entries(*old(m)).len() && #[trigger] index_entries(*old(m))[i].0
                == title@ && index_entries(*final(m)) == index_entries(*old(m)).update(
                i,
                (title@, pages),
            ),
        (forall|i: int|
            0 <= i < index_entries(*old(m)).len() ==> #[trigger] index_entries(*old(m))[i].0
                != title@) ==> index_entries(*final(m)) == index_entries(*old(m)).push(
            (title@, pages),
        ),
{
    m.insert(title, pages);
}

/// Relies on `IndexMap::par_sort_by`, a stable sort: the entries are ordered
/// by the sort rank of their titles, equal ranks keeping their order. Keys of
/// an `IndexMap` stay unique.
#[verifier::external_body]
pub(crate) fn index_sort_by_suffix(m: &mut IndexMap<String, u32>)
    ensures
        is_stable_rank_sort(index_entries(*old(m)), index_entries(*final(m))),
        titles_unique(index_entries(*final(m))),
{
    m.par_sort_by(|a, _, b, _| compare_by_suffix(a, b));
}

} // verus!

use crate::pagination::{lemma_past_last_page, lemma_window_bounds, pages_for};
use crate::store::{has_title, title_position, upsert, upsert_all, window, Entry};
use crate::title_index::titles_unique;
use vstd::prelude::*;

verus! {

/// The titles of a run of upserts are pairwise distinct.
pub open spec fn distinct_titles(puts: Seq<Entry>) -> bool {
    forall|i: int, j: int|
        0 <= i < puts.len() && 0 <= j < puts.len() && i != j ==> #[trigger] puts[i].0
            != #[trigger] puts[j].0
}

/// After a run of upserts into an empty store, a title is present exactly
/// when some upsert named it.
pub proof fn lemma_titles_of_upserts(puts: Seq<Entry>, t: Seq<char>)
    ensures
        has_title(upsert_all(Seq::empty(), puts), t) <==> exists|j: int|
            0 <= j < puts.len() && #[trigger] puts[j].0 == t,
    decreases puts.len(),
{
    if puts.len() > 0 {
        let init = puts.drop_last();
        let e = upsert_all(Seq::empty(), init);
        let last = puts.last();
        lemma_titles_of_upserts(init, t);
        lemma_titles_of_upserts(init, last.0);
        let r = upsert(e, last.0, last.1);
        if has_title(r, t) {
            let i = choose|i: int| 0 <= i < r.len() && #[trigger] r[i].0 == t;
            if t != last.0 {
                if has_title(e, last.0) {
                    assert(e[i].0 == t);
                } else {
                    assert(i < e.len());
                    assert(e[i].0 == t);
                }
                let j = choose|j: int| 0 <= j < init.len() && #[trigger] init[j].0 == t;
                assert(puts[j].0 == t);
            } else {
                assert(puts[puts.len() - 1].0 == t);
            }
        }
        if exists|j: int| 0 <= j < puts.len() && #[trigger] puts[j].0 == t {
            let j = choose|j: int| 0 <= j < puts.len() && #[trigger] puts[j].0 == t;
            if t == last.0 {
                if has_title(e, t) {
                    let p = title_position(e, t);
                    assert(r[p].0 == t);
                } else {
                    assert(r[e.len() as int].0 == t);
                }
            } else {
                assert(j < init.len() && init[j].0 == t);
                let i = choose|i: int| 0 <= i < e.len() && #[trigger] e[i].0 == t;
                if has_title(e, last.0) {
                    assert(r[i].0 == t);
                } else {
                    assert(r[i].0 == t);
                }
            }
        }
    }
}

/// A run of upserts with pairwise distinct titles into an empty store
/// leaves one entry per title.
pub proof fn law_distinct_upserts_count(puts: Seq<Entry>)
    requires
        distinct_titles(puts),
    ensures
        upsert_all(Seq::empty(), puts).len() == puts.len(),
    decreases puts.len(),
{
    if puts.len() > 0 {
        let init = puts.drop_last();
        let last = puts.last();
        assert(distinct_titles(init)) by {
            assert forall|i: int, j: int|
                0 <= i < init.len() && 0 <= j < init.len() && i != j implies #[trigger] init[i].0
                != #[trigger] init[j].0 by {
                assert(puts[i].0 != puts[j].0);
            }
        }
        law_distinct_upserts_count(init);
        lemma_titles_of_upserts(init, last.0);
        if exists|j: int| 0 <= j < init.len() && #[trigger] init[j].0 == last.0 {
            let j = choose|j: int| 0 <= j < init.len() && #[trigger] init[j].0 == last.0;
            assert(puts[j].0 == puts[puts.len() - 1].0);
        }
    }
}

/// An upsert of a known title with its current page count changes nothing.
pub proof fn law_same_pages_unchanged(e: Seq<Entry>, t: Seq<char>, pages: u32)
    requires
        titles_unique(e),
        has_title(e, t),
        e[title_position(e, t)].1 == pages,
    ensures
        upsert(e, t, pages) == e,
{
    let p = title_position(e, t);
    assert(e[p] == (t, pages));
    assert(upsert(e, t, pages) =~= e);
}

/// An upsert of a known title keeps every entry where it was and changes
/// only that title's page count.
pub proof fn law_new_pages_in_place(e: Seq<Entry>, t: Seq<char>, pages: u32)
    requires
        titles_unique(e),
        has_title(e, t),
    ensures
        upsert(e, t, pages).len() == e.len(),
        upsert(e, t, pages)[title_position(e, t)] == (t, pages),
        forall|i: int|
            0 <= i < e.len() && i != title_position(e, t) ==> #[trigger] upsert(e, t, pages)[i]
                == e[i],
{
}

/// Every window holds at most ten entries.
pub proof fn law_window_at_most_a_page(e: Seq<Entry>, page_index: Option<usize>)
    ensures
        window(e, page_index).len() <= 10,
{
    let i: int = match page_index {
        Some(i) => i as int,
        None => 1,
    };
    lemma_window_bounds(e.len() as int, i);
}

/// A page index past the last page gives the entries of the last page.
pub proof fn law_window_past_last_page(e: Seq<Entry>, page_index: usize)
    requires
        e.len() > 0,
        page_index >= pages_for(e.len() as int),
    ensures
        window(e, Some(page_index)) == window(e, Some(pages_for(e.len() as int) as usize)),
{
    let n = e.len() as int;
    lemma_past_last_page(n, page_index as int);
    assert(0 <= pages_for(n) <= n);
}

} // verus!

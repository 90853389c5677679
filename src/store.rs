use crate::pagination::{
    page_count_for, pages_for, window_end_of, window_start, window_start_of, PAGE_SIZE,
};
use crate::record::{Book, PutOutcome, ShelfError};
use crate::title_index::{
    index_entries, index_entry, index_insert, index_len, index_new, index_position,
    index_sort_by_suffix, is_stable_rank_sort, titles_unique,
};
use crate::title_key::{decimal_u32, numeric_suffix, numeric_suffix_of, parse_pages, suffix_rank};
use indexmap::IndexMap;
use vstd::prelude::*;

verus! {

/// An entry of the store's model: a title and its page count.
pub type Entry = (Seq<char>, u32);

/// Whether some entry carries title `t`.
pub open spec fn has_title(e: Seq<Entry>, t: Seq<char>) -> bool {
    exists|i: int| 0 <= i < e.len() && #[trigger] e[i].0 == t
}

/// The position of the entry with title `t`, where there is one.
pub open spec fn title_position(e: Seq<Entry>, t: Seq<char>) -> int
    recommends
        has_title(e, t),
{
    choose|i: int| 0 <= i < e.len() && #[trigger] e[i].0 == t
}

/// Upsert on the model: a known title takes the new count in place, a new
/// title is appended at the end.
pub open spec fn upsert(e: Seq<Entry>, t: Seq<char>, pages: u32) -> Seq<Entry> {
    if has_title(e, t) {
        e.update(title_position(e, t), (t, pages))
    } else {
        e.push((t, pages))
    }
}

/// A run of upserts, applied in order.
pub open spec fn upsert_all(e: Seq<Entry>, puts: Seq<Entry>) -> Seq<Entry>
    decreases puts.len(),
{
    if puts.len() == 0 {
        e
    } else {
        let last = puts.last();
        upsert(upsert_all(e, puts.drop_last()), last.0, last.1)
    }
}

/// The entries of the window of a 1-based page index (`None` is page 1).
pub open spec fn window(e: Seq<Entry>, page_index: Option<usize>) -> Seq<Entry> {
    let i: int = match page_index {
        Some(i) => i as int,
        None => 1,
    };
    e.subrange(window_start_of(e.len() as int, i), window_end_of(e.len() as int, i))
}

/// Whether every title in the store has a numeric suffix.
pub open spec fn all_titles_keyed(e: Seq<Entry>) -> bool {
    forall|i: int| 0 <= i < e.len() ==> (#[trigger] numeric_suffix_of(e[i].0)) is Some
}

/// The catalog: books unique by title, in an order that upserts keep and a
/// re-sort replaces.
pub struct BookStore {
    books: IndexMap<String, u32>,
}

impl View for BookStore {
    type V = Seq<Entry>;

    closed spec fn view(&self) -> Seq<Entry> {
        index_entries(self.books)
    }
}

proof fn lemma_position_unique(e: Seq<Entry>, t: Seq<char>, i: int)
    requires
        titles_unique(e),
        0 <= i < e.len(),
        e[i].0 == t,
    ensures
        has_title(e, t),
        title_position(e, t) == i,
{
    assert(e[i].0 == t);
    let j = title_position(e, t);
    assert(e[j].0 == e[i].0);
}

proof fn lemma_upsert_unique(e: Seq<Entry>, t: Seq<char>, pages: u32)
    requires
        titles_unique(e),
    ensures
        titles_unique(upsert(e, t, pages)),
        upsert(e, t, pages).len() == if has_title(e, t) {
            e.len()
        } else {
            e.len() + 1
        },
{
    let r = upsert(e, t, pages);
    if has_title(e, t) {
        let p = title_position(e, t);
        assert forall|i: int, j: int|
            0 <= i < r.len() && 0 <= j < r.len() && i != j implies #[trigger] r[i].0
            != #[trigger] r[j].0 by {
            if i != p && j != p {
                assert(r[i] == e[i] && r[j] == e[j]);
            } else if i == p {
                assert(e[j].0 != e[p].0);
            } else {
                assert(e[i].0 != e[p].0);
            }
        }
    } else {
        assert forall|i: int, j: int|
            0 <= i < r.len() && 0 <= j < r.len() && i != j implies #[trigger] r[i].0
            != #[trigger] r[j].0 by {
            if i < e.len() && j < e.len() {
                assert(r[i] == e[i] && r[j] == e[j]);
            } else if i < e.len() {
                assert(r[i] == e[i]);
            } else {
                assert(r[j] == e[j]);
            }
        }
    }
}

/// A stable rank sort of titles that all have a numeric suffix keeps that
/// property, and then orders adjacent entries by the suffix itself.
proof fn lemma_sorted_keyed(before: Seq<Entry>, after: Seq<Entry>)
    requires
        all_titles_keyed(before),
        is_stable_rank_sort(before, after),
    ensures
        all_titles_keyed(after),
        forall|i: int|
            0 <= i < after.len() - 1 ==> numeric_suffix_of((#[trigger] after[i]).0)->0
                <= numeric_suffix_of(after[i + 1].0)->0,
{
    broadcast use vstd::seq_lib::group_to_multiset_ensures;

    assert forall|i: int| 0 <= i < after.len() implies (#[trigger] numeric_suffix_of(
        after[i].0,
    )) is Some by {
        assert(after.contains(after[i]));
        assert(after.to_multiset().count(after[i]) > 0);
        assert(before.contains(after[i]));
        let p = choose|p: int| 0 <= p < before.len() && before[p] == after[i];
        assert(numeric_suffix_of(before[p].0) is Some);
    }
    assert forall|i: int| 0 <= i < after.len() - 1 implies numeric_suffix_of(
        (#[trigger] after[i]).0,
    )->0 <= numeric_suffix_of(after[i + 1].0)->0 by {
        assert(numeric_suffix_of(after[i].0) is Some);
        assert(numeric_suffix_of(after[i + 1].0) is Some);
        assert(suffix_rank(after[i].0) <= suffix_rank(after[i + 1].0));
    }
}

impl BookStore {
    /// The store's invariant: titles are unique.
    pub open spec fn wf(&self) -> bool {
        titles_unique(self@)
    }

    /// An empty store.
    pub fn new() -> (r: BookStore)
        ensures
            r.wf(),
            r@ == Seq::<Entry>::empty(),
    {
        BookStore { books: index_new() }
    }

    /// Builds a store from books in order, as a run of upserts: a repeated
    /// title keeps its first place and takes the last page count.
    pub fn from_books(books: Vec<Book>) -> (r: BookStore)
        ensures
            r.wf(),
            r@ == upsert_all(Seq::empty(), books@.map_values(|b: Book| b@)),
    {
        let mut store = BookStore::new();
        let ghost all = books@.map_values(|b: Book| b@);
        let mut k: usize = 0;
        while k < books.len()
            invariant
                k <= books.len(),
                store.wf(),
                all == books@.map_values(|b: Book| b@),
                store@ == upsert_all(Seq::empty(), all.subrange(0, k as int)),
            decreases books.len() - k,
        {
            let b = &books[k];
            store.put_one(b.title.as_str(), b.pages);
            proof {
                assert(all.subrange(0, k + 1).drop_last() == all.subrange(0, k as int));
                assert(all.subrange(0, k + 1).last() == books@[k as int]@);
            }
            k = k + 1;
        }
        assert(all.subrange(0, books.len() as int) == all);
        store
    }

    /// The number of books.
    pub fn len(&self) -> (r: usize)
        ensures
            r == self@.len(),
    {
        index_len(&self.books)
    }

    /// The book with this title, if there is one.
    pub fn get_one(&self, title: &str) -> (r: Option<Book>)
        requires
            self.wf(),
        ensures
            r is None <==> !has_title(self@, title@),
            r matches Some(b) ==> b@ == self@[title_position(self@, title@)],
    {
        match index_position(&self.books, title) {
            Some(i) => {
                let (t, pages) = index_entry(&self.books, i);
                proof {
                    lemma_position_unique(self@, title@, i as int);
                }
                Some(Book { title: t, pages })
            },
            None => None,
        }
    }

    /// Inserts a new title at the end, or sets the page count of a known one
    /// in place; a known title with the same count is left alone.
    pub fn put_one(&mut self, title: &str, pages: u32) -> (r: PutOutcome)
        requires
            old(self).wf(),
        ensures
            final(self).wf(),
            final(self)@ == upsert(old(self)@, title@, pages),
            !has_title(old(self)@, title@) <==> r is Created,
            r matches PutOutcome::Created(b) ==> b@ == (title@, pages),
            has_title(old(self)@, title@) ==> (r is Unchanged <==> old(self)@[title_position(
                old(self)@,
                title@,
            )].1 == pages),
            r is Unchanged ==> final(self)@ == old(self)@,
    {
        proof {
            lemma_upsert_unique(self@, title@, pages);
        }
        match index_position(&self.books, title) {
            Some(i) => {
                proof {
                    lemma_position_unique(self@, title@, i as int);
                }
                let (_, current) = index_entry(&self.books, i);
                if current == pages {
                    assert(self@.update(i as int, (title@, pages)) == self@);
                    PutOutcome::Unchanged
                } else {
                    index_insert(&mut self.books, title.to_string(), pages);
                    proof {
                        let ghost j = choose|j: int|
                            0 <= j < index_entries(self.books).len()
                                && #[trigger] old(self)@[j].0 == title@
                                && self@ == old(self)@.update(j, (title@, pages));
                        lemma_position_unique(old(self)@, title@, j);
                    }
                    PutOutcome::Updated
                }
            },
            None => {
                let t = title.to_string();
                index_insert(&mut self.books, title.to_string(), pages);
                PutOutcome::Created(Book { title: t, pages })
            },
        }
    }

    /// Upsert with a page count given as decimal text; text that is not a
    /// non-negative 32-bit integer is refused and changes nothing.
    pub fn put_one_text(&mut self, title: &str, pages_text: &str) -> (r: Result<
        PutOutcome,
        ShelfError,
    >)
        requires
            old(self).wf(),
        ensures
            final(self).wf(),
            decimal_u32(pages_text@) is None <==> r is Err,
            r is Err ==> r == Err::<PutOutcome, ShelfError>(ShelfError::InvalidPages) && final(self)@ == old(self)@,
            decimal_u32(pages_text@) matches Some(p) ==> final(self)@ == upsert(
                old(self)@,
                title@,
                p,
            ),
            r matches Ok(PutOutcome::Created(b)) ==> b@.0 == title@,
            r matches Ok(o) ==> (o is Created <==> !has_title(old(self)@, title@)),
            r matches Ok(PutOutcome::Unchanged) ==> final(self)@ == old(self)@,
    {
        match parse_pages(pages_text) {
            Some(p) => Ok(self.put_one(title, p)),
            None => Err(ShelfError::InvalidPages),
        }
    }

    /// The number of ten-book pages: `ceil(len / 10)`.
    pub fn page_count(&self) -> (r: usize)
        ensures
            r == pages_for(self@.len() as int),
    {
        page_count_for(self.len())
    }

    /// The books of one page, in store order: page `i` (1-based; `None` is
    /// page 1) starts `10 * (i - 1)` books in, clamped so that it never starts
    /// past the last ten books or before the first.
    pub fn list_window(&self, page_index: Option<usize>) -> (r: Vec<Book>)
        ensures
            r@.map_values(|b: Book| b@) == window(self@, page_index),
            r@.len() <= PAGE_SIZE,
    {
        let n = self.len();
        let i: usize = match page_index {
            Some(i) => i,
            None => 1,
        };
        let start = window_start(n, i);
        let end: usize = if start + PAGE_SIZE <= n {
            start + PAGE_SIZE
        } else {
            n
        };
        proof {
            crate::pagination::lemma_window_bounds(n as int, i as int);
        }
        let mut out: Vec<Book> = Vec::new();
        let mut k: usize = start;
        while k < end
            invariant
                start <= k <= end,
                end <= n,
                n == self@.len(),
                end - start <= 10,
                out@.map_values(|b: Book| b@) == self@.subrange(start as int, k as int),
            decreases end - k,
        {
            let (t, pages) = index_entry(&self.books, k);
            let ghost prev = out@;
            let b = Book { title: t, pages };
            assert(b@ == self@[k as int]);
            out.push(b);
            proof {
                assert(out@.map_values(|b: Book| b@) =~= prev.map_values(|b: Book| b@).push(
                    self@[k as int],
                ));
                assert(out@.map_values(|b: Book| b@) =~= self@.subrange(start as int, k + 1));
            }
            k = k + 1;
        }
        out
    }

    /// Re-sorts the store by the numeric suffix of each title, ascending and
    /// stable. Where some title has no numeric suffix, nothing changes and
    /// `MalformedTitle` is returned.
    pub fn sort_books(&mut self) -> (r: Result<(), ShelfError>)
        requires
            old(self).wf(),
        ensures
            final(self).wf(),
            r is Err <==> !all_titles_keyed(old(self)@),
            r is Err ==> r == Err::<(), ShelfError>(ShelfError::MalformedTitle) && final(self)@
                == old(self)@,
            r is Ok ==> is_stable_rank_sort(old(self)@, final(self)@),
            r is Ok ==> all_titles_keyed(final(self)@),
            r is Ok ==> forall|i: int|
                0 <= i < final(self)@.len() - 1 ==> numeric_suffix_of(
                    (#[trigger] final(self)@[i]).0,
                )->0 <= numeric_suffix_of(final(self)@[i + 1].0)->0,
    {
        let n = self.len();
        let mut k: usize = 0;
        while k < n
            invariant
                k <= n,
                n == self@.len(),
                self@ == old(self)@,
                self.wf(),
                forall|j: int| 0 <= j < k ==> (#[trigger] numeric_suffix_of(self@[j].0)) is Some,
            decreases n - k,
        {
            let (t, _) = index_entry(&self.books, k);
            if numeric_suffix(t.as_str()).is_none() {
                return Err(ShelfError::MalformedTitle);
            }
            k = k + 1;
        }
        index_sort_by_suffix(&mut self.books);
        proof {
            lemma_sorted_keyed(old(self)@, self@);
        }
        Ok(())
    }
}

} // verus!

use bookshelf::pagination::{page_count_for, window_start};
use bookshelf::record::{Book, PutOutcome, ShelfError};
use bookshelf::store::BookStore;
use bookshelf::title_key::{numeric_suffix, parse_pages};

fn book(title: &str, pages: u32) -> Book {
    Book { title: title.to_string(), pages }
}

fn titles(books: &[Book]) -> Vec<String> {
    books.iter().map(|b| b.title.clone()).collect()
}

fn all_books(store: &BookStore) -> Vec<Book> {
    let mut out = Vec::new();
    let pages = store.page_count();
    for p in 1..=pages {
        let w = store.list_window(Some(p));
        if p < pages {
            out.extend(w);
        } else {
            let have = out.len();
            let skip = have + w.len() - store.len();
            out.extend(w.into_iter().skip(skip));
        }
    }
    out
}

fn sample() -> BookStore {
    BookStore::from_books(vec![book("a-1", 1), book("a-3", 3), book("a-2", 2)])
}

fn numbered(n: u32) -> BookStore {
    let mut store = BookStore::new();
    for k in 1..=n {
        store.put_one(&format!("title-{}", k), k);
    }
    store
}

#[test]
fn sort_scenario_orders_by_suffix() {
    let mut store = sample();
    assert_eq!(store.sort_books(), Ok(()));
    let w = store.list_window(Some(1));
    assert_eq!(titles(&w), vec!["a-1", "a-2", "a-3"]);
    assert_eq!(w.iter().map(|b| b.pages).collect::<Vec<_>>(), vec![1, 2, 3]);
    assert_eq!(store.page_count(), 1);
    assert_eq!(w.len(), 3);
}

#[test]
fn put_same_pages_is_unchanged() {
    let mut store = sample();
    store.sort_books().unwrap();
    let before = store.list_window(None);
    let outcome = store.put_one("a-2", 2);
    assert!(matches!(outcome, PutOutcome::Unchanged));
    let after = store.list_window(None);
    assert_eq!(titles(&before), titles(&after));
    assert_eq!(
        before.iter().map(|b| b.pages).collect::<Vec<_>>(),
        after.iter().map(|b| b.pages).collect::<Vec<_>>()
    );
    assert_eq!(store.len(), 3);
}

#[test]
fn put_new_pages_updates_in_place() {
    let mut store = sample();
    store.sort_books().unwrap();
    let outcome = store.put_one("a-2", 9);
    assert!(matches!(outcome, PutOutcome::Updated));
    let w = store.list_window(None);
    assert_eq!(titles(&w), vec!["a-1", "a-2", "a-3"]);
    assert_eq!(w[1].pages, 9);
    assert_eq!(w[0].pages, 1);
    assert_eq!(w[2].pages, 3);
    assert_eq!(store.get_one("a-2").unwrap().pages, 9);
}

#[test]
fn put_new_title_is_created_at_end() {
    let mut store = sample();
    match store.put_one("b-7", 70) {
        PutOutcome::Created(b) => {
            assert_eq!(b.title, "b-7");
            assert_eq!(b.pages, 70);
        }
        _ => panic!("expected a created book"),
    }
    let w = store.list_window(None);
    assert_eq!(titles(&w), vec!["a-1", "a-3", "a-2", "b-7"]);
}

#[test]
fn get_missing_is_absent() {
    let store = sample();
    assert!(store.get_one("missing").is_none());
    let found = store.get_one("a-3").unwrap();
    assert_eq!(found.title, "a-3");
    assert_eq!(found.pages, 3);
}

#[test]
fn window_of_third_page_among_twenty_five() {
    let store = numbered(25);
    let w = store.list_window(Some(3));
    let expected: Vec<String> = (16..=25).map(|k| format!("title-{}", k)).collect();
    assert_eq!(titles(&w), expected);
    let second = store.list_window(Some(2));
    let expected: Vec<String> = (11..=20).map(|k| format!("title-{}", k)).collect();
    assert_eq!(titles(&second), expected);
}

#[test]
fn distinct_puts_grow_by_one_each() {
    let mut store = BookStore::new();
    for k in 0..37u32 {
        assert_eq!(store.len(), k as usize);
        store.put_one(&format!("x-{}", k), 5);
    }
    assert_eq!(store.len(), 37);
    store.put_one("x-3", 6);
    assert_eq!(store.len(), 37);
}

#[test]
fn sort_is_ascending_and_stable() {
    let mut store = BookStore::from_books(vec![
        book("x-2", 1),
        book("a-1", 2),
        book("b-2", 3),
        book("c-1", 4),
        book("d-10", 5),
        book("e-02", 6),
    ]);
    assert_eq!(store.sort_books(), Ok(()));
    let w = store.list_window(None);
    assert_eq!(titles(&w), vec!["a-1", "c-1", "x-2", "b-2", "e-02", "d-10"]);
    for pair in w.windows(2) {
        let a = numeric_suffix(&pair[0].title).unwrap();
        let b = numeric_suffix(&pair[1].title).unwrap();
        assert!(a <= b);
    }
}

#[test]
fn sort_of_many_entries_is_ascending() {
    let mut store = BookStore::new();
    for k in (1..=40u32).rev() {
        store.put_one(&format!("t-{}", k), k);
    }
    store.sort_books().unwrap();
    let all = all_books(&store);
    assert_eq!(all.len(), 40);
    for (i, b) in all.iter().enumerate() {
        assert_eq!(b.pages, i as u32 + 1);
    }
}

#[test]
fn page_count_is_ceiling_of_tenths() {
    assert_eq!(page_count_for(0), 0);
    assert_eq!(page_count_for(1), 1);
    assert_eq!(page_count_for(10), 1);
    assert_eq!(page_count_for(11), 2);
    assert_eq!(page_count_for(25), 3);
    assert_eq!(BookStore::new().page_count(), 0);
    assert_eq!(numbered(10).page_count(), 1);
    assert_eq!(numbered(11).page_count(), 2);
}

#[test]
fn window_past_last_page_repeats_last_page() {
    let store = numbered(25);
    let last = titles(&store.list_window(Some(3)));
    for p in [4usize, 5, 100, usize::MAX] {
        let w = store.list_window(Some(p));
        assert!(w.len() <= 10);
        assert_eq!(titles(&w), last);
    }
}

#[test]
fn window_on_small_and_empty_stores() {
    assert!(BookStore::new().list_window(Some(1)).is_empty());
    assert!(BookStore::new().list_window(Some(7)).is_empty());
    let store = numbered(4);
    assert_eq!(store.list_window(Some(3)).len(), 4);
    assert_eq!(titles(&store.list_window(Some(0))), titles(&store.list_window(None)));
}

#[test]
fn window_start_clamps() {
    assert_eq!(window_start(0, 0), 0);
    assert_eq!(window_start(25, 0), 0);
    assert_eq!(window_start(25, 1), 0);
    assert_eq!(window_start(25, 2), 10);
    assert_eq!(window_start(25, 3), 15);
    assert_eq!(window_start(9, 5), 0);
    assert_eq!(window_start(usize::MAX, usize::MAX), usize::MAX - 10);
}

#[test]
fn text_pages_are_parsed_or_refused() {
    let mut store = sample();
    assert!(matches!(store.put_one_text("a-1", "12"), Ok(PutOutcome::Updated)));
    assert_eq!(store.get_one("a-1").unwrap().pages, 12);
    assert!(matches!(store.put_one_text("a-1", "+12"), Ok(PutOutcome::Unchanged)));
    for bad in ["", "abc", "-1", "1.5", " 3", "4294967296"] {
        assert!(matches!(store.put_one_text("a-9", bad), Err(ShelfError::InvalidPages)));
    }
    assert!(store.get_one("a-9").is_none());
    assert_eq!(store.len(), 3);
}

#[test]
fn malformed_title_fails_sort_without_change() {
    for bad in ["nodash", "a-", "a-b", "a--1", "a-+-"] {
        let mut store = BookStore::from_books(vec![book("a-3", 3), book(bad, 0), book("a-1", 1)]);
        assert_eq!(store.sort_books(), Err(ShelfError::MalformedTitle));
        assert_eq!(titles(&store.list_window(None)), vec!["a-3", bad, "a-1"]);
    }
}

#[test]
fn suffix_is_second_dash_segment() {
    assert_eq!(numeric_suffix("title-42"), Some(42));
    assert_eq!(numeric_suffix("a-5-x"), Some(5));
    assert_eq!(numeric_suffix("a-007"), Some(7));
    assert_eq!(numeric_suffix("-9"), Some(9));
    assert_eq!(numeric_suffix("a-4294967295"), Some(u32::MAX));
    assert_eq!(numeric_suffix("a-4294967296"), None);
    assert_eq!(numeric_suffix("a5"), None);
    assert_eq!(numeric_suffix("a-x-5"), None);
}

#[test]
fn pages_text_parsing() {
    assert_eq!(parse_pages("0"), Some(0));
    assert_eq!(parse_pages("250"), Some(250));
    assert_eq!(parse_pages("+3"), Some(3));
    assert_eq!(parse_pages("-0"), None);
    assert_eq!(parse_pages("+"), None);
    assert_eq!(parse_pages("12a"), None);
}

#[test]
fn loading_repeated_titles_keeps_first_place() {
    let store = BookStore::from_books(vec![book("a-1", 1), book("b-2", 2), book("a-1", 5)]);
    assert_eq!(store.len(), 2);
    let w = store.list_window(None);
    assert_eq!(titles(&w), vec!["a-1", "b-2"]);
    assert_eq!(w[0].pages, 5);
}

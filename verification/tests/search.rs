use book_library::store::Store;
use book_library::store::UpdateRequest;

#[test]
fn no_filters_returns_full_collection_in_order() {
    let s = Store::seeded();
    let r = s.search(None, None);
    assert_eq!(r.len(), 2);
    assert_eq!(r[0].id, 1);
    assert_eq!(r[1].id, 2);
}

#[test]
fn available_true_returns_only_available_books() {
    let mut s = Store::seeded();
    let req = UpdateRequest {
        title: None,
        author: None,
        isbn: None,
        available: Some(false),
    };
    s.update(1, req).unwrap();
    let r = s.search(None, Some("true"));
    assert_eq!(r.len(), 1);
    assert_eq!(r[0].id, 2);
    let r = s.search(None, Some("false"));
    assert_eq!(r.len(), 1);
    assert_eq!(r[0].id, 1);
}

#[test]
fn unparseable_available_is_ignored() {
    let mut s = Store::seeded();
    let req = UpdateRequest {
        title: None,
        author: None,
        isbn: None,
        available: Some(false),
    };
    s.update(1, req).unwrap();
    let r = s.search(None, Some("maybe"));
    assert_eq!(r.len(), 2);
    let r = s.search(None, Some("TRUE"));
    assert_eq!(r.len(), 2);
    let r = s.search(None, Some(""));
    assert_eq!(r.len(), 2);
}

#[test]
fn author_match_is_case_insensitive_substring() {
    let s = Store::seeded();
    let r = s.search(Some("jim"), None);
    assert_eq!(r.len(), 1);
    assert_eq!(r[0].id, 2);
    let r = s.search(Some("JIM"), None);
    assert_eq!(r.len(), 1);
    assert_eq!(r[0].id, 2);
    let r = s.search(Some("KLABNIK"), None);
    assert_eq!(r.len(), 1);
    assert_eq!(r[0].id, 1);
    let r = s.search(Some("blandy"), None);
    assert_eq!(r.len(), 1);
    assert_eq!(r[0].id, 2);
}

#[test]
fn author_without_match_returns_nothing() {
    let s = Store::seeded();
    let r = s.search(Some("tolkien"), None);
    assert_eq!(r.len(), 0);
}

#[test]
fn empty_author_query_matches_every_book() {
    let s = Store::seeded();
    let r = s.search(Some(""), None);
    assert_eq!(r.len(), 2);
}

#[test]
fn filters_combine_with_and() {
    let mut s = Store::seeded();
    let req = UpdateRequest {
        title: None,
        author: None,
        isbn: None,
        available: Some(false),
    };
    s.update(2, req).unwrap();
    let r = s.search(Some("jim"), Some("true"));
    assert_eq!(r.len(), 0);
    let r = s.search(Some("jim"), Some("false"));
    assert_eq!(r.len(), 1);
    assert_eq!(r[0].id, 2);
    let r = s.search(Some("steve"), Some("true"));
    assert_eq!(r.len(), 1);
    assert_eq!(r[0].id, 1);
}

#[test]
fn search_does_not_change_the_collection() {
    let s = Store::seeded();
    let _ = s.search(Some("jim"), Some("true"));
    assert_eq!(s.list().len(), 2);
    assert_eq!(s.upcoming_id(), 3);
}

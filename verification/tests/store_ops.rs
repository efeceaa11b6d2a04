use book_library::store::Book;
use book_library::store::BookField;
use book_library::store::Store;
use book_library::store::StoreError;
use book_library::store::UpdateRequest;

fn no_change() -> UpdateRequest {
    UpdateRequest { title: None, author: None, isbn: None, available: None }
}

#[test]
fn new_store_is_empty() {
    let s = Store::new();
    assert_eq!(s.list().len(), 0);
    assert_eq!(s.upcoming_id(), 1);
}

#[test]
fn seeded_store_holds_two_books() {
    let s = Store::seeded();
    let books = s.list();
    assert_eq!(books.len(), 2);
    assert_eq!(books[0].id, 1);
    assert_eq!(books[0].title, "The Rust Programming Language");
    assert_eq!(books[0].author, "Steve Klabnik");
    assert_eq!(books[0].isbn, "978-1718500440");
    assert!(books[0].available);
    assert_eq!(books[1].id, 2);
    assert_eq!(books[1].title, "Programming Rust");
    assert_eq!(books[1].author, "Jim Blandy");
    assert_eq!(books[1].isbn, "978-1492052593");
    assert!(books[1].available);
    assert_eq!(s.upcoming_id(), 3);
}

#[test]
fn create_assigns_increasing_ids_never_reused() {
    let mut s = Store::new();
    let a = s.create("A".to_string(), "AA".to_string(), "i-1".to_string()).unwrap();
    let b = s.create("B".to_string(), "BB".to_string(), "i-2".to_string()).unwrap();
    let c = s.create("C".to_string(), "CC".to_string(), "i-3".to_string()).unwrap();
    assert_eq!(a.id, 1);
    assert_eq!(b.id, 2);
    assert_eq!(c.id, 3);
    assert!(a.id < b.id && b.id < c.id);
    s.delete(2).unwrap();
    s.delete(3).unwrap();
    let d = s.create("D".to_string(), "DD".to_string(), "i-4".to_string()).unwrap();
    assert_eq!(d.id, 4);
}

#[test]
fn create_sets_available_and_appends() {
    let mut s = Store::seeded();
    let b = s.create("X".to_string(), "Y".to_string(), "123".to_string()).unwrap();
    assert_eq!(b.id, 3);
    assert!(b.available);
    let books = s.list();
    assert_eq!(books.len(), 3);
    assert_eq!(books[2].id, 3);
    assert_eq!(books[2].title, "X");
}

#[test]
fn create_keeps_fields_untrimmed() {
    let mut s = Store::new();
    let b = s.create("  X  ".to_string(), " Y".to_string(), "1 ".to_string()).unwrap();
    assert_eq!(b.title, "  X  ");
    assert_eq!(b.author, " Y");
    assert_eq!(b.isbn, "1 ");
}

#[test]
fn create_duplicate_isbn_conflicts() {
    let mut s = Store::seeded();
    let r = s.create("Other Title".to_string(), "OTHER AUTHOR".to_string(), "978-1718500440".to_string());
    assert_eq!(r.unwrap_err(), StoreError::Conflict);
    assert_eq!(s.list().len(), 2);
    assert_eq!(s.upcoming_id(), 3);
}

#[test]
fn create_blank_fields_invalid() {
    let mut s = Store::seeded();
    let r = s.create("".to_string(), "A".to_string(), "i".to_string());
    assert_eq!(r.unwrap_err(), StoreError::InvalidInput(BookField::Title));
    let r = s.create(" \t\n".to_string(), "A".to_string(), "i".to_string());
    assert_eq!(r.unwrap_err(), StoreError::InvalidInput(BookField::Title));
    let r = s.create("T".to_string(), "   ".to_string(), "i".to_string());
    assert_eq!(r.unwrap_err(), StoreError::InvalidInput(BookField::Author));
    let r = s.create("T".to_string(), "A".to_string(), "  ".to_string());
    assert_eq!(r.unwrap_err(), StoreError::InvalidInput(BookField::Isbn));
    assert_eq!(s.list().len(), 2);
}

#[test]
fn get_returns_matching_book() {
    let s = Store::seeded();
    let b = s.get(2).unwrap();
    assert_eq!(b.id, 2);
    assert_eq!(b.title, "Programming Rust");
}

#[test]
fn get_unknown_id_not_found() {
    let s = Store::seeded();
    assert_eq!(s.get(99).unwrap_err(), StoreError::NotFound);
}

#[test]
fn delete_then_get_not_found() {
    let mut s = Store::seeded();
    assert!(s.delete(1).is_ok());
    assert_eq!(s.get(1).unwrap_err(), StoreError::NotFound);
    assert_eq!(s.list().len(), 1);
    assert_eq!(s.list()[0].id, 2);
}

#[test]
fn delete_unknown_id_not_found() {
    let mut s = Store::seeded();
    assert_eq!(s.delete(7).unwrap_err(), StoreError::NotFound);
    assert_eq!(s.list().len(), 2);
}

#[test]
fn update_only_available_changes_nothing_else() {
    let mut s = Store::seeded();
    let req = UpdateRequest { available: Some(false), ..no_change() };
    let b = s.update(1, req).unwrap();
    assert_eq!(b.id, 1);
    assert_eq!(b.title, "The Rust Programming Language");
    assert_eq!(b.author, "Steve Klabnik");
    assert_eq!(b.isbn, "978-1718500440");
    assert!(!b.available);
    let other = s.get(2).unwrap();
    assert_eq!(other.title, "Programming Rust");
    assert!(other.available);
}

#[test]
fn update_title_only_changes_title() {
    let mut s = Store::seeded();
    let req = UpdateRequest { title: Some("New Title".to_string()), ..no_change() };
    let b = s.update(2, req).unwrap();
    assert_eq!(b.title, "New Title");
    assert_eq!(b.author, "Jim Blandy");
    assert_eq!(b.isbn, "978-1492052593");
    assert!(b.available);
}

#[test]
fn update_unknown_id_not_found() {
    let mut s = Store::seeded();
    let req = UpdateRequest { title: Some("T".to_string()), ..no_change() };
    assert_eq!(s.update(42, req).unwrap_err(), StoreError::NotFound);
}

#[test]
fn update_blank_fields_invalid() {
    let mut s = Store::seeded();
    let req = UpdateRequest { title: Some("   ".to_string()), ..no_change() };
    assert_eq!(s.update(1, req).unwrap_err(), StoreError::InvalidInput(BookField::Title));
    let req = UpdateRequest { author: Some("".to_string()), ..no_change() };
    assert_eq!(s.update(1, req).unwrap_err(), StoreError::InvalidInput(BookField::Author));
    let req = UpdateRequest { isbn: Some("\t".to_string()), ..no_change() };
    assert_eq!(s.update(1, req).unwrap_err(), StoreError::InvalidInput(BookField::Isbn));
    let b = s.get(1).unwrap();
    assert_eq!(b.title, "The Rust Programming Language");
}

#[test]
fn update_rejected_applies_no_field_at_all() {
    let mut s = Store::seeded();
    let req = UpdateRequest {
        title: Some("Fresh".to_string()),
        author: Some("  ".to_string()),
        ..no_change()
    };
    assert_eq!(s.update(1, req).unwrap_err(), StoreError::InvalidInput(BookField::Author));
    let b = s.get(1).unwrap();
    assert_eq!(b.title, "The Rust Programming Language");
}

#[test]
fn update_isbn_of_another_book_conflicts() {
    let mut s = Store::seeded();
    let req = UpdateRequest { isbn: Some("978-1718500440".to_string()), ..no_change() };
    assert_eq!(s.update(2, req).unwrap_err(), StoreError::Conflict);
}

#[test]
fn update_isbn_to_its_own_value_is_fine() {
    let mut s = Store::seeded();
    let req = UpdateRequest { isbn: Some("978-1492052593".to_string()), ..no_change() };
    let b = s.update(2, req).unwrap();
    assert_eq!(b.isbn, "978-1492052593");
}

#[test]
fn update_all_fields_at_once() {
    let mut s = Store::seeded();
    let req = UpdateRequest {
        title: Some("T2".to_string()),
        author: Some("A2".to_string()),
        isbn: Some("i2".to_string()),
        available: Some(false),
    };
    let b = s.update(1, req).unwrap();
    assert_eq!(b.id, 1);
    assert_eq!(b.title, "T2");
    assert_eq!(b.author, "A2");
    assert_eq!(b.isbn, "i2");
    assert!(!b.available);
}

#[test]
fn list_keeps_insertion_order() {
    let mut s = Store::new();
    s.create("A".to_string(), "a".to_string(), "1".to_string()).unwrap();
    s.create("B".to_string(), "b".to_string(), "2".to_string()).unwrap();
    s.create("C".to_string(), "c".to_string(), "3".to_string()).unwrap();
    s.delete(2).unwrap();
    s.create("D".to_string(), "d".to_string(), "4".to_string()).unwrap();
    let ids: Vec<u32> = s.list().iter().map(|b: &Book| b.id).collect();
    assert_eq!(ids, vec![1, 3, 4]);
}

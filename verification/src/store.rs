//! The book catalog itself: the record type, the store that owns the
//! collection and the identifier counter, and the six operations over
//! it, each specified by a transition function on the store's
//! mathematical view.

use vstd::prelude::*;
use crate::text::contains_seq;
use crate::text::contains_str;
use crate::text::is_blank;
use crate::text::is_space_char;
use crate::text::is_blank_str;
use crate::text::lower_of;
use crate::text::lowercase;
use crate::text::parse_bool_str;
use crate::text::spec_parse_bool;
use crate::text::str_eq;

verus! {

/// A catalog record. `id` is assigned by the store and never reused;
/// `title`, `author` and `isbn` are never blank once stored; `isbn` is
/// unique across the collection.
#[derive(Debug)]
pub struct Book {
    pub id: u32,
    pub title: String,
    pub author: String,
    pub isbn: String,
    pub available: bool,
}

/// The mathematical value of a `Book`.
pub struct BookView {
    pub id: u32,
    pub title: Seq<char>,
    pub author: Seq<char>,
    pub isbn: Seq<char>,
    pub available: bool,
}

impl View for Book {
    type V = BookView;

    open spec fn view(&self) -> BookView {
        BookView {
            id: self.id,
            title: self.title@,
            author: self.author@,
            isbn: self.isbn@,
            available: self.available,
        }
    }
}

impl Clone for Book {
    fn clone(&self) -> (r: Self)
        ensures
            r@ == self@,
    {
        Book {
            id: self.id,
            title: self.title.clone(),
            author: self.author.clone(),
            isbn: self.isbn.clone(),
            available: self.available,
        }
    }
}

/// The text field a rejected input failed on.
#[derive(Clone, Copy, Debug, PartialEq, Eq, Structural)]
pub enum BookField {
    Title,
    Author,
    Isbn,
}

/// Why an operation failed: no book with the requested id, a required
/// field empty after trimming, or a duplicate isbn.
#[derive(Clone, Copy, Debug, PartialEq, Eq, Structural)]
pub enum StoreError {
    NotFound,
    InvalidInput(BookField),
    Conflict,
}

/// The fields a caller may change in an update; an absent field keeps
/// its previous value.
pub struct UpdateRequest {
    pub title: Option<String>,
    pub author: Option<String>,
    pub isbn: Option<String>,
    pub available: Option<bool>,
}

/// The mathematical value of an `UpdateRequest`.
pub struct UpdateView {
    pub title: Option<Seq<char>>,
    pub author: Option<Seq<char>>,
    pub isbn: Option<Seq<char>>,
    pub available: Option<bool>,
}

pub open spec fn opt_string_view(o: Option<String>) -> Option<Seq<char>> {
    match o {
        Some(s) => Some(s@),
        None => None,
    }
}

impl View for UpdateRequest {
    type V = UpdateView;

    open spec fn view(&self) -> UpdateView {
        UpdateView {
            title: opt_string_view(self.title),
            author: opt_string_view(self.author),
            isbn: opt_string_view(self.isbn),
            available: self.available,
        }
    }
}

/// The store: the collection in insertion order, and the counter the
/// next created book takes its id from.
pub struct Store {
    books: Vec<Book>,
    next_id: u32,
}

/// The mathematical value of a `Store`.
pub struct StoreView {
    pub books: Seq<BookView>,
    pub next_id: u32,
}

impl View for Store {
    type V = StoreView;

    closed spec fn view(&self) -> StoreView {
        StoreView { books: self.books@.map_values(|b: Book| b@), next_id: self.next_id }
    }
}

/// Some book in the collection carries this id.
pub open spec fn has_id(books: Seq<BookView>, id: u32) -> bool {
    exists|i: int| 0 <= i < books.len() && (#[trigger] books[i]).id == id
}

/// `i` is the position of the first book carrying `id`.
pub open spec fn is_first_id_at(books: Seq<BookView>, id: u32, i: int) -> bool {
    0 <= i < books.len() && books[i].id == id && (forall|j: int|
        0 <= j < i ==> (#[trigger] books[j]).id != id)
}

/// The position of the first book carrying `id`; meaningful only when
/// `has_id` holds.
pub open spec fn first_id_index(books: Seq<BookView>, id: u32) -> int {
    choose|i: int| is_first_id_at(books, id, i)
}

/// Some book in the collection carries this isbn.
pub open spec fn has_isbn(books: Seq<BookView>, isbn: Seq<char>) -> bool {
    exists|i: int| 0 <= i < books.len() && (#[trigger] books[i]).isbn == isbn
}

/// Some book other than the one carrying `id` carries this isbn.
pub open spec fn isbn_conflict(books: Seq<BookView>, id: u32, isbn: Seq<char>) -> bool {
    exists|i: int|
        0 <= i < books.len() && (#[trigger] books[i]).id != id && books[i].isbn == isbn
}

/// A stored record is well formed when none of its text fields is
/// blank.
pub open spec fn book_wf(b: BookView) -> bool {
    !is_blank(b.title) && !is_blank(b.author) && !is_blank(b.isbn)
}

/// The store's invariant: ids distinct, isbns distinct, every record
/// well formed, and the counter above every id in the collection.
pub open spec fn store_wf(s: StoreView) -> bool {
    &&& forall|i: int, j: int|
        0 <= i < j < s.books.len() ==> (#[trigger] s.books[i]).id != (#[trigger] s.books[j]).id
    &&& forall|i: int, j: int|
        0 <= i < j < s.books.len() ==> (#[trigger] s.books[i]).isbn != (
        #[trigger] s.books[j]).isbn
    &&& forall|i: int| 0 <= i < s.books.len() ==> book_wf(#[trigger] s.books[i])
    &&& forall|i: int| 0 <= i < s.books.len() ==> (#[trigger] s.books[i]).id < s.next_id
}

/// What `get` returns: the first book carrying `id`, or `NotFound`.
pub open spec fn get_spec(s: StoreView, id: u32) -> Result<BookView, StoreError> {
    if has_id(s.books, id) {
        Ok(s.books[first_id_index(s.books, id)])
    } else {
        Err(StoreError::NotFound)
    }
}

/// What `create` does: reject a blank field (title checked first, then
/// author, then isbn) with `InvalidInput`, reject an isbn already in
/// the collection with `Conflict`, and otherwise append a new book
/// carrying the counter's id, marked available, and advance the
/// counter.
pub open spec fn create_trans(
    s: StoreView,
    title: Seq<char>,
    author: Seq<char>,
    isbn: Seq<char>,
) -> (StoreView, Result<BookView, StoreError>) {
    if is_blank(title) {
        (s, Err(StoreError::InvalidInput(BookField::Title)))
    } else if is_blank(author) {
        (s, Err(StoreError::InvalidInput(BookField::Author)))
    } else if is_blank(isbn) {
        (s, Err(StoreError::InvalidInput(BookField::Isbn)))
    } else if has_isbn(s.books, isbn) {
        (s, Err(StoreError::Conflict))
    } else {
        let b = BookView { id: s.next_id, title, author, isbn, available: true };
        (StoreView { books: s.books.push(b), next_id: (s.next_id + 1) as u32 }, Ok(b))
    }
}

/// What `update` does: reject an unknown id with `NotFound`; reject a
/// provided blank field (title checked first, then author, then isbn)
/// with `InvalidInput`; reject a provided isbn carried by a different
/// book with `Conflict`; otherwise replace exactly the provided fields
/// of the book in place, all at once — validation never leaves a book
/// partially changed.
pub open spec fn update_trans(s: StoreView, id: u32, u: UpdateView) -> (
    StoreView,
    Result<BookView, StoreError>,
) {
    if !has_id(s.books, id) {
        (s, Err(StoreError::NotFound))
    } else if u.title matches Some(t) && is_blank(t) {
        (s, Err(StoreError::InvalidInput(BookField::Title)))
    } else if u.author matches Some(a) && is_blank(a) {
        (s, Err(StoreError::InvalidInput(BookField::Author)))
    } else if u.isbn matches Some(x) && is_blank(x) {
        (s, Err(StoreError::InvalidInput(BookField::Isbn)))
    } else if u.isbn matches Some(x) && isbn_conflict(s.books, id, x) {
        (s, Err(StoreError::Conflict))
    } else {
        let k = first_id_index(s.books, id);
        let b0 = s.books[k];
        let b1 = BookView {
            id: b0.id,
            title: match u.title {
                Some(t) => t,
                None => b0.title,
            },
            author: match u.author {
                Some(a) => a,
                None => b0.author,
            },
            isbn: match u.isbn {
                Some(x) => x,
                None => b0.isbn,
            },
            available: match u.available {
                Some(v) => v,
                None => b0.available,
            },
        };
        (StoreView { books: s.books.update(k, b1), next_id: s.next_id }, Ok(b1))
    }
}

/// What `delete` does: remove the book carrying `id`, or fail with
/// `NotFound`. The counter does not move; the freed id is never
/// reissued.
pub open spec fn delete_trans(s: StoreView, id: u32) -> (StoreView, Result<(), StoreError>) {
    if !has_id(s.books, id) {
        (s, Err(StoreError::NotFound))
    } else {
        (
            StoreView { books: s.books.remove(first_id_index(s.books, id)), next_id: s.next_id },
            Ok(()),
        )
    }
}

/// Whether a book passes the search filters: an author filter asks for
/// the query, folded to lowercase, to occur in the book's author,
/// folded to lowercase; an availability filter asks for an exact match.
/// An absent filter passes every book.
pub open spec fn book_matches(b: BookView, author_q: Option<Seq<char>>, avail_q: Option<
    bool,
>) -> bool {
    (match author_q {
        Some(q) => contains_seq(lower_of(b.author), lower_of(q)),
        None => true,
    }) && (match avail_q {
        Some(v) => b.available == v,
        None => true,
    })
}

/// The availability filter a raw query value denotes: `"true"` and
/// `"false"` filter, any other value — and an absent one — is ignored.
pub open spec fn avail_filter(raw: Option<Seq<char>>) -> Option<bool> {
    match raw {
        Some(s) => spec_parse_bool(s),
        None => None,
    }
}

/// The books passing both filters, in their order in the collection.
pub open spec fn filtered(
    books: Seq<BookView>,
    author_q: Option<Seq<char>>,
    avail_q: Option<bool>,
) -> Seq<BookView>
    decreases books.len(),
{
    if books.len() == 0 {
        Seq::empty()
    } else {
        let rest = filtered(books.drop_last(), author_q, avail_q);
        if book_matches(books.last(), author_q, avail_q) {
            rest.push(books.last())
        } else {
            rest
        }
    }
}

pub open spec fn opt_str_view(o: Option<&str>) -> Option<Seq<char>> {
    match o {
        Some(s) => Some(s@),
        None => None,
    }
}

/// The two catalog records the service starts with.
pub open spec fn seed_books() -> Seq<BookView> {
    seq![
        BookView {
            id: 1,
            title: "The Rust Programming Language"@,
            author: "Steve Klabnik"@,
            isbn: "978-1718500440"@,
            available: true,
        },
        BookView {
            id: 2,
            title: "Programming Rust"@,
            author: "Jim Blandy"@,
            isbn: "978-1492052593"@,
            available: true,
        },
    ]
}

/// The store's state at startup: the two seed records, counter at 3.
pub open spec fn seed_view() -> StoreView {
    StoreView { books: seed_books(), next_id: 3 }
}

impl Store {
    /// An empty store; the first created book will take id 1.
    pub fn new() -> (s: Store)
        ensures
            s@.books.len() == 0,
            s@.next_id == 1,
            store_wf(s@),
    {
        Store { books: Vec::new(), next_id: 1 }
    }

    /// The store as the service starts it: books 1 and 2 present and
    /// available, the counter at 3.
    pub fn seeded() -> (s: Store)
        ensures
            s@ == seed_view(),
            store_wf(s@),
    {
        let mut books: Vec<Book> = Vec::new();
        books.push(
            Book {
                id: 1,
                title: String::from_str("The Rust Programming Language"),
                author: String::from_str("Steve Klabnik"),
                isbn: String::from_str("978-1718500440"),
                available: true,
            },
        );
        books.push(
            Book {
                id: 2,
                title: String::from_str("Programming Rust"),
                author: String::from_str("Jim Blandy"),
                isbn: String::from_str("978-1492052593"),
                available: true,
            },
        );
        let s = Store { books, next_id: 3 };
        proof {
            reveal_strlit("The Rust Programming Language");
            reveal_strlit("Steve Klabnik");
            reveal_strlit("978-1718500440");
            reveal_strlit("Programming Rust");
            reveal_strlit("Jim Blandy");
            reveal_strlit("978-1492052593");
            assert(s@.books =~= seed_books());
            let b1 = seed_books()[0];
            let b2 = seed_books()[1];
            assert(!is_blank(b1.title)) by {
                assert(!is_space_char(b1.title[0]));
            }
            assert(!is_blank(b1.author)) by {
                assert(!is_space_char(b1.author[0]));
            }
            assert(!is_blank(b1.isbn)) by {
                assert(!is_space_char(b1.isbn[0]));
            }
            assert(!is_blank(b2.title)) by {
                assert(!is_space_char(b2.title[0]));
            }
            assert(!is_blank(b2.author)) by {
                assert(!is_space_char(b2.author[0]));
            }
            assert(!is_blank(b2.isbn)) by {
                assert(!is_space_char(b2.isbn[0]));
            }
            assert(b1.isbn[5] != b2.isbn[5]);
            assert(store_wf(s@));
        }
        s
    }

    /// The id the next successful create will assign.
    pub fn upcoming_id(&self) -> (r: u32)
        ensures
            r == self@.next_id,
    {
        self.next_id
    }

    /// A snapshot of the whole collection, in insertion order.
    pub fn list(&self) -> (r: &Vec<Book>)
        ensures
            r@.map_values(|b: Book| b@) == self@.books,
    {
        &self.books
    }

    /// The position of the first book carrying `id`, if any does.
    fn find_id_index(&self, id: u32) -> (r: Option<usize>)
        ensures
            match r {
                Some(k) => has_id(self@.books, id) && first_id_index(self@.books, id) == k as int
                    && is_first_id_at(self@.books, id, k as int),
                None => !has_id(self@.books, id),
            },
    {
        let ghost bs = self@.books;
        let n: usize = self.books.len();
        let mut k: usize = 0;
        while k < n
            invariant
                n == bs.len(),
                bs == self@.books,
                0 <= k <= n,
                forall|j: int| 0 <= j < k ==> (#[trigger] bs[j]).id != id,
            decreases n - k,
        {
            if self.books[k].id == id {
                proof {
                    assert(bs[k as int] == self.books@[k as int]@);
                    assert(is_first_id_at(bs, id, k as int));
                    lemma_first_id_index_is(bs, id, k as int);
                }
                return Some(k);
            }
            k += 1;
        }
        assert(!has_id(bs, id));
        None
    }

    /// The book carrying `id`, or `NotFound` when no book does.
    pub fn get(&self, id: u32) -> (r: Result<&Book, StoreError>)
        ensures
            match r {
                Ok(b) => get_spec(self@, id) == Ok::<BookView, StoreError>(b@),
                Err(e) => get_spec(self@, id) == Err::<BookView, StoreError>(e),
            },
    {
        match self.find_id_index(id) {
            Some(k) => {
                assert(self@.books[k as int] == self.books@[k as int]@);
                Ok(&self.books[k])
            },
            None => Err(StoreError::NotFound),
        }
    }

    /// Creates a book from the given fields, assigning it the next id.
    /// The counter must not have reached its ceiling.
    #[verifier::loop_isolation(false)]
    pub fn create(&mut self, title: String, author: String, isbn: String) -> (r: Result<
        Book,
        StoreError,
    >)
        requires
            old(self)@.next_id < u32::MAX,
        ensures
            final(self)@ == create_trans(old(self)@, title@, author@, isbn@).0,
            match r {
                Ok(b) => create_trans(old(self)@, title@, author@, isbn@).1 == Ok::<
                    BookView,
                    StoreError,
                >(b@),
                Err(e) => create_trans(old(self)@, title@, author@, isbn@).1 == Err::<
                    BookView,
                    StoreError,
                >(e),
            },
            store_wf(old(self)@) ==> store_wf(final(self)@),
    {
        proof {
            if store_wf(self@) {
                crate::laws::lemma_create_preserves_wf(self@, title@, author@, isbn@);
            }
        }
        if is_blank_str(title.as_str()) {
            return Err(StoreError::InvalidInput(BookField::Title));
        }
        if is_blank_str(author.as_str()) {
            return Err(StoreError::InvalidInput(BookField::Author));
        }
        if is_blank_str(isbn.as_str()) {
            return Err(StoreError::InvalidInput(BookField::Isbn));
        }
        let ghost bs = self@.books;
        let n: usize = self.books.len();
        let mut k: usize = 0;
        while k < n
            invariant
                n == bs.len(),
                bs == self@.books,
                0 <= k <= n,
                forall|j: int| 0 <= j < k ==> (#[trigger] bs[j]).isbn != isbn@,
            decreases n - k,
        {
            let same = str_eq(self.books[k].isbn.as_str(), isbn.as_str());
            assert(bs[k as int] == self.books@[k as int]@);
            if same {
                assert(has_isbn(bs, isbn@));
                return Err(StoreError::Conflict);
            }
            k += 1;
        }
        assert(!has_isbn(bs, isbn@));
        let b = Book { id: self.next_id, title, author, isbn, available: true };
        let ret = b.clone();
        let ghost bv = b@;
        self.books.push(b);
        self.next_id = self.next_id + 1;
        assert(self@.books =~= bs.push(bv));
        Ok(ret)
    }

    /// Applies the provided fields of `req` to the book carrying `id`.
    #[verifier::loop_isolation(false)]
    pub fn update(&mut self, id: u32, req: UpdateRequest) -> (r: Result<Book, StoreError>)
        ensures
            final(self)@ == update_trans(old(self)@, id, req@).0,
            match r {
                Ok(b) => update_trans(old(self)@, id, req@).1 == Ok::<BookView, StoreError>(b@),
                Err(e) => update_trans(old(self)@, id, req@).1 == Err::<BookView, StoreError>(e),
            },
            store_wf(old(self)@) ==> store_wf(final(self)@),
    {
        proof {
            if store_wf(self@) {
                crate::laws::lemma_update_preserves_wf(self@, id, req@);
            }
        }
        let ghost bs = self@.books;
        let k: usize = match self.find_id_index(id) {
            Some(k) => k,
            None => {
                return Err(StoreError::NotFound);
            },
        };
        match &req.title {
            Some(t) => {
                if is_blank_str(t.as_str()) {
                    return Err(StoreError::InvalidInput(BookField::Title));
                }
            },
            None => {},
        }
        match &req.author {
            Some(a) => {
                if is_blank_str(a.as_str()) {
                    return Err(StoreError::InvalidInput(BookField::Author));
                }
            },
            None => {},
        }
        match &req.isbn {
            Some(x) => {
                if is_blank_str(x.as_str()) {
                    return Err(StoreError::InvalidInput(BookField::Isbn));
                }
                let n: usize = self.books.len();
                let mut j: usize = 0;
                while j < n
                    invariant
                        n == bs.len(),
                        0 <= j <= n,
                        forall|p: int|
                            0 <= p < j ==> !((#[trigger] bs[p]).id != id && bs[p].isbn == x@),
                    decreases n - j,
                {
                    let other = self.books[j].id != id;
                    let same = str_eq(self.books[j].isbn.as_str(), x.as_str());
                    assert(bs[j as int] == self.books@[j as int]@);
                    if other && same {
                        assert(isbn_conflict(bs, id, x@));
                        return Err(StoreError::Conflict);
                    }
                    j += 1;
                }
                assert(!isbn_conflict(bs, id, x@));
            },
            None => {},
        }
        let old_book = self.books.remove(k);
        assert(old_book@ == bs[k as int]);
        let new_book = Book {
            id: old_book.id,
            title: match req.title {
                Some(t) => t,
                None => old_book.title,
            },
            author: match req.author {
                Some(a) => a,
                None => old_book.author,
            },
            isbn: match req.isbn {
                Some(x) => x,
                None => old_book.isbn,
            },
            available: match req.available {
                Some(v) => v,
                None => old_book.available,
            },
        };
        let ret = new_book.clone();
        let ghost bv = new_book@;
        self.books.insert(k, new_book);
        assert(self@.books =~= bs.update(k as int, bv));
        Ok(ret)
    }

    /// The books passing the given filters, in insertion order. A raw
    /// `available` value that is neither `"true"` nor `"false"` is
    /// ignored, not an error; no filters at all return the whole
    /// collection.
    #[verifier::loop_isolation(false)]
    pub fn search(&self, author: Option<&str>, available: Option<&str>) -> (r: Vec<Book>)
        ensures
            r@.map_values(|b: Book| b@) == filtered(
                self@.books,
                opt_str_view(author),
                avail_filter(opt_str_view(available)),
            ),
    {
        let ghost bs = self@.books;
        let ghost aq = opt_str_view(author);
        let ghost af = avail_filter(opt_str_view(available));
        let avail_q: Option<bool> = match available {
            Some(s) => parse_bool_str(s),
            None => None,
        };
        let author_low: Option<String> = match author {
            Some(q) => Some(lowercase(q)),
            None => None,
        };
        let mut out: Vec<Book> = Vec::new();
        assert(out@.map_values(|b: Book| b@) =~= filtered(bs.subrange(0, 0), aq, af)) by {
            assert(bs.subrange(0, 0) =~= Seq::<BookView>::empty());
        }
        let n: usize = self.books.len();
        let mut k: usize = 0;
        while k < n
            invariant
                0 <= k <= n,
                out@.map_values(|b: Book| b@) == filtered(bs.subrange(0, k as int), aq, af),
            decreases n - k,
        {
            let b = &self.books[k];
            assert(bs[k as int] == self.books@[k as int]@);
            let ok_author: bool = match &author_low {
                Some(ql) => {
                    let al = lowercase(b.author.as_str());
                    contains_str(al.as_str(), ql.as_str())
                },
                None => true,
            };
            let ok_avail: bool = match avail_q {
                Some(v) => b.available == v,
                None => true,
            };
            assert((ok_author && ok_avail) == book_matches(bs[k as int], aq, af));
            if ok_author && ok_avail {
                out.push(b.clone());
            }
            proof {
                let pre = bs.subrange(0, k as int);
                let cur = bs.subrange(0, k + 1);
                assert(cur.drop_last() =~= pre);
                assert(cur.last() == bs[k as int]);
                assert(out@.map_values(|b: Book| b@) =~= filtered(cur, aq, af));
            }
            k += 1;
        }
        assert(bs.subrange(0, n as int) =~= bs);
        out
    }

    /// Removes the book carrying `id`; its id is never issued again.
    pub fn delete(&mut self, id: u32) -> (r: Result<(), StoreError>)
        ensures
            final(self)@ == delete_trans(old(self)@, id).0,
            r == delete_trans(old(self)@, id).1,
            store_wf(old(self)@) ==> store_wf(final(self)@),
    {
        proof {
            if store_wf(self@) {
                crate::laws::lemma_delete_preserves_wf(self@, id);
            }
        }
        let ghost bs = self@.books;
        match self.find_id_index(id) {
            Some(k) => {
                self.books.remove(k);
                assert(self@.books =~= bs.remove(k as int));
                Ok(())
            },
            None => Err(StoreError::NotFound),
        }
    }
}

/// When `i` is the position of the first book carrying `id`,
/// `first_id_index` picks exactly `i`.
pub proof fn lemma_first_id_index_is(books: Seq<BookView>, id: u32, i: int)
    requires
        is_first_id_at(books, id, i),
    ensures
        has_id(books, id),
        first_id_index(books, id) == i,
        is_first_id_at(books, id, first_id_index(books, id)),
{
    assert(has_id(books, id));
    assert(is_first_id_at(books, id, first_id_index(books, id))) by {
        assert(exists|j: int| is_first_id_at(books, id, j));
    }
    let f = first_id_index(books, id);
    if f < i {
        assert(books[f].id != id);
    } else if i < f {
        assert(books[i].id != id);
    }
}

} // verus!

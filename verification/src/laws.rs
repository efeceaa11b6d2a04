//! Laws of the store, proved over the transition functions that the
//! operations' contracts are stated with: freshness and monotonicity of
//! ids, the invariant's preservation, and what delete, update and
//! search guarantee across calls.

use vstd::prelude::*;
use crate::store::avail_filter;
use crate::store::book_wf;
use crate::store::create_trans;
use crate::store::delete_trans;
use crate::store::filtered;
use crate::store::first_id_index;
use crate::store::get_spec;
use crate::store::has_id;
use crate::store::has_isbn;
use crate::store::is_first_id_at;
use crate::store::store_wf;
use crate::store::update_trans;
use crate::store::BookView;
use crate::store::StoreError;
use crate::store::StoreView;
use crate::text::is_blank;
use crate::text::spec_parse_bool;

verus! {

/// When some book carries `id`, a first position carrying it exists,
/// and `first_id_index` picks exactly that position.
pub proof fn lemma_first_exists(books: Seq<BookView>, id: u32)
    requires
        has_id(books, id),
    ensures
        is_first_id_at(books, id, first_id_index(books, id)),
    decreases books.len(),
{
    if books[0].id == id {
        assert(is_first_id_at(books, id, 0));
    } else {
        let rest = books.drop_first();
        let w = choose|i: int| 0 <= i < books.len() && (#[trigger] books[i]).id == id;
        assert(rest[w - 1] == books[w]);
        assert(has_id(rest, id));
        lemma_first_exists(rest, id);
        let f = first_id_index(rest, id);
        assert(books[f + 1] == rest[f]);
        assert forall|j: int| 0 <= j < f + 1 implies (#[trigger] books[j]).id != id by {
            if j > 0 {
                assert(rest[j - 1] == books[j]);
            }
        }
        assert(is_first_id_at(books, id, f + 1));
    }
    let i = choose|i: int| is_first_id_at(books, id, i);
    assert(is_first_id_at(books, id, i));
}

/// Law: the invariant survives `create` — ids and isbns stay distinct,
/// fields stay non-blank, and the counter stays above every id.
pub proof fn lemma_create_preserves_wf(
    s: StoreView,
    title: Seq<char>,
    author: Seq<char>,
    isbn: Seq<char>,
)
    requires
        store_wf(s),
        s.next_id < u32::MAX,
    ensures
        store_wf(create_trans(s, title, author, isbn).0),
{
    let (s1, r) = create_trans(s, title, author, isbn);
    if r is Ok {
        let b = BookView { id: s.next_id, title, author, isbn, available: true };
        assert(s1.books =~= s.books.push(b));
        assert forall|i: int| 0 <= i < s.books.len() implies (#[trigger] s.books[i]).isbn
            != isbn by {}
        assert(store_wf(s1));
    }
}

/// Law: the invariant survives `update` — in particular a changed isbn
/// was checked against every other book, and an unchanged one was
/// already distinct.
pub proof fn lemma_update_preserves_wf(s: StoreView, id: u32, u: crate::store::UpdateView)
    requires
        store_wf(s),
    ensures
        store_wf(update_trans(s, id, u).0),
{
    let (s1, r) = update_trans(s, id, u);
    if r is Ok {
        lemma_first_exists(s.books, id);
        let k = first_id_index(s.books, id);
        let b0 = s.books[k];
        let b1 = update_trans(s, id, u).1->Ok_0;
        assert(b1.id == b0.id);
        assert forall|i: int| 0 <= i < s.books.len() && i != k implies (
        #[trigger] s.books[i]).isbn != b1.isbn by {
            assert(s.books[i].id != s.books[k].id);
            if u.isbn is Some {
                assert(s.books[i].isbn != u.isbn->0);
            }
        }
        assert(book_wf(b1));
        assert(store_wf(s1));
    }
}

/// Law: the invariant survives `delete`, and the counter does not
/// move, so the removed id stays below it.
pub proof fn lemma_delete_preserves_wf(s: StoreView, id: u32)
    requires
        store_wf(s),
    ensures
        store_wf(delete_trans(s, id).0),
        delete_trans(s, id).0.next_id == s.next_id,
{
    let (s1, r) = delete_trans(s, id);
    if r is Ok {
        lemma_first_exists(s.books, id);
        let k = first_id_index(s.books, id);
        let t = s.books.remove(k);
        assert forall|i: int| 0 <= i < t.len() implies #[trigger] t[i] == if i < k {
            s.books[i]
        } else {
            s.books[i + 1]
        } by {}
        assert(store_wf(s1));
    }
}

/// Law: a successful create returns exactly the counter's id, strictly
/// above every id in the collection, and leaves the counter strictly
/// above the id it issued.
pub proof fn lemma_create_id_fresh(
    s: StoreView,
    title: Seq<char>,
    author: Seq<char>,
    isbn: Seq<char>,
)
    requires
        store_wf(s),
        s.next_id < u32::MAX,
        create_trans(s, title, author, isbn).1 is Ok,
    ensures
        create_trans(s, title, author, isbn).1->Ok_0.id == s.next_id,
        forall|j: int|
            0 <= j < s.books.len() ==> (#[trigger] s.books[j]).id < create_trans(
                s,
                title,
                author,
                isbn,
            ).1->Ok_0.id,
        create_trans(s, title, author, isbn).0.next_id > create_trans(
            s,
            title,
            author,
            isbn,
        ).1->Ok_0.id,
{
}

/// Law: no operation ever moves the counter down, so an id issued once
/// is never issued again.
pub proof fn lemma_counter_never_decreases(
    s: StoreView,
    title: Seq<char>,
    author: Seq<char>,
    isbn: Seq<char>,
    id: u32,
    u: crate::store::UpdateView,
)
    requires
        s.next_id < u32::MAX,
    ensures
        create_trans(s, title, author, isbn).0.next_id >= s.next_id,
        update_trans(s, id, u).0.next_id == s.next_id,
        delete_trans(s, id).0.next_id == s.next_id,
{
}

/// Law: ids of successive successful creates strictly increase.
pub proof fn lemma_create_ids_increase(
    s: StoreView,
    t1: Seq<char>,
    a1: Seq<char>,
    i1: Seq<char>,
    t2: Seq<char>,
    a2: Seq<char>,
    i2: Seq<char>,
)
    requires
        s.next_id < u32::MAX,
        create_trans(s, t1, a1, i1).1 is Ok,
        create_trans(create_trans(s, t1, a1, i1).0, t2, a2, i2).1 is Ok,
    ensures
        create_trans(s, t1, a1, i1).1->Ok_0.id < create_trans(
            create_trans(s, t1, a1, i1).0,
            t2,
            a2,
            i2,
        ).1->Ok_0.id,
{
}

/// Law: a deleted id is not what the next successful create issues —
/// freed ids are not recycled.
pub proof fn lemma_deleted_id_not_reissued(
    s: StoreView,
    id: u32,
    title: Seq<char>,
    author: Seq<char>,
    isbn: Seq<char>,
)
    requires
        store_wf(s),
        delete_trans(s, id).1 is Ok,
        s.next_id < u32::MAX,
        create_trans(delete_trans(s, id).0, title, author, isbn).1 is Ok,
    ensures
        create_trans(delete_trans(s, id).0, title, author, isbn).1->Ok_0.id != id,
{
    let w = choose|i: int| 0 <= i < s.books.len() && (#[trigger] s.books[i]).id == id;
    assert(s.books[w].id < s.next_id);
}

/// Law: creating with an isbn any existing book already carries yields
/// `Conflict`, whatever the other fields hold.
pub proof fn lemma_duplicate_isbn_conflicts(
    s: StoreView,
    title: Seq<char>,
    author: Seq<char>,
    isbn: Seq<char>,
)
    requires
        !is_blank(title),
        !is_blank(author),
        !is_blank(isbn),
        has_isbn(s.books, isbn),
    ensures
        create_trans(s, title, author, isbn).1 == Err::<BookView, StoreError>(StoreError::Conflict),
{
}

/// Law: a blank title, author or isbn is always rejected as invalid
/// input, on create and — for a book that exists — on update.
pub proof fn lemma_blank_fields_rejected(
    s: StoreView,
    title: Seq<char>,
    author: Seq<char>,
    isbn: Seq<char>,
    id: u32,
    u: crate::store::UpdateView,
)
    requires
        has_id(s.books, id),
    ensures
        is_blank(title) || is_blank(author) || is_blank(isbn) ==> (create_trans(
            s,
            title,
            author,
            isbn,
        ).1 matches Err(e) && e matches StoreError::InvalidInput(_)),
        (u.title matches Some(t) && is_blank(t)) || (u.author matches Some(a) && is_blank(a)) || (
        u.isbn matches Some(x) && is_blank(x)) ==> (update_trans(s, id, u).1 matches Err(e)
            && e matches StoreError::InvalidInput(_)),
{
}

/// Law: after a delete succeeds, a get of the same id finds nothing.
pub proof fn lemma_delete_then_get(s: StoreView, id: u32)
    requires
        store_wf(s),
        delete_trans(s, id).1 is Ok,
    ensures
        get_spec(delete_trans(s, id).0, id) == Err::<BookView, StoreError>(StoreError::NotFound),
{
    lemma_first_exists(s.books, id);
    let k = first_id_index(s.books, id);
    let t = s.books.remove(k);
    assert forall|i: int| 0 <= i < t.len() implies (#[trigger] t[i]).id != id by {
        if i < k {
            assert(t[i] == s.books[i]);
        } else {
            assert(t[i] == s.books[i + 1]);
        }
    }
    assert(!has_id(t, id));
}

/// Law: a search with no filters returns the whole collection, in
/// insertion order.
pub proof fn lemma_search_no_filters(books: Seq<BookView>)
    ensures
        filtered(books, None, None) == books,
    decreases books.len(),
{
    if books.len() == 0 {
        assert(filtered(books, None, None) =~= books);
    } else {
        lemma_search_no_filters(books.drop_last());
        assert(filtered(books, None, None) =~= books);
    }
}

/// Law: with an availability filter in force, every book returned has
/// exactly that availability.
pub proof fn lemma_search_available_filter(
    books: Seq<BookView>,
    author_q: Option<Seq<char>>,
    v: bool,
)
    ensures
        forall|j: int|
            0 <= j < filtered(books, author_q, Some(v)).len() ==> (#[trigger] filtered(
                books,
                author_q,
                Some(v),
            )[j]).available == v,
    decreases books.len(),
{
    if books.len() > 0 {
        lemma_search_available_filter(books.drop_last(), author_q, v);
        let rest = filtered(books.drop_last(), author_q, Some(v));
        let cur = filtered(books, author_q, Some(v));
        if crate::store::book_matches(books.last(), author_q, Some(v)) {
            assert(cur == rest.push(books.last()));
            assert forall|j: int| 0 <= j < cur.len() implies (#[trigger] cur[j]).available
                == v by {
                if j < rest.len() {
                    assert(cur[j] == rest[j]);
                } else {
                    assert(cur[j] == books.last());
                }
            }
        }
    }
}

/// Law: an availability value that parses as neither `"true"` nor
/// `"false"` filters nothing — the result is as if no availability
/// filter had been given.
pub proof fn lemma_unparseable_available_ignored(
    books: Seq<BookView>,
    author_q: Option<Seq<char>>,
    raw: Seq<char>,
)
    requires
        spec_parse_bool(raw) == None::<bool>,
    ensures
        filtered(books, author_q, avail_filter(Some(raw))) == filtered(books, author_q, None),
{
}

/// Law: an update that provides only `available` changes no other
/// field of the book, and no other book at all.
pub proof fn lemma_update_only_available(s: StoreView, id: u32, v: bool)
    requires
        has_id(s.books, id),
    ensures
        ({
            let u = crate::store::UpdateView {
                title: None,
                author: None,
                isbn: None,
                available: Some(v),
            };
            let k = first_id_index(s.books, id);
            let b0 = s.books[k];
            let b1 = BookView {
                id: b0.id,
                title: b0.title,
                author: b0.author,
                isbn: b0.isbn,
                available: v,
            };
            update_trans(s, id, u).1 == Ok::<BookView, StoreError>(b1) && update_trans(
                s,
                id,
                u,
            ).0.books == s.books.update(k, b1) && update_trans(s, id, u).0.next_id == s.next_id
        }),
{
    lemma_first_exists(s.books, id);
}

} // verus!

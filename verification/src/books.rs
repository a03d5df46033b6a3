//! Book records and the conditional insert protocol: a record is inserted
//! only if no record with the same natural key (the book name) exists, as
//! one atomic step against the store, so concurrent duplicate requests
//! cannot both succeed.

use vstd::prelude::*;
use vstd::string::{StrSliceExecFns, StringSliceAdditionalSpecFns};
use crate::bytes::{append_bytes, bytes_eq, copy_range};

verus! {

/// An id handed in as a query parameter.
#[derive(Debug)]
pub struct Id {
    pub id: String,
}

/// A book record: a store-assigned opaque reference, the natural key, and
/// the author.
pub struct Book {
    /// Store-assigned reference; absent before insertion.
    pub id: Option<Vec<u8>>,
    /// Natural key used for duplicate detection.
    pub book_name: Vec<u8>,
    /// The author.
    pub author_name: Vec<u8>,
}

/// The mathematical content of a book record.
pub ghost struct BookView {
    pub id: Option<Seq<u8>>,
    pub book_name: Seq<u8>,
    pub author_name: Seq<u8>,
}

/// The view of one record.
pub open spec fn book_view(b: Book) -> BookView {
    BookView {
        id: match b.id {
            Some(v) => Some(v@),
            None => None,
        },
        book_name: b.book_name@,
        author_name: b.author_name@,
    }
}

/// The outcome reported by a store operation on books.
pub struct BookOutcome {
    pub success: bool,
    pub message: Vec<u8>,
}

/// How many records of `s` carry the natural key `name`.
pub open spec fn spec_count_with_name(s: Seq<Book>, name: Seq<u8>) -> nat
    decreases s.len(),
{
    if s.len() == 0 {
        0
    } else {
        spec_count_with_name(s.drop_last(), name) + if s.last().book_name@ == name {
            1nat
        } else {
            0nat
        }
    }
}

/// Appending one record raises the count for its own key by one and leaves
/// every other key's count unchanged.
pub proof fn lemma_count_push(s: Seq<Book>, b: Book, name: Seq<u8>)
    ensures
        spec_count_with_name(s.push(b), name) == spec_count_with_name(s, name) + if b.book_name@
            == name {
            1nat
        } else {
            0nat
        },
{
    assert(s.push(b).drop_last() =~= s);
}

/// Counts the records whose natural key is `name`.
pub fn count_with_name(store: &Vec<Book>, name: &Vec<u8>) -> (r: usize)
    ensures
        r == spec_count_with_name(store@, name@),
{
    let mut count: usize = 0;
    let mut i: usize = 0;
    proof {
        assert(store@.subrange(0, 0) =~= Seq::<Book>::empty());
    }
    while i < store.len()
        invariant
            i <= store@.len(),
            count <= i,
            count == spec_count_with_name(store@.subrange(0, i as int), name@),
        decreases store@.len() - i,
    {
        proof {
            assert(store@.subrange(0, i + 1).drop_last() =~= store@.subrange(0, i as int));
            assert(store@.subrange(0, i + 1).last() == store@[i as int]);
        }
        if bytes_eq(&store[i].book_name, name) {
            count += 1;
        }
        i += 1;
    }
    proof {
        assert(store@.subrange(0, store@.len() as int) =~= store@);
    }
    count
}

/// The message reported when `name` was inserted.
pub open spec fn added_message(name: Seq<u8>) -> Seq<u8> {
    "The book ".spec_bytes() + name + " was added".spec_bytes()
}

/// The message reported when `name` was already present.
pub open spec fn exists_message(name: Seq<u8>) -> Seq<u8> {
    "The book ".spec_bytes() + name + " already exists".spec_bytes()
}

/// The conditional insert, as the one atomic transaction the store runs:
/// count the records with the candidate's natural key, insert only when
/// that count is zero, and report which of the two outcomes happened,
/// naming the key.
pub fn create_book(store: &mut Vec<Book>, book: Book) -> (r: BookOutcome)
    ensures
        spec_count_with_name(old(store)@, book.book_name@) == 0 ==> final(store)@ == old(
            store,
        )@.push(book) && r.success && r.message@ == added_message(book.book_name@),
        spec_count_with_name(old(store)@, book.book_name@) != 0 ==> final(store)@ == old(store)@
            && !r.success && r.message@ == exists_message(book.book_name@),
{
    let count = count_with_name(store, &book.book_name);
    let mut message = "The book ".as_bytes_vec();
    append_bytes(&mut message, &book.book_name);
    if count == 0 {
        let suffix = " was added".as_bytes_vec();
        append_bytes(&mut message, &suffix);
        store.push(book);
        BookOutcome { success: true, message }
    } else {
        let suffix = " already exists".as_bytes_vec();
        append_bytes(&mut message, &suffix);
        BookOutcome { success: false, message }
    }
}

/// The record's store-assigned reference equals `id`.
pub open spec fn id_matches(v: BookView, id: Seq<u8>) -> bool {
    v.id matches Some(s) && s == id
}

/// The views of a store's records, in order.
pub open spec fn store_views(s: Seq<Book>) -> Seq<BookView> {
    s.map_values(|b: Book| book_view(b))
}

/// The view of a record after the update's merge: the content's fields
/// replace the old ones, the store-assigned reference stays.
pub open spec fn merged_view(orig: BookView, content: Book) -> BookView {
    BookView { id: orig.id, book_name: content.book_name@, author_name: content.author_name@ }
}

/// Tests whether a record carries the reference `id`.
fn record_has_id(b: &Book, id: &Vec<u8>) -> (r: bool)
    ensures
        r == id_matches(book_view(*b), id@),
{
    match &b.id {
        Some(s) => bytes_eq(s, id),
        None => false,
    }
}

/// Copies a byte vector.
fn clone_bytes(v: &Vec<u8>) -> (r: Vec<u8>)
    ensures
        r@ == v@,
{
    let r = copy_range(v, 0, v.len());
    proof {
        assert(v@.subrange(0, v@.len() as int) =~= v@);
    }
    r
}

/// Copies a record.
fn clone_book(b: &Book) -> (r: Book)
    ensures
        book_view(r) == book_view(*b),
{
    let id = match &b.id {
        Some(s) => Some(clone_bytes(s)),
        None => None,
    };
    Book { id, book_name: clone_bytes(&b.book_name), author_name: clone_bytes(&b.author_name) }
}

/// The message reported when no record with the key exists to update.
pub open spec fn not_exist_message(id: Seq<u8>) -> Seq<u8> {
    "The record ".spec_bytes() + id + " does not exist".spec_bytes()
}

/// The message reported after an update.
pub open spec fn updated_message(id: Seq<u8>) -> Seq<u8> {
    "The record ".spec_bytes() + id + " was updated".spec_bytes()
}

/// The message reported after a delete.
pub open spec fn deleted_message(id: Seq<u8>) -> Seq<u8> {
    "the item ".spec_bytes() + id + " was deleted".spec_bytes()
}

/// The update protocol: existence of the content's natural key is checked
/// first; only then is the content merged into every record carrying the
/// reference `id`, which keeps its store-assigned reference.
pub fn update_book(store: &mut Vec<Book>, id: &Vec<u8>, content: Book) -> (r: BookOutcome)
    ensures
        spec_count_with_name(old(store)@, content.book_name@) == 0 ==> final(store)@ == old(store)@
            && !r.success && r.message@ == not_exist_message(id@),
        spec_count_with_name(old(store)@, content.book_name@) != 0 ==> r.success && r.message@
            == updated_message(id@) && final(store)@.len() == old(store)@.len() && (forall|j: int|
            0 <= j < old(store)@.len() ==> store_views(final(store)@)[j] == (
            if id_matches(book_view(old(store)@[j]), id@) {
                merged_view(book_view(old(store)@[j]), content)
            } else {
                book_view(old(store)@[j])
            })),
{
    let count = count_with_name(store, &content.book_name);
    let mut message = "The record ".as_bytes_vec();
    append_bytes(&mut message, id);
    if count == 0 {
        let suffix = " does not exist".as_bytes_vec();
        append_bytes(&mut message, &suffix);
        return BookOutcome { success: false, message };
    }
    let suffix = " was updated".as_bytes_vec();
    append_bytes(&mut message, &suffix);
    let mut updated: Vec<Book> = Vec::new();
    let mut j: usize = 0;
    while j < store.len()
        invariant
            j <= store@.len(),
            updated@.len() == j,
            forall|k: int|
                0 <= k < j ==> store_views(updated@)[k] == (
                if id_matches(book_view(store@[k]), id@) {
                    merged_view(book_view(store@[k]), content)
                } else {
                    book_view(store@[k])
                }),
        decreases store@.len() - j,
    {
        let ghost prev = updated@;
        let next = if record_has_id(&store[j], id) {
            let orig_id = match &store[j].id {
                Some(s) => Some(clone_bytes(s)),
                None => None,
            };
            Book {
                id: orig_id,
                book_name: clone_bytes(&content.book_name),
                author_name: clone_bytes(&content.author_name),
            }
        } else {
            clone_book(&store[j])
        };
        updated.push(next);
        proof {
            assert(store_views(updated@) =~= store_views(prev).push(book_view(next)));
            assert(forall|k: int|
                0 <= k < prev.len() ==> store_views(updated@)[k] == store_views(prev)[k]);
        }
        j += 1;
    }
    *store = updated;
    BookOutcome { success: true, message }
}

/// The records left after removing every record carrying the reference
/// `id`, in their original order.
pub open spec fn spec_remove_with_id(s: Seq<BookView>, id: Seq<u8>) -> Seq<BookView>
    decreases s.len(),
{
    if s.len() == 0 {
        Seq::empty()
    } else {
        spec_remove_with_id(s.drop_last(), id) + if id_matches(s.last(), id) {
            Seq::empty()
        } else {
            seq![s.last()]
        }
    }
}

/// The delete protocol: unconditional; every record carrying the reference
/// `id` is removed and success is reported either way.
pub fn delete_book(store: &mut Vec<Book>, id: &Vec<u8>) -> (r: BookOutcome)
    ensures
        store_views(final(store)@) == spec_remove_with_id(store_views(old(store)@), id@),
        r.success,
        r.message@ == deleted_message(id@),
{
    let mut message = "the item ".as_bytes_vec();
    append_bytes(&mut message, id);
    let suffix = " was deleted".as_bytes_vec();
    append_bytes(&mut message, &suffix);
    let mut kept: Vec<Book> = Vec::new();
    let mut j: usize = 0;
    proof {
        assert(store_views(store@.subrange(0, 0)) =~= Seq::<BookView>::empty());
        assert(store_views(kept@) =~= Seq::<BookView>::empty());
    }
    while j < store.len()
        invariant
            j <= store@.len(),
            store_views(kept@) == spec_remove_with_id(store_views(store@.subrange(0, j as int)), id@),
        decreases store@.len() - j,
    {
        proof {
            let pref = store_views(store@.subrange(0, j + 1));
            assert(pref.drop_last() =~= store_views(store@.subrange(0, j as int)));
            assert(pref.last() == book_view(store@[j as int]));
        }
        if !record_has_id(&store[j], id) {
            kept.push(clone_book(&store[j]));
            proof {
                assert(store_views(kept@) =~= store_views(kept@.drop_last()).push(
                    book_view(kept@.last()),
                ));
            }
        } else {
            proof {
                assert(spec_remove_with_id(store_views(store@.subrange(0, j + 1)), id@)
                    =~= spec_remove_with_id(store_views(store@.subrange(0, j as int)), id@));
            }
        }
        j += 1;
    }
    proof {
        assert(store@.subrange(0, store@.len() as int) =~= store@);
    }
    *store = kept;
    BookOutcome { success: true, message }
}

/// One atomic conditional-insert step, as the store sees it: the new store
/// contents and whether the insert happened.
pub open spec fn spec_create_step(store: Seq<Book>, b: Book) -> (Seq<Book>, bool) {
    if spec_count_with_name(store, b.book_name@) == 0 {
        (store.push(b), true)
    } else {
        (store, false)
    }
}

/// A sequence of conditional-insert steps run in some serial order, which
/// is how the store's transactions resolve concurrent requests: the final
/// contents and each request's outcome, in order.
pub open spec fn spec_run_creates(store: Seq<Book>, reqs: Seq<Book>) -> (Seq<Book>, Seq<bool>)
    decreases reqs.len(),
{
    if reqs.len() == 0 {
        (store, Seq::empty())
    } else {
        let first = spec_create_step(store, reqs[0]);
        let rest = spec_run_creates(first.0, reqs.drop_first());
        (rest.0, seq![first.1] + rest.1)
    }
}

/// Once a key is present, every further request for it fails and changes
/// nothing.
pub proof fn lemma_creates_all_fail(store: Seq<Book>, reqs: Seq<Book>, name: Seq<u8>)
    requires
        spec_count_with_name(store, name) >= 1,
        forall|i: int| 0 <= i < reqs.len() ==> (#[trigger] reqs[i]).book_name@ == name,
    ensures
        spec_run_creates(store, reqs).0 == store,
        spec_run_creates(store, reqs).1.len() == reqs.len(),
        forall|j: int| 0 <= j < reqs.len() ==> !(#[trigger] spec_run_creates(store, reqs).1[j]),
    decreases reqs.len(),
{
    if reqs.len() > 0 {
        assert(reqs[0].book_name@ == name);
        lemma_creates_all_fail(store, reqs.drop_first(), name);
    }
}

/// Concurrent creation requests sharing one natural key, resolved in any
/// serial order by the store, starting from a store without that key:
/// exactly the first in the order succeeds, every other request reports
/// failure, and exactly one matching record exists afterward.
pub proof fn lemma_duplicate_creates_one_winner(store: Seq<Book>, reqs: Seq<Book>, name: Seq<u8>)
    requires
        spec_count_with_name(store, name) == 0,
        reqs.len() >= 1,
        forall|i: int| 0 <= i < reqs.len() ==> (#[trigger] reqs[i]).book_name@ == name,
    ensures
        spec_run_creates(store, reqs).1.len() == reqs.len(),
        spec_run_creates(store, reqs).1[0],
        forall|j: int| 1 <= j < reqs.len() ==> !(#[trigger] spec_run_creates(store, reqs).1[j]),
        spec_count_with_name(spec_run_creates(store, reqs).0, name) == 1,
{
    assert(reqs[0].book_name@ == name);
    let after_first = store.push(reqs[0]);
    lemma_count_push(store, reqs[0], name);
    assert(forall|i: int|
        0 <= i < reqs.drop_first().len() ==> (#[trigger] reqs.drop_first()[i]).book_name@
            == name) by {
        assert(forall|i: int|
            0 <= i < reqs.drop_first().len() ==> reqs.drop_first()[i] == reqs[i + 1]);
    }
    lemma_creates_all_fail(after_first, reqs.drop_first(), name);
}

} // verus!

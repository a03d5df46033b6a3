use todo_auth::books::{count_with_name, create_book, delete_book, update_book, Book, Id};

fn bytes(s: &str) -> Vec<u8> {
    s.as_bytes().to_vec()
}

fn book(name: &str, author: &str) -> Book {
    Book { id: None, book_name: bytes(name), author_name: bytes(author) }
}

#[test]
fn first_create_succeeds_and_names_the_key() {
    let mut store: Vec<Book> = Vec::new();
    let outcome = create_book(&mut store, book("Dune", "Herbert"));
    assert!(outcome.success);
    assert_eq!(outcome.message, bytes("The book Dune was added"));
    assert_eq!(store.len(), 1);
    assert_eq!(count_with_name(&store, &bytes("Dune")), 1);
}

#[test]
fn duplicate_creates_have_exactly_one_winner() {
    let mut store: Vec<Book> = Vec::new();
    let first = create_book(&mut store, book("Dune", "Herbert"));
    let second = create_book(&mut store, book("Dune", "Someone Else"));
    let third = create_book(&mut store, book("Dune", "Another"));
    assert!(first.success);
    assert!(!second.success);
    assert!(!third.success);
    assert_eq!(second.message, bytes("The book Dune already exists"));
    assert_eq!(count_with_name(&store, &bytes("Dune")), 1);
    assert_eq!(store.len(), 1);
    assert_eq!(store[0].author_name, bytes("Herbert"));
}

#[test]
fn distinct_names_do_not_conflict() {
    let mut store: Vec<Book> = Vec::new();
    assert!(create_book(&mut store, book("Dune", "Herbert")).success);
    assert!(create_book(&mut store, book("Emma", "Austen")).success);
    assert_eq!(store.len(), 2);
}

#[test]
fn update_requires_existence() {
    let mut store: Vec<Book> = Vec::new();
    let outcome = update_book(&mut store, &bytes("b1"), book("Dune", "Herbert"));
    assert!(!outcome.success);
    assert_eq!(outcome.message, bytes("The record b1 does not exist"));
    assert!(store.is_empty());
}

#[test]
fn update_merges_content_and_keeps_the_reference() {
    let mut store: Vec<Book> = Vec::new();
    create_book(
        &mut store,
        Book { id: Some(bytes("b1")), book_name: bytes("Dune"), author_name: bytes("Herbert") },
    );
    let outcome = update_book(
        &mut store,
        &bytes("b1"),
        Book { id: None, book_name: bytes("Dune"), author_name: bytes("Frank Herbert") },
    );
    assert!(outcome.success);
    assert_eq!(outcome.message, bytes("The record b1 was updated"));
    assert_eq!(store.len(), 1);
    assert_eq!(store[0].id, Some(bytes("b1")));
    assert_eq!(store[0].author_name, bytes("Frank Herbert"));
}

#[test]
fn delete_is_unconditional() {
    let mut store: Vec<Book> = Vec::new();
    create_book(
        &mut store,
        Book { id: Some(bytes("b1")), book_name: bytes("Dune"), author_name: bytes("Herbert") },
    );
    let gone = delete_book(&mut store, &bytes("b1"));
    assert!(gone.success);
    assert_eq!(gone.message, bytes("the item b1 was deleted"));
    assert!(store.is_empty());

    let absent = delete_book(&mut store, &bytes("b2"));
    assert!(absent.success);
    assert_eq!(absent.message, bytes("the item b2 was deleted"));
}

#[test]
fn id_carrier_holds_its_field() {
    let id = Id { id: String::from("b1") };
    assert_eq!(id.id, "b1");
}

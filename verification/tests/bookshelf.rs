use workbook::library::book::Book;
use workbook::library::bookshelf::{is_hit, Bookshelf};

fn titles(found: &Vec<&Book>) -> Vec<String> {
    found.iter().map(|book| book.title.clone()).collect()
}

fn shelf() -> Bookshelf {
    let mut shelf = Bookshelf::new();
    shelf.add_book(Book::new("すごいぞChatGPT!AIを使って学ぼうRust!", "山田太郎"));
    shelf.add_book(Book::new("Pythonプログラミング入門", "山田花子"));
    shelf.add_book(Book::new("The Rust Programming Language", "Klabnik"));
    shelf.add_book(Book::new("Rust", "Anonymous"));
    shelf
}

#[test]
fn test_bookshelf() {
    let mut shelf = Bookshelf::new();
    let book1 = Book::new("すごいぞChatGPT!AIを使って学ぼうRust!", "山田太郎");
    let book2 = Book::new("Pythonプログラミング入門", "山田花子");
    shelf.add_book(book1);
    shelf.add_book(book2);
    let found_books = shelf.search_books("chatgpt");
    println!("{:?}", found_books);
    assert_eq!(titles(&found_books), vec!["すごいぞChatGPT!AIを使って学ぼうRust!"]);
    assert_eq!(found_books[0].author, "山田太郎");
}

#[test]
fn new_shelf_is_empty() {
    let shelf = Bookshelf::default();
    assert_eq!(shelf.len(), 0);
    assert!(shelf.search_books("rust").is_empty());
    assert!(shelf.search_books_exact("Rust").is_empty());
    assert!(shelf.search_books_partial("").is_empty());
}

#[test]
fn fuzzy_search_finds_scattered_letters_in_shelf_order() {
    let shelf = shelf();
    let found = shelf.search_books("rust");
    assert_eq!(
        titles(&found),
        vec![
            "すごいぞChatGPT!AIを使って学ぼうRust!",
            "The Rust Programming Language",
            "Rust"
        ]
    );
    let found = shelf.search_books("pyn");
    assert_eq!(titles(&found), vec!["Pythonプログラミング入門"]);
    assert!(shelf.search_books("zzz").is_empty());
}

#[test]
fn fuzzy_search_with_upper_case_is_case_sensitive() {
    let shelf = shelf();
    assert!(shelf.search_books("RUST").is_empty());
    assert_eq!(titles(&shelf.search_books("ChatGPT")).len(), 1);
}

#[test]
fn fuzzy_search_for_nothing_finds_nothing() {
    let shelf = shelf();
    assert!(shelf.can_search(""));
    assert!(shelf.search_books("").is_empty());
}

#[test]
fn only_scores_above_zero_are_hits() {
    assert!(is_hit(Some(1)));
    assert!(is_hit(Some(i64::MAX)));
    assert!(!is_hit(Some(0)));
    assert!(!is_hit(Some(-3)));
    assert!(!is_hit(None));
}

#[test]
fn exact_search_needs_the_whole_title() {
    let shelf = shelf();
    assert_eq!(titles(&shelf.search_books_exact("Rust")), vec!["Rust"]);
    assert!(shelf.search_books_exact("rust").is_empty());
    assert!(shelf.search_books_exact("Rus").is_empty());
    assert_eq!(
        titles(&shelf.search_books_exact("Pythonプログラミング入門")),
        vec!["Pythonプログラミング入門"]
    );
}

#[test]
fn partial_search_needs_neighbouring_characters() {
    let shelf = shelf();
    assert_eq!(
        titles(&shelf.search_books_partial("Rust")),
        vec![
            "すごいぞChatGPT!AIを使って学ぼうRust!",
            "The Rust Programming Language",
            "Rust"
        ]
    );
    assert_eq!(titles(&shelf.search_books_partial("プログラミング")).len(), 1);
    assert!(shelf.search_books_partial("Rst").is_empty());
    assert_eq!(shelf.search_books_partial("").len(), 4);
}

#[test]
fn shelf_can_search_ordinary_titles() {
    let shelf = shelf();
    assert!(shelf.can_search("chatgpt"));
    let long = "x".repeat(1_048_577);
    assert!(!shelf.can_search(&long));
    let mut crowded = Bookshelf::new();
    crowded.add_book(Book::new(&long, "nobody"));
    assert!(!crowded.can_search("x"));
    assert_eq!(crowded.len(), 1);
}

#[test]
fn books_copy_by_value() {
    let book = Book::new("Rust", "Anonymous");
    let copy = book.clone();
    assert_eq!(copy.title, "Rust");
    assert_eq!(copy.author, "Anonymous");
}

#[test]
fn hits_are_picked_by_their_scores() {
    let shelf = shelf();
    let found = shelf.pick_hits(&vec![Some(0), Some(12), None, Some(1)]);
    assert_eq!(titles(&found), vec!["Pythonプログラミング入門", "Rust"]);
    assert!(shelf.pick_hits(&vec![None, Some(-1), Some(0), None]).is_empty());
    assert_eq!(shelf.pick_hits(&vec![Some(5), Some(5), Some(5), Some(5)]).len(), 4);
    assert!(Bookshelf::new().pick_hits(&vec![]).is_empty());
}

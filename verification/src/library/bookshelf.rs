//! A shelf of books that can be searched by title.

use crate::library::book::{Book, BookView};
use fuzzy_matcher::skim::SkimMatcherV2;
use fuzzy_matcher::FuzzyMatcher;
use vstd::prelude::*;

verus! {

/// The longest title or query, in characters, that the fuzzy search takes.
/// The matcher adds up its scores in 32 bits, at most a few dozen points a
/// character; texts of this length stay far below what 32 bits hold.
pub const MAX_TEXT_LEN: usize = 1_048_576;

/// The score that the skim matcher, with the settings it is made with by
/// default, gives to `pattern` as a fuzzy match in `choice`; nothing where
/// it finds no match.
pub uninterp spec fn skim_score(choice: Seq<char>, pattern: Seq<char>) -> Option<i64>;

/// `fuzzy_match` of `SkimMatcherV2`, on a matcher newly made by `default()`,
/// so that nothing but the two texts bears on the result. The result is
/// given the name `skim_score`. Of the score itself only this is claimed:
/// the matcher answers an empty pattern with a score of zero before it looks
/// at the choice.
#[verifier::external_body]
fn fuzzy_score(choice: &str, pattern: &str) -> (score: Option<i64>)
    requires
        choice@.len() <= MAX_TEXT_LEN,
        pattern@.len() <= MAX_TEXT_LEN,
    ensures
        score == skim_score(choice@, pattern@),
        pattern@.len() == 0 ==> score == Some(0i64),
{
    SkimMatcherV2::default().fuzzy_match(choice, pattern)
}

/// Whether `part` occurs in `text`, as a run of neighbouring characters.
pub open spec fn occurs_in(part: Seq<char>, text: Seq<char>) -> bool {
    exists|at: int|
        0 <= at <= text.len() - part.len() && #[trigger] text.subrange(at, at + part.len())
            == part
}

/// `contains` of the standard library, on two string slices: whether the
/// second occurs somewhere in the first.
#[verifier::external_body]
fn contains_text(text: &str, part: &str) -> (found: bool)
    ensures
        found == occurs_in(part@, text@),
{
    text.contains(part)
}

/// Whether a score of the fuzzy matcher counts as a hit: there is a match,
/// and its score is above zero.
pub open spec fn spec_is_hit(score: Option<i64>) -> bool {
    score matches Some(points) && points > 0
}

/// Whether a score of the fuzzy matcher counts as a hit.
#[verifier::when_used_as_spec(spec_is_hit)]
pub fn is_hit(score: Option<i64>) -> (hit: bool)
    ensures
        hit == spec_is_hit(score),
{
    match score {
        Some(points) => points > 0,
        None => false,
    }
}

/// The books among `books` that `wanted` holds of, in shelf order.
pub open spec fn chosen(books: Seq<BookView>, wanted: spec_fn(BookView) -> bool) -> Seq<BookView>
    decreases books.len(),
{
    if books.len() == 0 {
        Seq::empty()
    } else if wanted(books.last()) {
        chosen(books.drop_last(), wanted).push(books.last())
    } else {
        chosen(books.drop_last(), wanted)
    }
}

/// The score of each book's title as a fuzzy match for `query`.
pub open spec fn scores_of(books: Seq<BookView>, query: Seq<char>) -> Seq<Option<i64>> {
    Seq::new(books.len(), |i: int| skim_score(books[i].title, query))
}

/// The books whose score counts as a hit, in shelf order. There is one
/// score for each book.
pub open spec fn hits_among(books: Seq<BookView>, scores: Seq<Option<i64>>) -> Seq<BookView>
    decreases books.len(),
{
    if books.len() == 0 || scores.len() != books.len() {
        Seq::empty()
    } else if is_hit(scores.last()) {
        hits_among(books.drop_last(), scores.drop_last()).push(books.last())
    } else {
        hits_among(books.drop_last(), scores.drop_last())
    }
}

/// The books whose title the fuzzy matcher counts as a hit for `query`, in
/// shelf order.
pub open spec fn fuzzy_hits(books: Seq<BookView>, query: Seq<char>) -> Seq<BookView> {
    hits_among(books, scores_of(books, query))
}

/// The books whose title is `title`, in shelf order.
pub open spec fn titled(books: Seq<BookView>, title: Seq<char>) -> Seq<BookView> {
    chosen(books, |book: BookView| book.title == title)
}

/// The books in whose title `part` occurs, in shelf order.
pub open spec fn titles_containing(books: Seq<BookView>, part: Seq<char>) -> Seq<BookView> {
    chosen(books, |book: BookView| occurs_in(part, book.title))
}

/// A search by title goes along the shelf book by book: the last book is
/// found after those found before it, if it is found at all.
pub proof fn lemma_search_step(books: Seq<BookView>, text: Seq<char>)
    requires
        books.len() > 0,
    ensures
        titled(books, text) == if books.last().title == text {
            titled(books.drop_last(), text).push(books.last())
        } else {
            titled(books.drop_last(), text)
        },
        titles_containing(books, text) == if occurs_in(text, books.last().title) {
            titles_containing(books.drop_last(), text).push(books.last())
        } else {
            titles_containing(books.drop_last(), text)
        },
{
}

/// Where no score is above zero, no book is a hit.
pub proof fn lemma_no_hits(books: Seq<BookView>, scores: Seq<Option<i64>>)
    requires
        forall|k: int| 0 <= k < scores.len() ==> !is_hit(#[trigger] scores[k]),
    ensures
        hits_among(books, scores).len() == 0,
    decreases books.len(),
{
    if books.len() > 0 && scores.len() == books.len() {
        assert forall|k: int| 0 <= k < scores.drop_last().len() implies !is_hit(
            #[trigger] scores.drop_last()[k],
        ) by {
            assert(scores.drop_last()[k] == scores[k]);
        }
        lemma_no_hits(books.drop_last(), scores.drop_last());
        assert(!is_hit(scores[scores.len() - 1]));
    }
}

/// Whether the fuzzy search takes every title on the shelf.
pub open spec fn searchable(books: Seq<BookView>) -> bool {
    forall|i: int| 0 <= i < books.len() ==> (#[trigger] books[i]).title.len() <= MAX_TEXT_LEN
}

/// A shelf of books, in the order in which they were put there.
#[derive(Debug)]
pub struct Bookshelf {
    books: Vec<Book>,
}

impl View for Bookshelf {
    type V = Seq<BookView>;

    closed spec fn view(&self) -> Seq<BookView> {
        self.books.deep_view()
    }
}

impl Default for Bookshelf {
    fn default() -> (shelf: Bookshelf)
        ensures
            shelf@ == Seq::<BookView>::empty(),
    {
        Bookshelf::new()
    }
}

impl Bookshelf {
    /// An empty shelf.
    pub fn new() -> (shelf: Bookshelf)
        ensures
            shelf@ == Seq::<BookView>::empty(),
    {
        let books: Vec<Book> = Vec::new();
        assert(books.deep_view() =~= Seq::<BookView>::empty());
        Bookshelf { books }
    }

    /// Puts a book at the end of the shelf.
    pub fn add_book(&mut self, book: Book)
        ensures
            final(self)@ == old(self)@.push(book@),
    {
        let ghost before = self.books.deep_view();
        let ghost added = book@;
        self.books.push(book);
        assert(self.books.deep_view() =~= before.push(added));
    }

    /// How many books are on the shelf.
    pub fn len(&self) -> (count: usize)
        ensures
            count == self@.len(),
    {
        self.books.len()
    }

    /// Whether every title on the shelf is short enough for the fuzzy
    /// search, and `title_query` too.
    pub fn can_search(&self, title_query: &str) -> (ok: bool)
        ensures
            ok == (searchable(self@) && title_query@.len() <= MAX_TEXT_LEN),
    {
        if title_query.unicode_len() > MAX_TEXT_LEN {
            return false;
        }
        let mut i: usize = 0;
        while i < self.books.len()
            invariant
                i <= self.books.len(),
                forall|k: int| 0 <= k < i ==> (#[trigger] self@[k]).title.len() <= MAX_TEXT_LEN,
            decreases self.books.len() - i,
        {
            if self.books[i].title.as_str().unicode_len() > MAX_TEXT_LEN {
                assert(self@[i as int].title.len() > MAX_TEXT_LEN);
                return false;
            }
            i += 1;
        }
        true
    }

    /// The books whose score counts as a hit, in shelf order. There is one
    /// score for each book.
    pub fn pick_hits(&self, scores: &Vec<Option<i64>>) -> (found: Vec<&Book>)
        requires
            scores.len() == self@.len(),
        ensures
            found.deep_view() == hits_among(self@, scores@),
    {
        let mut found: Vec<&Book> = Vec::new();
        let mut i: usize = 0;
        while i < self.books.len()
            invariant
                i <= self.books.len(),
                scores.len() == self.books.len(),
                found.deep_view() =~= hits_among(self@.take(i as int), scores@.take(i as int)),
            decreases self.books.len() - i,
        {
            let ghost so_far = found.deep_view();
            let book = &self.books[i];
            assert(self@[i as int] == book@);
            proof {
                let prefix = self@.take(i as int + 1);
                let marks = scores@.take(i as int + 1);
                assert(prefix.drop_last() =~= self@.take(i as int));
                assert(marks.drop_last() =~= scores@.take(i as int));
                assert(prefix.last() == book@);
                assert(marks.last() == scores[i as int]);
            }
            if is_hit(scores[i]) {
                found.push(book);
                assert(found.deep_view() =~= so_far.push(book@));
            }
            i += 1;
        }
        assert(self@.take(i as int) =~= self@);
        assert(scores@.take(i as int) =~= scores@);
        found
    }

    /// The books whose title is a fuzzy match for `title_query`, in shelf
    /// order: those to which the matcher gives a score above zero. An empty
    /// query finds nothing.
    pub fn search_books(&self, title_query: &str) -> (found: Vec<&Book>)
        requires
            searchable(self@),
            title_query@.len() <= MAX_TEXT_LEN,
        ensures
            found.deep_view() == fuzzy_hits(self@, title_query@),
            title_query@.len() == 0 ==> found.len() == 0,
    {
        let mut scores: Vec<Option<i64>> = Vec::new();
        let mut i: usize = 0;
        while i < self.books.len()
            invariant
                i <= self.books.len(),
                searchable(self@),
                title_query@.len() <= MAX_TEXT_LEN,
                scores@ =~= scores_of(self@, title_query@).take(i as int),
                title_query@.len() == 0 ==> forall|k: int|
                    0 <= k < i ==> #[trigger] scores[k] == Some(0i64),
            decreases self.books.len() - i,
        {
            let book = &self.books[i];
            assert(self@[i as int] == book@);
            scores.push(fuzzy_score(book.title.as_str(), title_query));
            i += 1;
        }
        assert(scores_of(self@, title_query@).take(i as int) =~= scores_of(self@, title_query@));
        let found = self.pick_hits(&scores);
        proof {
            if title_query@.len() == 0 {
                lemma_no_hits(self@, scores@);
            }
        }
        found
    }

    /// The books with exactly the title `title_query`, in shelf order.
    pub fn search_books_exact(&self, title_query: &str) -> (found: Vec<&Book>)
        ensures
            found.deep_view() == titled(self@, title_query@),
    {
        let wanted = title_query.to_owned();
        let mut found: Vec<&Book> = Vec::new();
        let mut i: usize = 0;
        while i < self.books.len()
            invariant
                i <= self.books.len(),
                wanted@ == title_query@,
                found.deep_view() =~= titled(self@.take(i as int), title_query@),
            decreases self.books.len() - i,
        {
            let ghost so_far = found.deep_view();
            let book = &self.books[i];
            assert(self@[i as int] == book@);
            proof {
                let prefix = self@.take(i as int + 1);
                assert(prefix.drop_last() =~= self@.take(i as int));
                assert(prefix.last() == book@);
                lemma_search_step(prefix, title_query@);
            }
            if book.title == wanted {
                found.push(book);
                assert(found.deep_view() =~= so_far.push(book@));
            }
            i += 1;
        }
        assert(self@.take(i as int) =~= self@);
        found
    }

    /// The books in whose title `title_query` occurs, in shelf order.
    pub fn search_books_partial(&self, title_query: &str) -> (found: Vec<&Book>)
        ensures
            found.deep_view() == titles_containing(self@, title_query@),
    {
        let mut found: Vec<&Book> = Vec::new();
        let mut i: usize = 0;
        while i < self.books.len()
            invariant
                i <= self.books.len(),
                found.deep_view() =~= titles_containing(self@.take(i as int), title_query@),
            decreases self.books.len() - i,
        {
            let ghost so_far = found.deep_view();
            let book = &self.books[i];
            assert(self@[i as int] == book@);
            proof {
                let prefix = self@.take(i as int + 1);
                assert(prefix.drop_last() =~= self@.take(i as int));
                assert(prefix.last() == book@);
                lemma_search_step(prefix, title_query@);
            }
            if contains_text(book.title.as_str(), title_query) {
                found.push(book);
                assert(found.deep_view() =~= so_far.push(book@));
            }
            i += 1;
        }
        assert(self@.take(i as int) =~= self@);
        found
    }
}

} // verus!

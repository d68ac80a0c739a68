//! A hand of cards: dealing it, exchanging cards, and telling what it is
//! worth.

use rand::seq::SliceRandom;
use vstd::prelude::*;

verus! {

/// The suit of a card.
#[derive(Copy, Clone, PartialEq, Eq, Debug, Structural)]
pub enum Suit {
    Club,
    Diamond,
    Heart,
    Spade,
}

/// A playing card.
#[derive(Copy, Clone, PartialEq, Eq, Debug, Structural)]
pub struct Card {
    pub suit: Suit,
    pub rank: i32,
}

/// What a hand is worth, from best to worst.
#[derive(Copy, Clone, PartialEq, Eq, Debug, Structural)]
pub enum Hand {
    /// All cards are of one suit.
    Flush,
    /// Three or more pairs of equal rank can be picked: three cards of a
    /// rank, or better.
    ThreeCards,
    /// Exactly two pairs of equal rank can be picked.
    TwoPair,
    /// Exactly one pair of equal rank can be picked.
    OnePair,
    /// Nothing of the above.
    NoPair,
}

/// The number of cards in the deck.
pub const DECK_SIZE: usize = 52;

/// The number of cards in a hand.
pub const HAND_SIZE: usize = 5;

/// The most cards in which pairs are counted.
pub const MAX_COUNTED: usize = 65536;

/// The suits in the order in which a new deck holds them.
pub open spec fn suit_at(position: int) -> Suit {
    if position == 0 {
        Suit::Club
    } else if position == 1 {
        Suit::Diamond
    } else if position == 2 {
        Suit::Heart
    } else {
        Suit::Spade
    }
}

/// A new deck: the clubs from ace to king, then the diamonds, the hearts and
/// the spades likewise.
pub open spec fn full_deck() -> Seq<Card> {
    Seq::new(52, |i: int| Card { suit: suit_at(i / 13), rank: (i % 13 + 1) as i32 })
}

/// Makes a new deck.
pub fn new_deck() -> (deck: Vec<Card>)
    ensures
        deck@ == full_deck(),
{
    let suits = [Suit::Club, Suit::Diamond, Suit::Heart, Suit::Spade];
    let mut deck: Vec<Card> = Vec::new();
    let mut s: usize = 0;
    while s < 4
        invariant
            s <= 4,
            suits@ == seq![Suit::Club, Suit::Diamond, Suit::Heart, Suit::Spade],
            deck@ =~= full_deck().take(13 * s),
        decreases 4 - s,
    {
        let suit = suits[s];
        assert(suit == suit_at(s as int));
        let mut rank: i32 = 1;
        while rank <= 13
            invariant
                s < 4,
                1 <= rank <= 14,
                suit == suit_at(s as int),
                deck@ =~= full_deck().take(13 * s + rank - 1),
            decreases 14 - rank,
        {
            deck.push(Card { suit, rank });
            assert(full_deck()[13 * s + rank - 1] == (Card { suit, rank }));
            rank += 1;
        }
        s += 1;
    }
    assert(full_deck().take(52) =~= full_deck());
    deck
}

/// `shuffle` of rand's `SliceRandom`, with the random number generator of
/// the current thread: it swaps cards with one another, so that afterwards
/// the vector holds the cards it held before, each as often as before. In
/// which order is left to chance, and nothing is claimed of it.
#[verifier::external_body]
fn shuffle_cards(cards: &mut Vec<Card>)
    ensures
        final(cards)@.to_multiset() == old(cards)@.to_multiset(),
{
    cards.shuffle(&mut rand::thread_rng());
}

/// Makes a new deck and shuffles it: every card is in it once, in an order
/// left to chance.
pub fn shuffled_deck() -> (deck: Vec<Card>)
    ensures
        deck@.to_multiset() == full_deck().to_multiset(),
        deck.len() == DECK_SIZE,
{
    let mut deck = new_deck();
    shuffle_cards(&mut deck);
    proof {
        vstd::seq_lib::to_multiset_len(deck@);
        vstd::seq_lib::to_multiset_len(full_deck());
    }
    deck
}

/// The `count` cards on top of a deck, from the top down. The top of the
/// deck is its end.
pub open spec fn top_cards(deck: Seq<Card>, count: nat) -> Seq<Card> {
    Seq::new(count, |k: int| deck[deck.len() - 1 - k])
}

/// Takes `count` cards off the top of the deck, one after the other.
pub fn draw(deck: &mut Vec<Card>, count: usize) -> (hand: Vec<Card>)
    requires
        count <= old(deck).len(),
    ensures
        hand@ == top_cards(old(deck)@, count as nat),
        final(deck)@ == old(deck)@.take(old(deck).len() - count),
{
    let mut hand: Vec<Card> = Vec::new();
    let mut taken: usize = 0;
    while taken < count
        invariant
            taken <= count <= old(deck).len(),
            deck@ =~= old(deck)@.take(old(deck).len() - taken),
            hand@ =~= top_cards(old(deck)@, taken as nat),
        decreases count - taken,
    {
        let card = deck.pop().unwrap();
        hand.push(card);
        taken += 1;
    }
    hand
}

/// The cards of rank `rank` among `cards`, in their order.
pub open spec fn of_rank(cards: Seq<Card>, rank: i32) -> Seq<Card>
    decreases cards.len(),
{
    if cards.len() == 0 {
        Seq::empty()
    } else if cards.last().rank == rank {
        of_rank(cards.drop_last(), rank).push(cards.last())
    } else {
        of_rank(cards.drop_last(), rank)
    }
}

/// Whether no card is followed, anywhere later, by one of lower rank.
pub open spec fn ranks_ascend(cards: Seq<Card>) -> bool {
    forall|i: int, j: int| 0 <= i <= j < cards.len() ==> cards[i].rank <= cards[j].rank
}

/// `sort_by_key` of the standard library, on a vector of cards with the
/// rank as key: afterwards the ranks ascend, and the cards of each rank are
/// the same as before and in the same order among themselves, for the sort
/// is stable.
#[verifier::external_body]
fn sort_cards_by_rank(cards: &mut Vec<Card>)
    ensures
        ranks_ascend(final(cards)@),
        final(cards)@.len() == old(cards)@.len(),
        forall|rank: i32| of_rank(final(cards)@, rank) == of_rank(old(cards)@, rank),
{
    cards.sort_by_key(|card| card.rank);
}

/// Brings a hand into ascending order of rank. Cards of the same rank stay
/// in the order they were in.
pub fn sort_hand(hand: &mut Vec<Card>)
    ensures
        ranks_ascend(final(hand)@),
        final(hand)@.len() == old(hand)@.len(),
        forall|rank: i32| of_rank(final(hand)@, rank) == of_rank(old(hand)@, rank),
{
    sort_cards_by_rank(hand);
}

/// The hand after the cards at the places `numbers`, counted from one, have
/// been replaced, in that order, by the cards from the top of `deck`.
pub open spec fn exchanged(hand: Seq<Card>, deck: Seq<Card>, numbers: Seq<usize>) -> Seq<Card>
    decreases numbers.len(),
{
    if numbers.len() == 0 {
        hand
    } else {
        exchanged(hand, deck, numbers.drop_last()).update(
            numbers.last() - 1,
            deck[deck.len() - numbers.len()],
        )
    }
}

/// Replaces cards of the hand by cards from the top of the deck: for each
/// of `numbers` in turn, the card at that place of the hand, counted from
/// one, gives way to the card then on top of the deck.
pub fn exchange(hand: &mut Vec<Card>, deck: &mut Vec<Card>, numbers: &Vec<usize>)
    requires
        numbers.len() <= old(deck).len(),
        forall|k: int| 0 <= k < numbers.len() ==> 1 <= #[trigger] numbers[k] <= old(hand).len(),
    ensures
        final(hand)@ == exchanged(old(hand)@, old(deck)@, numbers@),
        final(deck)@ == old(deck)@.take(old(deck).len() - numbers.len()),
{
    let mut k: usize = 0;
    while k < numbers.len()
        invariant
            k <= numbers.len() <= old(deck).len(),
            forall|k: int|
                0 <= k < numbers.len() ==> 1 <= #[trigger] numbers[k] <= old(hand).len(),
            hand.len() == old(hand).len(),
            deck@ =~= old(deck)@.take(old(deck).len() - k),
            hand@ == exchanged(old(hand)@, old(deck)@, numbers@.take(k as int)),
        decreases numbers.len() - k,
    {
        let number = numbers[k];
        let card = deck.pop().unwrap();
        hand[number - 1] = card;
        proof {
            let done = numbers@.take(k as int + 1);
            assert(done.drop_last() =~= numbers@.take(k as int));
            assert(done.last() == number);
        }
        k += 1;
    }
    assert(numbers@.take(k as int) =~= numbers@);
}

/// Whether all cards are of the suit of the first.
pub open spec fn spec_is_flush(hand: Seq<Card>) -> bool {
    forall|i: int| 0 <= i < hand.len() ==> (#[trigger] hand[i]).suit == hand[0].suit
}

/// Whether all cards of the hand are of one suit.
pub fn is_flush(hand: &Vec<Card>) -> (flush: bool)
    requires
        hand.len() > 0,
    ensures
        flush == spec_is_flush(hand@),
{
    let suit = hand[0].suit;
    let mut i: usize = 0;
    while i < hand.len()
        invariant
            i <= hand.len(),
            hand.len() > 0,
            suit == hand[0].suit,
            forall|k: int| 0 <= k < i ==> (#[trigger] hand[k]).suit == suit,
        decreases hand.len() - i,
    {
        if hand[i].suit != suit {
            return false;
        }
        i += 1;
    }
    true
}

/// How many of `cards` have the rank `rank`.
pub open spec fn occurrences(cards: Seq<Card>, rank: i32) -> nat
    decreases cards.len(),
{
    if cards.len() == 0 {
        0
    } else {
        occurrences(cards.drop_last(), rank) + if cards.last().rank == rank {
            1nat
        } else {
            0nat
        }
    }
}

/// How many pairs of equal rank the first `upto` cards form with cards that
/// come after them in the hand.
pub open spec fn pairs_among(hand: Seq<Card>, upto: int) -> nat
    decreases upto,
{
    if upto <= 0 {
        0
    } else {
        pairs_among(hand, upto - 1) + occurrences(
            hand.subrange(upto, hand.len() as int),
            hand[upto - 1].rank,
        )
    }
}

/// How many pairs of cards of equal rank can be picked from the hand.
pub open spec fn pairs(hand: Seq<Card>) -> nat {
    pairs_among(hand, hand.len() as int)
}

/// There are no more cards of a rank than cards.
pub proof fn lemma_occurrences_bound(cards: Seq<Card>, rank: i32)
    ensures
        occurrences(cards, rank) <= cards.len(),
    decreases cards.len(),
{
    if cards.len() > 0 {
        lemma_occurrences_bound(cards.drop_last(), rank);
    }
}

/// Each of the first `upto` cards is in a pair with fewer cards than the
/// hand holds.
pub proof fn lemma_pairs_bound(hand: Seq<Card>, upto: int)
    requires
        0 <= upto <= hand.len(),
    ensures
        pairs_among(hand, upto) <= upto * hand.len(),
    decreases upto,
{
    if upto > 0 {
        lemma_pairs_bound(hand, upto - 1);
        lemma_occurrences_bound(hand.subrange(upto, hand.len() as int), hand[upto - 1].rank);
        assert(upto * hand.len() == (upto - 1) * hand.len() + hand.len()) by (nonlinear_arith);
    }
}

/// Counts the pairs of cards of equal rank in the hand.
pub fn count_pairs(hand: &Vec<Card>) -> (count: u64)
    requires
        0 < hand.len() <= MAX_COUNTED,
    ensures
        count == pairs(hand@),
{
    let n = hand.len();
    let mut count: u64 = 0;
    let mut i: usize = 0;
    while i < n - 1
        invariant
            n == hand.len(),
            0 < n <= MAX_COUNTED,
            i <= n - 1,
            count == pairs_among(hand@, i as int),
        decreases n - i,
    {
        let mut j: usize = i + 1;
        let mut found: u64 = 0;
        assert(hand@.subrange(i as int + 1, j as int) =~= Seq::<Card>::empty());
        while j < n
            invariant
                n == hand.len(),
                i + 1 <= j <= n,
                found == occurrences(hand@.subrange(i as int + 1, j as int), hand[i as int].rank),
                found <= j - i - 1,
            decreases n - j,
        {
            assert(hand@.subrange(i as int + 1, j as int + 1).drop_last() =~= hand@.subrange(
                i as int + 1,
                j as int,
            ));
            if hand[i].rank == hand[j].rank {
                found += 1;
            }
            j += 1;
        }
        proof {
            lemma_pairs_bound(hand@, i as int);
            assert(i * n <= 65536 * 65536) by (nonlinear_arith)
                requires
                    0 <= i < n <= 65536,
            ;
        }
        count += found;
        i += 1;
    }
    proof {
        assert(hand@.subrange(n as int, n as int) =~= Seq::<Card>::empty());
        assert(pairs_among(hand@, n as int) == pairs_among(hand@, n - 1));
    }
    count
}

/// What a hand with or without a flush and with so many pairs is worth.
pub open spec fn spec_judge(flush: bool, pairs: nat) -> Hand {
    if flush {
        Hand::Flush
    } else if pairs >= 3 {
        Hand::ThreeCards
    } else if pairs == 2 {
        Hand::TwoPair
    } else if pairs == 1 {
        Hand::OnePair
    } else {
        Hand::NoPair
    }
}

/// Tells what a hand is worth. A flush beats everything; else the pairs
/// decide.
pub fn judge(hand: &Vec<Card>) -> (worth: Hand)
    requires
        0 < hand.len() <= MAX_COUNTED,
    ensures
        worth == spec_judge(spec_is_flush(hand@), pairs(hand@)),
{
    let flush = is_flush(hand);
    let count = count_pairs(hand);
    if flush {
        Hand::Flush
    } else if count >= 3 {
        Hand::ThreeCards
    } else if count == 2 {
        Hand::TwoPair
    } else if count == 1 {
        Hand::OnePair
    } else {
        Hand::NoPair
    }
}

} // verus!

//! Types that represent a deck of cards.
//!
//! There is nothing specific to any particular card game in this module; it
//! models the deck itself: ranks, suits, cards, ordered and shuffled deck
//! construction, drawing from the top, and dealing cards round-robin into
//! hands.

use rand::seq::SliceRandom;
use vstd::prelude::*;

verus! {

use vstd::string::StringExecFns;

/// A card's suit.
#[derive(Debug, PartialEq, Eq, Structural, Clone, Copy)]
pub enum Suit {
    Clubs,
    Diamonds,
    Hearts,
    Spades,
}

/// Position of a suit in the canonical enumeration order.
pub open spec fn suit_index(s: Suit) -> int {
    match s {
        Suit::Clubs => 0,
        Suit::Diamonds => 1,
        Suit::Hearts => 2,
        Suit::Spades => 3,
    }
}

/// The suit at a position of the canonical enumeration order.
pub open spec fn suit_at(i: int) -> Suit {
    if i == 0 {
        Suit::Clubs
    } else if i == 1 {
        Suit::Diamonds
    } else if i == 2 {
        Suit::Hearts
    } else {
        Suit::Spades
    }
}

/// The one-character display symbol of a suit.
pub open spec fn suit_symbol_spec(s: Suit) -> Seq<char> {
    match s {
        Suit::Clubs => seq!['\u{2663}'],
        Suit::Diamonds => seq!['\u{2666}'],
        Suit::Hearts => seq!['\u{2665}'],
        Suit::Spades => seq!['\u{2660}'],
    }
}

impl Suit {
    /// Returns a single-character symbol associated with the suit.
    pub fn symbol(self) -> (r: &'static str)
        ensures
            r@ == suit_symbol_spec(self),
    {
        match self {
            Suit::Clubs => {
                let r = "\u{2663}";
                proof {
                    reveal_strlit("\u{2663}");
                    assert(r@ =~= suit_symbol_spec(Suit::Clubs));
                }
                r
            },
            Suit::Diamonds => {
                let r = "\u{2666}";
                proof {
                    reveal_strlit("\u{2666}");
                    assert(r@ =~= suit_symbol_spec(Suit::Diamonds));
                }
                r
            },
            Suit::Hearts => {
                let r = "\u{2665}";
                proof {
                    reveal_strlit("\u{2665}");
                    assert(r@ =~= suit_symbol_spec(Suit::Hearts));
                }
                r
            },
            Suit::Spades => {
                let r = "\u{2660}";
                proof {
                    reveal_strlit("\u{2660}");
                    assert(r@ =~= suit_symbol_spec(Suit::Spades));
                }
                r
            },
        }
    }
}

/// A card's rank, ordered ace-high: `Two` is lowest, `Ace` is highest.
#[derive(Debug, PartialOrd, Ord, PartialEq, Eq, Structural, Clone, Copy)]
pub enum Rank {
    Two,
    Three,
    Four,
    Five,
    Six,
    Seven,
    Eight,
    Nine,
    Ten,
    Jack,
    Queen,
    King,
    Ace,
}

/// Position of a rank in the canonical enumeration order (ace-high).
pub open spec fn rank_index(r: Rank) -> int {
    match r {
        Rank::Two => 0,
        Rank::Three => 1,
        Rank::Four => 2,
        Rank::Five => 3,
        Rank::Six => 4,
        Rank::Seven => 5,
        Rank::Eight => 6,
        Rank::Nine => 7,
        Rank::Ten => 8,
        Rank::Jack => 9,
        Rank::Queen => 10,
        Rank::King => 11,
        Rank::Ace => 12,
    }
}

/// The rank at a position of the canonical enumeration order.
pub open spec fn rank_at(i: int) -> Rank {
    if i == 0 {
        Rank::Two
    } else if i == 1 {
        Rank::Three
    } else if i == 2 {
        Rank::Four
    } else if i == 3 {
        Rank::Five
    } else if i == 4 {
        Rank::Six
    } else if i == 5 {
        Rank::Seven
    } else if i == 6 {
        Rank::Eight
    } else if i == 7 {
        Rank::Nine
    } else if i == 8 {
        Rank::Ten
    } else if i == 9 {
        Rank::Jack
    } else if i == 10 {
        Rank::Queen
    } else if i == 11 {
        Rank::King
    } else {
        Rank::Ace
    }
}

/// The one-character display symbol of a rank.
pub open spec fn rank_symbol_spec(r: Rank) -> Seq<char> {
    match r {
        Rank::Two => seq!['2'],
        Rank::Three => seq!['3'],
        Rank::Four => seq!['4'],
        Rank::Five => seq!['5'],
        Rank::Six => seq!['6'],
        Rank::Seven => seq!['7'],
        Rank::Eight => seq!['8'],
        Rank::Nine => seq!['9'],
        Rank::Ten => seq!['T'],
        Rank::Jack => seq!['J'],
        Rank::Queen => seq!['Q'],
        Rank::King => seq!['K'],
        Rank::Ace => seq!['A'],
    }
}

impl Rank {
    /// Returns a single-character symbol for the rank.
    pub fn symbol(self) -> (r: &'static str)
        ensures
            r@ == rank_symbol_spec(self),
    {
        match self {
            Rank::Two => {
                let r = "2";
                proof {
                    reveal_strlit("2");
                    assert(r@ =~= rank_symbol_spec(Rank::Two));
                }
                r
            },
            Rank::Three => {
                let r = "3";
                proof {
                    reveal_strlit("3");
                    assert(r@ =~= rank_symbol_spec(Rank::Three));
                }
                r
            },
            Rank::Four => {
                let r = "4";
                proof {
                    reveal_strlit("4");
                    assert(r@ =~= rank_symbol_spec(Rank::Four));
                }
                r
            },
            Rank::Five => {
                let r = "5";
                proof {
                    reveal_strlit("5");
                    assert(r@ =~= rank_symbol_spec(Rank::Five));
                }
                r
            },
            Rank::Six => {
                let r = "6";
                proof {
                    reveal_strlit("6");
                    assert(r@ =~= rank_symbol_spec(Rank::Six));
                }
                r
            },
            Rank::Seven => {
                let r = "7";
                proof {
                    reveal_strlit("7");
                    assert(r@ =~= rank_symbol_spec(Rank::Seven));
                }
                r
            },
            Rank::Eight => {
                let r = "8";
                proof {
                    reveal_strlit("8");
                    assert(r@ =~= rank_symbol_spec(Rank::Eight));
                }
                r
            },
            Rank::Nine => {
                let r = "9";
                proof {
                    reveal_strlit("9");
                    assert(r@ =~= rank_symbol_spec(Rank::Nine));
                }
                r
            },
            Rank::Ten => {
                let r = "T";
                proof {
                    reveal_strlit("T");
                    assert(r@ =~= rank_symbol_spec(Rank::Ten));
                }
                r
            },
            Rank::Jack => {
                let r = "J";
                proof {
                    reveal_strlit("J");
                    assert(r@ =~= rank_symbol_spec(Rank::Jack));
                }
                r
            },
            Rank::Queen => {
                let r = "Q";
                proof {
                    reveal_strlit("Q");
                    assert(r@ =~= rank_symbol_spec(Rank::Queen));
                }
                r
            },
            Rank::King => {
                let r = "K";
                proof {
                    reveal_strlit("K");
                    assert(r@ =~= rank_symbol_spec(Rank::King));
                }
                r
            },
            Rank::Ace => {
                let r = "A";
                proof {
                    reveal_strlit("A");
                    assert(r@ =~= rank_symbol_spec(Rank::Ace));
                }
                r
            },
        }
    }
}

/// A playing card, with a rank and suit.
#[derive(Debug, PartialEq, Eq, Structural, Clone, Copy)]
pub struct Card {
    pub rank: Rank,
    pub suit: Suit,
}

/// The two-character display text of a card: rank symbol then suit symbol.
pub open spec fn card_text(c: Card) -> Seq<char> {
    rank_symbol_spec(c.rank) + suit_symbol_spec(c.suit)
}

impl Card {
    /// Returns the card's `Rank`.
    pub fn rank(self) -> (r: Rank)
        ensures
            r == self.rank,
    {
        self.rank
    }

    /// Returns the card's `Suit`.
    pub fn suit(self) -> (s: Suit)
        ensures
            s == self.suit,
    {
        self.suit
    }
}

/// Creates a `Card` with the specified rank and suit.
pub fn card(rank: Rank, suit: Suit) -> (c: Card)
    ensures
        c.rank == rank,
        c.suit == suit,
{
    Card { rank, suit }
}

impl Card {
    /// Returns the display text of the card: its rank symbol immediately
    /// followed by its suit symbol, with no separator.
    pub fn format(self) -> (s: String)
        ensures
            s@ == card_text(self),
    {
        proof {
            broadcast use vstd::string::to_string_from_display_ensures_for_str;
        }
        let r = self.rank.symbol().to_string();
        r.concat(self.suit.symbol())
    }
}

/// A `Hand` is an ordered, growable collection of cards held by a player.
#[derive(Debug)]
pub struct Hand {
    cards: Vec<Card>,
}

impl View for Hand {
    type V = Seq<Card>;

    closed spec fn view(&self) -> Seq<Card> {
        self.cards@
    }
}

impl Default for Hand {
    /// Returns an empty hand.
    fn default() -> (hand: Self)
        ensures
            hand@ == Seq::<Card>::empty(),
    {
        Hand { cards: Vec::new() }
    }
}

impl Hand {
    /// Returns the count of cards in the hand.
    pub fn len(&self) -> (n: usize)
        ensures
            n == self@.len(),
    {
        self.cards.len()
    }

    /// Returns `true` if the hand contains no cards.
    pub fn is_empty(&self) -> (b: bool)
        ensures
            b == (self@.len() == 0),
    {
        self.cards.len() == 0
    }

    /// Adds a card to the hand.
    pub fn push(&mut self, card: Card)
        ensures
            final(self)@ == old(self)@.push(card),
    {
        self.cards.push(card);
    }

    /// Read-only access to the card at position `i`.
    pub fn peek(&self, i: usize) -> (c: Card)
        requires
            i < self@.len(),
        ensures
            c == self@[i as int],
    {
        self.cards[i]
    }
}

/// The canonical ordered deck: for each suit in enumeration order, the
/// thirteen ranks in enumeration order, bottom-to-top.
pub open spec fn ordered_deck() -> Seq<Card> {
    Seq::new(52, |i: int| Card { rank: rank_at(i % 13), suit: suit_at(i / 13) })
}

/// A collection of cards.
///
/// The cards are ordered from the bottom to the top of the deck, so drawing a
/// card takes one off the end.
#[derive(Debug)]
pub struct Deck {
    cards: Vec<Card>,
}

impl View for Deck {
    type V = Seq<Card>;

    closed spec fn view(&self) -> Seq<Card> {
        self.cards@
    }
}

/// The rank at a position of the canonical enumeration order.
fn rank_from_index(i: usize) -> (r: Rank)
    requires
        i < 13,
    ensures
        r == rank_at(i as int),
{
    if i == 0 {
        Rank::Two
    } else if i == 1 {
        Rank::Three
    } else if i == 2 {
        Rank::Four
    } else if i == 3 {
        Rank::Five
    } else if i == 4 {
        Rank::Six
    } else if i == 5 {
        Rank::Seven
    } else if i == 6 {
        Rank::Eight
    } else if i == 7 {
        Rank::Nine
    } else if i == 8 {
        Rank::Ten
    } else if i == 9 {
        Rank::Jack
    } else if i == 10 {
        Rank::Queen
    } else if i == 11 {
        Rank::King
    } else {
        Rank::Ace
    }
}

/// The suit at a position of the canonical enumeration order.
fn suit_from_index(i: usize) -> (s: Suit)
    requires
        i < 4,
    ensures
        s == suit_at(i as int),
{
    if i == 0 {
        Suit::Clubs
    } else if i == 1 {
        Suit::Diamonds
    } else if i == 2 {
        Suit::Hearts
    } else {
        Suit::Spades
    }
}

impl Default for Deck {
    /// Returns the canonical ordered deck of 52 cards.
    fn default() -> (deck: Self)
        ensures
            deck@ == ordered_deck(),
    {
        let mut cards: Vec<Card> = Vec::new();
        let mut si: usize = 0;
        while si < 4
            invariant
                si <= 4,
                cards@ == ordered_deck().take(13 * si as int),
            decreases 4 - si,
        {
            let mut ri: usize = 0;
            while ri < 13
                invariant
                    si < 4,
                    ri <= 13,
                    cards@ == ordered_deck().take(13 * si as int + ri as int),
                decreases 13 - ri,
            {
                let c = card(rank_from_index(ri), suit_from_index(si));
                cards.push(c);
                proof {
                    let k = 13 * si as int + ri as int;
                    assert(k / 13 == si as int && k % 13 == ri as int) by (nonlinear_arith)
                        requires
                            0 <= ri < 13,
                            0 <= si,
                            k == 13 * si as int + ri as int,
                    ;
                    assert(ordered_deck()[k] == c);
                    assert(cards@ =~= ordered_deck().take(k + 1));
                }
                ri = ri + 1;
            }
            si = si + 1;
        }
        proof {
            assert(cards@ =~= ordered_deck());
        }
        Deck { cards }
    }
}

/// Relies on `rand::seq::SliceRandom::shuffle` with `rand::thread_rng`: a
/// Fisher-Yates shuffle that permutes the slice in place by swaps, so the
/// vector afterwards holds exactly the same cards, in some order.
#[verifier::external_body]
fn shuffle_cards(cards: &mut Vec<Card>)
    ensures
        final(cards)@.to_multiset() == old(cards)@.to_multiset(),
        final(cards)@.len() == old(cards)@.len(),
{
    cards.shuffle(&mut rand::thread_rng());
}

impl Deck {
    /// Returns a shuffled deck of 52 cards: the canonical deck in some order.
    pub fn shuffled() -> (deck: Deck)
        ensures
            deck@.len() == 52,
            deck@.to_multiset() == ordered_deck().to_multiset(),
    {
        let mut deck = Deck::default();
        deck.shuffle();
        deck
    }

    /// Shuffles the cards currently in the deck: afterwards the deck holds
    /// exactly the same cards, in some order.
    pub fn shuffle(&mut self)
        ensures
            final(self)@.to_multiset() == old(self)@.to_multiset(),
            final(self)@.len() == old(self)@.len(),
    {
        shuffle_cards(&mut self.cards);
    }

    /// Returns the count of cards remaining in the deck.
    pub fn len(&self) -> (n: usize)
        ensures
            n == self@.len(),
    {
        self.cards.len()
    }

    /// Returns `true` if the deck contains no cards.
    pub fn is_empty(&self) -> (b: bool)
        ensures
            b == (self@.len() == 0),
    {
        self.cards.len() == 0
    }

    /// Removes the top card from the deck and returns it, or `None` if no
    /// cards remain. Drawing from an empty deck is never fatal; a successful
    /// draw removes exactly the last card, so the drawn card and the remaining
    /// cards together are exactly the cards the deck held before.
    pub fn pop(&mut self) -> (c: Option<Card>)
        ensures
            old(self)@.len() == 0 ==> c == None::<Card> && final(self)@ == old(self)@,
            old(self)@.len() > 0 ==> c == Some(old(self)@.last())
                && final(self)@ == old(self)@.drop_last()
                && old(self)@.to_multiset() == final(self)@.to_multiset().insert(old(self)@.last()),
    {
        let c = self.cards.pop();
        proof {
            broadcast use vstd::seq_lib::group_to_multiset_ensures;
            if old(self)@.len() > 0 {
                assert(old(self)@ =~= self@.push(old(self)@.last()));
                assert(old(self)@.to_multiset() =~= self@.to_multiset().insert(old(self)@.last()));
            }
        }
        c
    }

    /// Read-only access to the card at position `i` without removing it.
    pub fn peek(&self, i: usize) -> (c: Card)
        requires
            i < self@.len(),
        ensures
            c == self@[i as int],
    {
        self.cards[i]
    }

    /// Deals the specified number of hands from the deck.
    ///
    /// Creates `hand_count` empty hands, then for `cards_per_hand` rounds
    /// draws one card from the top of the deck for each hand in turn, so the
    /// cards are distributed round-robin: the deck's top card goes to hand 0,
    /// the next to hand 1, and so on. The deck must hold at least
    /// `hand_count * cards_per_hand` cards.
    #[verifier::loop_isolation(false)]
    pub fn deal_hands(&mut self, hand_count: u32, cards_per_hand: u32) -> (hands: Vec<Hand>)
        requires
            (hand_count as int) * (cards_per_hand as int) <= old(self)@.len(),
        ensures
            hands@.len() == hand_count as int,
            final(self)@ == old(self)@.take(
                old(self)@.len() - (hand_count as int) * (cards_per_hand as int),
            ),
            forall|j: int|
                0 <= j < hand_count as int ==> (#[trigger] hands@[j])@.len()
                    == cards_per_hand as int,
            forall|j: int, m: int|
                0 <= j < hand_count as int && 0 <= m < cards_per_hand as int
                    ==> (#[trigger] hands@[j]@[m]) == old(self)@[old(self)@.len() - 1 - (m
                    * hand_count as int + j)],
    {
        let ghost orig = old(self)@;
        let ghost hc = hand_count as int;
        let ghost cph = cards_per_hand as int;
        let mut hands: Vec<Hand> = Vec::new();
        let mut i: u32 = 0;
        while i < hand_count
            invariant
                i <= hand_count,
                hands@.len() == i as int,
                forall|j: int| 0 <= j < i as int ==> (#[trigger] hands@[j])@.len() == 0,
            decreases hand_count - i,
        {
            hands.push(Hand::default());
            i = i + 1;
        }

        let mut k: u32 = 0;
        while k < cards_per_hand
            invariant
                k <= cards_per_hand,
                hands@.len() == hc,
                self@ == orig.take(orig.len() - (k as int) * hc),
                forall|j: int|
                    0 <= j < hc ==> (#[trigger] hands@[j])@.len() == k as int,
                forall|j: int, m: int|
                    0 <= j < hc && 0 <= m < k as int ==> (#[trigger] hands@[j]@[m]) == orig[
                        orig.len() - 1 - (m * hc + j)],
            decreases cards_per_hand - k,
        {
            let mut h: u32 = 0;
            while h < hand_count
                invariant
                    k < cards_per_hand,
                    h <= hand_count,
                    hands@.len() == hc,
                    self@ == orig.take(orig.len() - ((k as int) * hc + (h as int))),
                    forall|j: int|
                        0 <= j < hc ==> (#[trigger] hands@[j])@.len()
                            == (if j < h as int { k as int + 1 } else { k as int }),
                    forall|j: int, m: int|
                        0 <= j < hc && 0 <= m < (if j < h as int { k as int + 1 } else { k as int })
                            ==> (#[trigger] hands@[j]@[m]) == orig[orig.len() - 1 - (m * hc + j)],
                decreases hand_count - h,
            {
                proof {
                    assert((k as int) * hc + (h as int) < orig.len()) by (nonlinear_arith)
                        requires
                            0 <= (k as int) < cph,
                            0 <= (h as int) < hc,
                            hc * cph <= orig.len(),
                    ;
                }
                let c = match self.pop() {
                    Some(c) => c,
                    None => {
                        proof {
                            assert(false);
                        }
                        card(Rank::Two, Suit::Clubs)
                    },
                };
                let ghost t = (k as int) * hc + (h as int);
                proof {
                    assert(c == orig[orig.len() - 1 - t]);
                    assert(self@ =~= orig.take(orig.len() - (t + 1)));
                }
                let hand = hand_at_mut(&mut hands, h as usize);
                hand.push(c);
                proof {
                    assert(hands@[h as int]@[k as int] == orig[orig.len() - 1 - ((k as int) * hc
                        + (h as int))]);
                }
                h = h + 1;
            }
            proof {
                assert((k as int + 1) * hc == (k as int) * hc + hc) by (nonlinear_arith);
            }
            k = k + 1;
        }
        proof {
            assert(cph * hc == hc * cph) by (nonlinear_arith);
        }
        hands
    }
}

/// Returns a mutable reference to the hand at position `i`.
fn hand_at_mut(hands: &mut Vec<Hand>, i: usize) -> (hand: &mut Hand)
    requires
        i < old(hands)@.len(),
    ensures
        *hand == old(hands)@[i as int],
        final(hands)@ == old(hands)@.update(i as int, *final(hand)),
{
    &mut hands[i]
}

/// Every rank and every suit has a fixed, non-empty, one-character display
/// symbol.
pub proof fn lemma_symbols_single_char()
    ensures
        forall|s: Suit| (#[trigger] suit_symbol_spec(s)).len() == 1,
        forall|r: Rank| (#[trigger] rank_symbol_spec(r)).len() == 1,
{
    assert forall|s: Suit| (#[trigger] suit_symbol_spec(s)).len() == 1 by {
        match s {
            Suit::Clubs => assert(suit_symbol_spec(s).len() == 1),
            Suit::Diamonds => assert(suit_symbol_spec(s).len() == 1),
            Suit::Hearts => assert(suit_symbol_spec(s).len() == 1),
            Suit::Spades => assert(suit_symbol_spec(s).len() == 1),
        }
    };
    assert forall|r: Rank| (#[trigger] rank_symbol_spec(r)).len() == 1 by {
        match r {
            Rank::Two => assert(rank_symbol_spec(r).len() == 1),
            Rank::Three => assert(rank_symbol_spec(r).len() == 1),
            Rank::Four => assert(rank_symbol_spec(r).len() == 1),
            Rank::Five => assert(rank_symbol_spec(r).len() == 1),
            Rank::Six => assert(rank_symbol_spec(r).len() == 1),
            Rank::Seven => assert(rank_symbol_spec(r).len() == 1),
            Rank::Eight => assert(rank_symbol_spec(r).len() == 1),
            Rank::Nine => assert(rank_symbol_spec(r).len() == 1),
            Rank::Ten => assert(rank_symbol_spec(r).len() == 1),
            Rank::Jack => assert(rank_symbol_spec(r).len() == 1),
            Rank::Queen => assert(rank_symbol_spec(r).len() == 1),
            Rank::King => assert(rank_symbol_spec(r).len() == 1),
            Rank::Ace => assert(rank_symbol_spec(r).len() == 1),
        }
    };
}

/// The canonical ordered deck holds exactly 52 cards, and every card value —
/// each pairing of one of the 13 ranks with one of the 4 suits — appears in
/// it exactly once.
pub proof fn lemma_ordered_deck_full()
    ensures
        ordered_deck().len() == 52,
        forall|c: Card| #[trigger] ordered_deck().to_multiset().count(c) == 1,
{
    broadcast use vstd::seq_lib::group_to_multiset_ensures;

    let d = ordered_deck();
    assert forall|i: int, j: int| 0 <= i < 52 && 0 <= j < 52 && i != j implies d[i] != d[j] by {
        assert(i == 13 * (i / 13) + i % 13);
        assert(j == 13 * (j / 13) + j % 13);
        if i / 13 == j / 13 {
            assert(rank_at(i % 13) != rank_at(j % 13));
        } else {
            assert(suit_at(i / 13) != suit_at(j / 13));
        }
    };
    assert(d.no_duplicates());
    d.lemma_multiset_has_no_duplicates();
    assert forall|c: Card| d.contains(c) by {
        let i = suit_index(c.suit) * 13 + rank_index(c.rank);
        assert(i / 13 == suit_index(c.suit) && i % 13 == rank_index(c.rank)) by (nonlinear_arith)
            requires
                0 <= rank_index(c.rank) < 13,
                0 <= suit_index(c.suit) < 4,
                i == suit_index(c.suit) * 13 + rank_index(c.rank),
        ;
        assert(rank_at(rank_index(c.rank)) == c.rank);
        assert(suit_at(suit_index(c.suit)) == c.suit);
        assert(d[i] == c);
    };
}

/// Draw partition: after `n` successful draws from a deck, the drawn cards
/// (the deck's last `n`, in draw order) and the cards still in the deck
/// together carry exactly the cards of the original deck — none lost, none
/// duplicated, none shared between the two parts — and the deck keeps exactly
/// its original length minus `n`.
pub proof fn lemma_draw_partition(deck: Seq<Card>, n: int)
    requires
        0 <= n <= deck.len(),
    ensures
        deck.take(deck.len() - n).to_multiset().add(
            deck.skip(deck.len() - n).reverse().to_multiset(),
        ) == deck.to_multiset(),
        deck.take(deck.len() - n).len() == deck.len() - n,
{
    let m = deck.len() - n;
    let rest = deck.take(m);
    let drawn = deck.skip(m);
    drawn.lemma_reverse_to_multiset();
    assert(deck =~= rest + drawn);
    vstd::seq_lib::lemma_multiset_commutative(rest, drawn);
}

} // verus!

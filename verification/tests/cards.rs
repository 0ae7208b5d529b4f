use blackjack::cards::card;
use blackjack::cards::Card;
use blackjack::cards::Deck;
use blackjack::cards::Hand;
use blackjack::cards::Rank::Ace;
use blackjack::cards::Rank::Eight;
use blackjack::cards::Rank::Five;
use blackjack::cards::Rank::Four;
use blackjack::cards::Rank::Jack;
use blackjack::cards::Rank::King;
use blackjack::cards::Rank::Nine;
use blackjack::cards::Rank::Queen;
use blackjack::cards::Rank::Seven;
use blackjack::cards::Rank::Six;
use blackjack::cards::Rank::Ten;
use blackjack::cards::Rank::Three;
use blackjack::cards::Rank::Two;
use blackjack::cards::Suit::Clubs;
use blackjack::cards::Suit::Diamonds;
use blackjack::cards::Suit::Hearts;
use blackjack::cards::Suit::Spades;

#[test]
fn card_format() {
    assert_eq!(card(Ace, Clubs).format(), "A♣");
    assert_eq!(card(Two, Hearts).format(), "2♥");
    assert_eq!(card(Three, Diamonds).format(), "3♦");
    assert_eq!(card(Nine, Spades).format(), "9♠");
    assert_eq!(card(Ten, Clubs).format(), "T♣");
    assert_eq!(card(Jack, Hearts).format(), "J♥");
    assert_eq!(card(Queen, Diamonds).format(), "Q♦");
    assert_eq!(card(King, Spades).format(), "K♠");

    assert_eq!(
        format!("{:?}", card(Ace, Spades)),
        "Card { rank: Ace, suit: Spades }"
    );
}

#[test]
fn symbols() {
    assert_eq!(Clubs.symbol(), "♣");
    assert_eq!(Diamonds.symbol(), "♦");
    assert_eq!(Hearts.symbol(), "♥");
    assert_eq!(Spades.symbol(), "♠");

    assert_eq!(Two.symbol(), "2");
    assert_eq!(Three.symbol(), "3");
    assert_eq!(Four.symbol(), "4");
    assert_eq!(Five.symbol(), "5");
    assert_eq!(Six.symbol(), "6");
    assert_eq!(Seven.symbol(), "7");
    assert_eq!(Eight.symbol(), "8");
    assert_eq!(Nine.symbol(), "9");
    assert_eq!(Ten.symbol(), "T");
    assert_eq!(Jack.symbol(), "J");
    assert_eq!(Queen.symbol(), "Q");
    assert_eq!(King.symbol(), "K");

    for s in [Clubs, Diamonds, Hearts, Spades] {
        assert_eq!(s.symbol().chars().count(), 1);
    }
    for r in [
        Two, Three, Four, Five, Six, Seven, Eight, Nine, Ten, Jack, Queen, King, Ace,
    ] {
        assert_eq!(r.symbol().chars().count(), 1);
    }
}

#[test]
fn card_accessors() {
    let ace_of_spades = card(Ace, Spades);
    assert_eq!(ace_of_spades.rank(), Ace);
    assert_eq!(ace_of_spades.suit(), Spades);

    let two_of_diamonds = card(Two, Diamonds);
    assert_eq!(two_of_diamonds.rank(), Two);
    assert_eq!(two_of_diamonds.suit(), Diamonds);
}

fn all_cards() -> Vec<Card> {
    let mut cards = vec![];
    for s in [Clubs, Diamonds, Hearts, Spades] {
        for r in [
            Two, Three, Four, Five, Six, Seven, Eight, Nine, Ten, Jack, Queen, King, Ace,
        ] {
            cards.push(card(r, s));
        }
    }
    cards
}

#[test]
fn ordered_deck_contents() {
    let deck = Deck::default();
    assert_eq!(deck.len(), 52);
    assert!(!deck.is_empty());
    assert_eq!(deck.peek(0), card(Two, Clubs));
    assert_eq!(deck.peek(1), card(Three, Clubs));
    assert_eq!(deck.peek(12), card(Ace, Clubs));
    assert_eq!(deck.peek(13), card(Two, Diamonds));
    assert_eq!(deck.peek(50), card(King, Spades));
    assert_eq!(deck.peek(51), card(Ace, Spades));

    // Every one of the 52 rank-suit pairings appears exactly once.
    for c in all_cards() {
        let mut count = 0;
        for i in 0..deck.len() {
            if deck.peek(i) == c {
                count += 1;
            }
        }
        assert_eq!(count, 1);
    }
}

#[test]
fn shuffled_deck_is_permutation() {
    let deck = Deck::shuffled();
    assert_eq!(deck.len(), 52);
    for c in all_cards() {
        let mut count = 0;
        for i in 0..deck.len() {
            if deck.peek(i) == c {
                count += 1;
            }
        }
        assert_eq!(count, 1);
    }
}

#[test]
fn shuffling_twice_changes_order() {
    // Two independent shuffles agree on all 52 positions only with
    // probability 1/52!, so this never fails in practice.
    let first = Deck::shuffled();
    let second = Deck::shuffled();
    let mut same = true;
    for i in 0..52 {
        if first.peek(i) != second.peek(i) {
            same = false;
        }
    }
    assert!(!same);
}

#[test]
fn shuffle_keeps_remaining_cards() {
    let mut deck = Deck::default();
    for _ in 0..10 {
        deck.pop();
    }
    let mut before = vec![];
    for i in 0..deck.len() {
        before.push(deck.peek(i));
    }
    deck.shuffle();
    assert_eq!(deck.len(), 42);
    for c in before {
        let mut count = 0;
        for i in 0..deck.len() {
            if deck.peek(i) == c {
                count += 1;
            }
        }
        assert_eq!(count, 1);
    }
}

#[test]
fn draw_invariant() {
    let mut deck = Deck::default();
    let mut drawn = vec![];
    for n in 1..=10 {
        let c = deck.pop();
        assert!(c.is_some());
        drawn.push(c.unwrap());
        assert_eq!(deck.len(), 52 - n);
    }
    // The drawn cards and the remaining cards partition the original 52.
    for c in all_cards() {
        let mut count = 0;
        for d in &drawn {
            if *d == c {
                count += 1;
            }
        }
        for i in 0..deck.len() {
            if deck.peek(i) == c {
                count += 1;
            }
        }
        assert_eq!(count, 1);
    }
}

#[test]
fn pop_on_empty_deck_returns_none() {
    let mut deck = Deck::default();
    for _ in 1..=52 {
        assert!(deck.pop().is_some());
    }
    assert!(deck.is_empty());
    assert_eq!(deck.pop(), None);
    assert_eq!(deck.len(), 0);
}

#[test]
fn deal_three_hands_of_two() {
    let mut deck = Deck::default();
    let hands = deck.deal_hands(3, 2);

    assert_eq!(hands.len(), 3);
    assert_eq!(deck.len(), 46);

    // Round-robin: top card to hand 0, next to hand 1, next to hand 2, then
    // the second round.
    assert_eq!(hands[0].len(), 2);
    assert_eq!(hands[0].peek(0), card(Ace, Spades));
    assert_eq!(hands[0].peek(1), card(Jack, Spades));

    assert_eq!(hands[1].len(), 2);
    assert_eq!(hands[1].peek(0), card(King, Spades));
    assert_eq!(hands[1].peek(1), card(Ten, Spades));

    assert_eq!(hands[2].len(), 2);
    assert_eq!(hands[2].peek(0), card(Queen, Spades));
    assert_eq!(hands[2].peek(1), card(Nine, Spades));
}

#[test]
fn hand_push_and_peek() {
    let mut hand = Hand::default();
    assert!(hand.is_empty());
    assert_eq!(hand.len(), 0);
    hand.push(card(Queen, Hearts));
    hand.push(card(Seven, Clubs));
    assert!(!hand.is_empty());
    assert_eq!(hand.len(), 2);
    assert_eq!(hand.peek(0), card(Queen, Hearts));
    assert_eq!(hand.peek(1), card(Seven, Clubs));
}

#[test]
fn ace_high_top_of_ordered_deck() {
    // This deck orders ranks ace-high, so the top of a fresh ordered deck is
    // the Ace of Spades, then the King of Spades.
    let mut deck = Deck::default();
    assert_eq!(deck.peek(51), card(Ace, Spades));
    assert_eq!(deck.pop(), Some(card(Ace, Spades)));
    assert_eq!(deck.pop(), Some(card(King, Spades)));
    assert_eq!(deck.len(), 50);
}

use threes::deck::{bonus_cards, Deck};

#[test]
fn bonus_cards_returns_none_if_high_card_less_than_48() {
    assert_eq!(None, bonus_cards(24));
}

#[test]
fn bonus_cards_returns_6_when_highcard_is_48() {
    assert_eq!(&[6], &(bonus_cards(48).unwrap())[..]);
}

#[test]
fn bonus_cards_returns_6_and_12_when_highcard_is_96() {
    assert_eq!(&[12, 6], &(bonus_cards(96).unwrap())[..]);
}

#[test]
fn bonus_cards_returns_three_cards_when_high_card_is_high_enough() {
    assert_eq!(&[48, 24, 12], &(bonus_cards(384).unwrap())[..]);
    assert_eq!(&[96, 48, 24], &(bonus_cards(768).unwrap())[..]);
    assert_eq!(&[192, 96, 48], &(bonus_cards(1536).unwrap())[..]);
}

#[test]
fn every_twelve_basic_draws_hold_four_of_each_value() {
    let mut deck = Deck::new(rand::thread_rng());
    for _ in 0..4 {
        let mut counts = [0usize; 4];
        for _ in 0..12 {
            let card = deck.draw_basic();
            assert!(card == 1 || card == 2 || card == 3);
            counts[card] += 1;
        }
        assert_eq!(4, counts[1]);
        assert_eq!(4, counts[2]);
        assert_eq!(4, counts[3]);
    }
}

#[test]
fn draws_with_a_low_high_card_come_from_the_base_pool() {
    let mut deck = Deck::new(rand::thread_rng());
    let mut counts = [0usize; 4];
    for _ in 0..12 {
        let card = deck.draw(24);
        assert!(card == 1 || card == 2 || card == 3);
        counts[card] += 1;
    }
    assert_eq!(4, counts[1]);
    assert_eq!(4, counts[2]);
    assert_eq!(4, counts[3]);
}

#[test]
fn draws_with_a_high_card_stay_within_base_and_bonus_values() {
    let mut deck = Deck::new(rand::thread_rng());
    for _ in 0..200 {
        let card = deck.draw(96);
        assert!(
            card == 1 || card == 2 || card == 3 || card == 6 || card == 12,
            "unexpected card {}",
            card
        );
    }
}

#[test]
fn bonus_draws_never_consume_the_base_pool() {
    // Interleaving draws that may take the bonus path must not disturb the
    // four-of-each composition of the windows seen by basic draws.
    let mut deck = Deck::new(rand::thread_rng());
    let mut counts = [0usize; 4];
    let mut basic = 0;
    while basic < 24 {
        let card = deck.draw(768);
        if card == 1 || card == 2 || card == 3 {
            counts[card] += 1;
            basic += 1;
            if basic == 12 || basic == 24 {
                assert_eq!(4, counts[1]);
                assert_eq!(4, counts[2]);
                assert_eq!(4, counts[3]);
                counts = [0; 4];
            }
        }
    }
}

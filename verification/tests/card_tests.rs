use threes::card::{Card, CardError};

#[test]
fn can_make_cards_from_valid_values() {
    for value in 1..4 {
        assert_eq!(value, Card::new(value).unwrap().value());
    }

    for card_i in 4..13 {
        let value = 3 * (2f64.powi(card_i) as usize);
        assert_eq!(value, Card::new(value).unwrap().value());
    }
}

#[test]
fn new_card_with_invalid_value_returns_error() {
    assert_eq!(CardError::InvalidValue(16), Card::new(16).err().unwrap())
}

#[test]
fn can_merge_mergable_cards() {
    for &(r, x, y) in [(3, 1, 2), (3, 2, 1), (6, 3, 3), (48, 24, 24)].iter() {
        assert_eq!(
            Card::new(r).unwrap(),
            Card::new(x).unwrap().merge(Card::new(y).unwrap()).unwrap()
        );
    }
}

#[test]
fn cannot_merge_unmergable_cards() {
    assert_eq!(None, Card::new(6).unwrap().merge(Card::new(3).unwrap()));
}

#[test]
fn ones_and_twos_do_not_merge_with_themselves() {
    let one = Card::new(1).unwrap();
    let two = Card::new(2).unwrap();
    assert_eq!(None, one.merge(one));
    assert_eq!(None, two.merge(two));
    assert!(!one.mergable(one));
    assert!(!two.mergable(two));
}

#[test]
fn every_ladder_value_from_three_up_doubles_when_merged() {
    let ladder = [3usize, 6, 12, 24, 48, 96, 192, 384, 768, 1536, 3072, 6144, 12288];
    for &x in ladder.iter() {
        let card = Card::new(x).unwrap();
        assert!(card.mergable(card));
        assert_eq!(2 * x, card.merge(card).unwrap().value());
    }
}

#[test]
fn all_invalid_small_values_are_rejected() {
    for value in 0..20 {
        let valid = [1, 2, 3, 6, 12].contains(&value);
        match Card::new(value) {
            Ok(card) => {
                assert!(valid);
                assert_eq!(value, card.value());
            }
            Err(e) => {
                assert!(!valid);
                assert_eq!(CardError::InvalidValue(value), e);
            }
        }
    }
}

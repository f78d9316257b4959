use durango::cards::{BuyableCard, Card, CardAction};
use durango::hex::BonusToken;

#[test]
fn gold_value() {
    let card = Card { movement: [0, 1, 0], single_use: false, action: None };
    assert_eq!(card.gold_value(), 2);

    let card = Card { movement: [0, 0, 1], single_use: false, action: None };
    assert_eq!(card.gold_value(), 1);

    let card = Card { movement: [0, 5, 0], single_use: false, action: None };
    assert_eq!(card.gold_value(), 10);
}

#[test]
fn gold_value_of_large_desert_card_does_not_wrap() {
    let card = Card { movement: [0, 200, 0], single_use: false, action: None };
    assert_eq!(card.gold_value(), 400);
}

#[test]
fn token_gold_counts_only_desert() {
    assert_eq!(BonusToken::Desert(2).gold_value(), 4);
    assert_eq!(BonusToken::Jungle(3).gold_value(), 0);
    assert_eq!(BonusToken::ShareHex.gold_value(), 0);
}

#[test]
fn starting_cards() {
    assert_eq!(Card::explorer().movement, [1, 0, 0]);
    assert_eq!(Card::traveler().movement, [0, 1, 0]);
    assert_eq!(Card::sailor().movement, [0, 0, 1]);
    assert!(!Card::explorer().single_use);
}

#[test]
fn buyable_constructors() {
    let r = BuyableCard::regular(4, [1, 1, 1]);
    assert_eq!(r.cost, 4);
    assert_eq!(r.quantity, 3);
    assert!(!r.card.single_use);
    let s = BuyableCard::single_use(6, [0, 4, 0]);
    assert!(s.card.single_use);
    let a = BuyableCard::action(8, CardAction::FreeBuy, true);
    assert_eq!(a.card.movement, [0, 0, 0]);
    assert_eq!(a.to_card().action, Some(CardAction::FreeBuy));
}

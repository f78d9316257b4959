use vstd::prelude::*;

verus! {

/// A special action printed on a card.
#[derive(Clone, Copy, Debug, PartialEq, Eq, Structural)]
pub enum CardAction {
    FreeBuy,
    FreeMove,
    Draw(usize),
    DrawAndTrash(usize),
}

/// A movement card: capacities `[jungle, desert, water]`, whether it is
/// trashed after one use, and an optional special action.
#[derive(Clone, Copy, Debug, PartialEq, Eq)]
pub struct Card {
    pub movement: [u8; 3],
    pub single_use: bool,
    pub action: Option<CardAction>,
}

/// A card for sale, with its price and the number of copies left.
#[derive(Clone, Copy, Debug, PartialEq, Eq)]
pub struct BuyableCard {
    pub cost: u8,
    pub card: Card,
    pub quantity: u8,
}

/// Purchasing power of a card: twice its desert movement, and at least one.
pub open spec fn card_gold(c: Card) -> nat {
    if c.movement[1] == 0 {
        1
    } else {
        2 * c.movement[1] as nat
    }
}

/// A plain card with the given capacities.
pub open spec fn plain_card(movement: [u8; 3]) -> Card {
    Card { movement, single_use: false, action: None }
}

impl BuyableCard {
    /// A reusable movement card with three copies in stock.
    pub fn regular(cost: u8, movement: [u8; 3]) -> (r: Self)
        ensures
            r == (BuyableCard { cost, card: plain_card(movement), quantity: 3 }),
    {
        BuyableCard { cost, card: Card { movement, single_use: false, action: None }, quantity: 3 }
    }

    /// A movement card that is trashed after use, with three copies in stock.
    pub fn single_use(cost: u8, movement: [u8; 3]) -> (r: Self)
        ensures
            r == (BuyableCard {
                cost,
                card: Card { movement, single_use: true, action: None },
                quantity: 3,
            }),
    {
        BuyableCard { cost, card: Card { movement, single_use: true, action: None }, quantity: 3 }
    }

    /// A card without movement that carries a special action.
    pub fn action(cost: u8, action: CardAction, single_use: bool) -> (r: Self)
        ensures
            r == (BuyableCard {
                cost,
                card: Card { movement: [0, 0, 0], single_use, action: Some(action) },
                quantity: 3,
            }),
    {
        BuyableCard { cost, card: Card { movement: [0, 0, 0], single_use, action: Some(action) }, quantity: 3 }
    }

    /// The card that a buyer receives.
    pub fn to_card(&self) -> (r: Card)
        ensures
            r == self.card,
    {
        self.card
    }
}

impl Card {
    /// Purchasing power of this card.
    pub fn gold_value(&self) -> (r: u16)
        ensures
            r as nat == card_gold(*self),
    {
        let d = self.movement[1] as u16;
        if d == 0 {
            1
        } else {
            2 * d
        }
    }

    /// The starting jungle card.
    pub fn explorer() -> (r: Self)
        ensures
            r == plain_card([1, 0, 0]),
    {
        Card { movement: [1, 0, 0], single_use: false, action: None }
    }

    /// The starting desert card.
    pub fn traveler() -> (r: Self)
        ensures
            r == plain_card([0, 1, 0]),
    {
        Card { movement: [0, 1, 0], single_use: false, action: None }
    }

    /// The starting water card.
    pub fn sailor() -> (r: Self)
        ensures
            r == plain_card([0, 0, 1]),
    {
        Card { movement: [0, 0, 1], single_use: false, action: None }
    }
}

} // verus!

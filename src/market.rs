use vstd::prelude::*;
use crate::cards::{BuyableCard, Card, CardAction, card_gold};
use crate::game::{ActionError, BuyCardAction, BuyIndex, GameState, cost_sorted};
use crate::hex::{BonusToken, token_gold};
use crate::player::{selected, unselected, valid_selection};

verus! {

/// Gold of the first `n` selected hand cards.
pub open spec fn cards_gold(hand: Seq<Card>, sel: Seq<usize>, n: int) -> int
    decreases n,
{
    if n <= 0 {
        0
    } else {
        cards_gold(hand, sel, n - 1) + card_gold(hand[sel[n - 1] as int])
    }
}

/// Gold of the first `n` selected tokens.
pub open spec fn tokens_gold(tokens: Seq<BonusToken>, sel: Seq<usize>, n: int) -> int
    decreases n,
{
    if n <= 0 {
        0
    } else {
        tokens_gold(tokens, sel, n - 1) + token_gold(tokens[sel[n - 1] as int])
    }
}

/// The listing that a buy index names, if it exists.
pub open spec fn listing(s: GameState, index: BuyIndex) -> Option<BuyableCard> {
    match index {
        BuyIndex::Shop(i) => if i < s.shop@.len() { Some(s.shop@[i as int]) } else { None },
        BuyIndex::Storage(i) => if i < s.storage@.len() { Some(s.storage@[i as int]) } else { None },
    }
}

/// Whether a purchase is legal; when it is, whether it is a free buy.
pub open spec fn buy_check(s: GameState, b: BuyCardAction) -> Result<bool, ActionError> {
    let p = s.current();
    match listing(s, b.index) {
        None => Err(ActionError::BadIndices),
        Some(bc) => if !valid_selection(b.cards@, p.hand@.len() as int) || !valid_selection(b.tokens@, p.tokens@.len() as int) {
            Err(ActionError::BadIndices)
        } else if bc.quantity == 0 {
            Err(ActionError::OutOfStock)
        } else {
            let gold = cards_gold(p.hand@, b.cards@, b.cards@.len() as int) + tokens_gold(p.tokens@, b.tokens@, b.tokens@.len() as int);
            let short = gold < bc.cost;
            let free = short && b.cards@.len() == 1 && p.hand@[b.cards@[0] as int].action == Some(CardAction::FreeBuy);
            if short && !free {
                Err(ActionError::NotEnoughGold)
            } else if !free && !p.can_buy {
                Err(ActionError::AlreadyBought)
            } else if !free && (b.index matches BuyIndex::Storage(_)) && !s.shop_open() {
                Err(ActionError::ShopFull)
            } else {
                Ok(free)
            }
        },
    }
}

/// A listing after one copy is taken: one fewer in stock, delisted at zero.
pub open spec fn taken(v: Seq<BuyableCard>, i: int) -> Seq<BuyableCard> {
    if v[i].quantity > 1 {
        v.update(i, BuyableCard { quantity: (v[i].quantity - 1) as u8, ..v[i] })
    } else {
        v.remove(i)
    }
}

/// The first position from `i` on whose cost exceeds `cost`.
pub open spec fn first_above(v: Seq<BuyableCard>, cost: u8, i: int) -> int
    decreases v.len() - i,
{
    if i >= v.len() || i < 0 {
        i
    } else if v[i].cost > cost {
        i
    } else {
        first_above(v, cost, i + 1)
    }
}

/// `c` put into a cost-sorted sequence after every card that costs no more.
pub open spec fn sorted_insert(v: Seq<BuyableCard>, c: BuyableCard) -> Seq<BuyableCard> {
    v.insert(first_above(v, c.cost, 0), c)
}

/// The selected cards that go to the played pile: the reusable ones.
pub open spec fn reusable(cards: Seq<Card>) -> Seq<Card>
    decreases cards.len(),
{
    if cards.len() == 0 {
        Seq::empty()
    } else if cards.last().single_use {
        reusable(cards.drop_last())
    } else {
        reusable(cards.drop_last()).push(cards.last())
    }
}

/// The effect of a legal purchase on the game.
pub open spec fn bought(s0: GameState, s1: GameState, b: BuyCardAction, free: bool) -> bool {
    let c = s0.curr_player_idx as int;
    let p0 = s0.current();
    let p1 = s1.current();
    let bc = listing(s0, b.index).unwrap();
    &&& s1.map == s0.map
    &&& s1.graph == s0.graph
    &&& s1.barriers == s0.barriers
    &&& s1.bonuses == s0.bonuses
    &&& s1.curr_player_idx == s0.curr_player_idx
    &&& s1.round_idx == s0.round_idx
    &&& s1.players@.len() == s0.players@.len()
    &&& forall|i: int| 0 <= i < s0.players@.len() && i != c ==> #[trigger] s1.players@[i] == s0.players@[i]
    &&& p1.position == p0.position
    &&& p1.deck@ == p0.deck@
    &&& p1.discard@ == p0.discard@.push(bc.card)
    &&& p1.hand@ == unselected(p0.hand@, b.cards@)
    &&& p1.played@ == p0.played@ + reusable(selected(p0.hand@, b.cards@))
    &&& p1.tokens@ == unselected(p0.tokens@, b.tokens@)
    &&& p1.trashes == p0.trashes
    &&& p1.can_buy == (p0.can_buy && free)
    &&& p1.visited_caves@ == p0.visited_caves@
    &&& p1.broken_barriers@ == p0.broken_barriers@
    &&& match b.index {
        BuyIndex::Shop(i) => s1.shop@ == taken(s0.shop@, i as int) && s1.storage@ == s0.storage@,
        BuyIndex::Storage(i) => if free {
            s1.storage@ == taken(s0.storage@, i as int) && s1.shop@ == s0.shop@
        } else {
            &&& s1.storage@ == s0.storage@.remove(i as int)
            &&& s1.shop@ == if bc.quantity > 1 {
                sorted_insert(s0.shop@, BuyableCard { quantity: (bc.quantity - 1) as u8, ..bc })
            } else {
                s0.shop@
            }
        },
    }
}

/// Taking a copy keeps a cost-sorted listing sorted.
proof fn lemma_taken_sorted(v: Seq<BuyableCard>, i: int)
    requires
        cost_sorted(v),
        0 <= i < v.len(),
    ensures
        cost_sorted(taken(v, i)),
{
    let t = taken(v, i);
    if v[i].quantity > 1 {
        assert forall|a: int, b: int| 0 <= a < b < t.len() implies #[trigger] t[a].cost <= #[trigger] t[b].cost by {
            assert(t[a].cost == v[a].cost && t[b].cost == v[b].cost);
        }
    } else {
        assert forall|a: int, b: int| 0 <= a < b < t.len() implies #[trigger] t[a].cost <= #[trigger] t[b].cost by {
            let a0 = if a < i { a } else { a + 1 };
            let b0 = if b < i { b } else { b + 1 };
            assert(t[a] == v[a0] && t[b] == v[b0]);
            assert(v[a0].cost <= v[b0].cost);
        }
    }
}

/// Removes one copy of listing `i`.
fn take_card(cards: &mut Vec<BuyableCard>, idx: usize)
    requires
        idx < old(cards)@.len(),
        old(cards)@[idx as int].quantity > 0,
    ensures
        final(cards)@ == taken(old(cards)@, idx as int),
{
    let mut c = cards[idx];
    if c.quantity > 1 {
        c.quantity = c.quantity - 1;
        cards.set(idx, c);
    } else {
        cards.remove(idx);
    }
}

/// Puts `c` into a cost-sorted listing after every card that costs no more.
fn insert_sorted(v: &mut Vec<BuyableCard>, c: BuyableCard)
    requires
        cost_sorted(old(v)@),
    ensures
        final(v)@ == sorted_insert(old(v)@, c),
        cost_sorted(final(v)@),
{
    let ghost v0 = v@;
    let mut i: usize = 0;
    while i < v.len() && v[i].cost <= c.cost
        invariant
            v@ == v0,
            i <= v0.len(),
            first_above(v0, c.cost, 0) == first_above(v0, c.cost, i as int),
            forall|k: int| 0 <= k < i ==> (#[trigger] v0[k]).cost <= c.cost,
        decreases v0.len() - i,
    {
        i = i + 1;
    }
    assert(first_above(v0, c.cost, i as int) == i);
    v.insert(i, c);
    assert forall|a: int, b: int| 0 <= a < b < v@.len() implies #[trigger] v@[a].cost <= #[trigger] v@[b].cost by {
        if b < i {
            assert(v@[a] == v0[a] && v@[b] == v0[b]);
        } else if b == i {
            assert(v@[a] == v0[a]);
        } else if a < i {
            assert(v@[a] == v0[a] && v@[b] == v0[b - 1]);
            assert(v0[a].cost <= v0[b - 1].cost);
        } else if a == i {
            assert(v@[b] == v0[b - 1]);
            assert(v0[i as int].cost > c.cost);
            if b - 1 > i {
                assert(v0[i as int].cost <= v0[b - 1].cost);
            }
        } else {
            assert(v@[a] == v0[a - 1] && v@[b] == v0[b - 1]);
        }
    }
}

/// The reusable cards of `cards`, in order.
fn keep_reusable(cards: &Vec<Card>) -> (r: Vec<Card>)
    ensures
        r@ == reusable(cards@),
        r@.len() <= cards@.len(),
{
    let mut out: Vec<Card> = Vec::new();
    let mut i: usize = 0;
    while i < cards.len()
        invariant
            i <= cards@.len(),
            out@ == reusable(cards@.take(i as int)),
            out@.len() <= i,
        decreases cards@.len() - i,
    {
        assert(cards@.take(i + 1).drop_last() =~= cards@.take(i as int));
        if !cards[i].single_use {
            out.push(cards[i]);
        }
        i = i + 1;
    }
    assert(cards@.take(cards@.len() as int) =~= cards@);
    out
}

impl GameState {
    /// Gold of the selected hand cards and tokens of the current player.
    fn payment(&self, buy: &BuyCardAction) -> (r: u128)
        requires
            self.wf(),
            valid_selection(buy.cards@, self.current().hand@.len() as int),
            valid_selection(buy.tokens@, self.current().tokens@.len() as int),
        ensures
            r as int == cards_gold(self.current().hand@, buy.cards@, buy.cards@.len() as int) + tokens_gold(
                self.current().tokens@,
                buy.tokens@,
                buy.tokens@.len() as int,
            ),
    {
        let p = &self.players[self.curr_player_idx];
        let mut sum: u128 = 0;
        let mut k: usize = 0;
        while k < buy.cards.len()
            invariant
                *p == self.current(),
                valid_selection(buy.cards@, p.hand@.len() as int),
                k <= buy.cards@.len(),
                sum as int == cards_gold(p.hand@, buy.cards@, k as int),
                sum <= 510 * k,
            decreases buy.cards@.len() - k,
        {
            sum = sum + p.hand[buy.cards[k]].gold_value() as u128;
            k = k + 1;
        }
        let mut t: usize = 0;
        while t < buy.tokens.len()
            invariant
                *p == self.current(),
                valid_selection(buy.tokens@, p.tokens@.len() as int),
                t <= buy.tokens@.len(),
                k == buy.cards@.len(),
                sum as int == cards_gold(p.hand@, buy.cards@, k as int) + tokens_gold(p.tokens@, buy.tokens@, t as int),
                sum <= 510 * k + 510 * t,
            decreases buy.tokens@.len() - t,
        {
            sum = sum + p.tokens[buy.tokens[t]].gold_value() as u128;
            t = t + 1;
        }
        sum
    }

    /// Validates a purchase for the current player and, when it is legal,
    /// carries it out.
    #[verifier::spinoff_prover]
    #[verifier::rlimit(40)]
    pub fn handle_buy(&mut self, buy: &BuyCardAction) -> (r: Result<(), ActionError>)
        requires
            old(self).wf(),
        ensures
            final(self).wf(),
            match buy_check(*old(self), *buy) {
                Err(e) => r == Err::<(), ActionError>(e) && *final(self) == *old(self),
                Ok(free) => r is Ok && bought(*old(self), *final(self), *buy, free),
            },
    {
        let c = self.curr_player_idx;
        let bc = match buy.index {
            BuyIndex::Shop(i) => if i < self.shop.len() {
                self.shop[i]
            } else {
                return Err(ActionError::BadIndices);
            },
            BuyIndex::Storage(i) => if i < self.storage.len() {
                self.storage[i]
            } else {
                return Err(ActionError::BadIndices);
            },
        };
        if !crate::player::is_valid_selection(&buy.cards, self.players[c].hand.len())
            || !crate::player::is_valid_selection(&buy.tokens, self.players[c].tokens.len()) {
            return Err(ActionError::BadIndices);
        }
        if bc.quantity == 0 {
            return Err(ActionError::OutOfStock);
        }
        let gold = self.payment(buy);
        let short = gold < bc.cost as u128;
        let free = short && buy.cards.len() == 1 && match self.players[c].hand[buy.cards[0]].action {
            Some(CardAction::FreeBuy) => true,
            _ => false,
        };
        if short && !free {
            return Err(ActionError::NotEnoughGold);
        }
        if !free && !self.players[c].can_buy {
            return Err(ActionError::AlreadyBought);
        }
        let from_storage = match buy.index {
            BuyIndex::Storage(_) => true,
            BuyIndex::Shop(_) => false,
        };
        if !free && from_storage && !self.has_open_shop() {
            return Err(ActionError::ShopFull);
        }
        let ghost s0 = *self;
        match buy.index {
            BuyIndex::Shop(i) => {
                proof {
                    lemma_taken_sorted(self.shop@, i as int);
                }
                take_card(&mut self.shop, i);
            },
            BuyIndex::Storage(i) => {
                if free {
                    take_card(&mut self.storage, i);
                } else {
                    let listed = self.storage.remove(i);
                    if listed.quantity > 1 {
                        insert_sorted(&mut self.shop, BuyableCard { quantity: listed.quantity - 1, ..listed });
                    }
                }
            },
        }
        let (keep, picked) = crate::player::split_selected(&self.players[c].hand, buy.cards.as_slice());
        let mut played = keep_reusable(&picked);
        let (tokens, _used) = crate::player::split_selected(&self.players[c].tokens, buy.tokens.as_slice());
        self.players[c].discard.push(bc.card);
        self.players[c].hand = keep;
        self.players[c].played.append(&mut played);
        self.players[c].tokens = tokens;
        self.players[c].can_buy = self.players[c].can_buy && free;
        Ok(())
    }
}

} // verus!

use vstd::prelude::*;
use vstd::multiset::Multiset;
use rand::rngs::StdRng;
use crate::cards::{Card, plain_card};
use crate::hex::{AxialCoord, BonusToken, BrokenBarrier};
use crate::random::shuffle;

verus! {

/// Number of cards a player holds after refilling at the end of a turn.
pub const HAND_SIZE: usize = 4;

/// Indices that strictly increase and stay below `len`.
pub open spec fn valid_selection(idx: Seq<usize>, len: int) -> bool {
    &&& forall|a: int, b: int| 0 <= a < b < idx.len() ==> #[trigger] idx[a] < #[trigger] idx[b]
    &&& forall|a: int| 0 <= a < idx.len() ==> #[trigger] idx[a] < len
}

/// Whether `idx` strictly increases and stays below `len`.
pub fn is_valid_selection(idx: &Vec<usize>, len: usize) -> (r: bool)
    ensures
        r == valid_selection(idx@, len as int),
{
    let mut k: usize = 0;
    while k < idx.len()
        invariant
            k <= idx@.len(),
            forall|a: int, b: int| 0 <= a < b < k ==> #[trigger] idx@[a] < #[trigger] idx@[b],
            forall|a: int| 0 <= a < k ==> #[trigger] idx@[a] < len,
        decreases idx@.len() - k,
    {
        if idx[k] >= len {
            return false;
        }
        if k > 0 && idx[k - 1] >= idx[k] {
            return false;
        }
        proof {
            assert forall|a: int, b: int| 0 <= a < b < k + 1 implies #[trigger] idx@[a] < #[trigger] idx@[b] by {
                if b == k && a < k - 1 {
                    assert(idx@[a] < idx@[k - 1]);
                }
            }
        }
        k = k + 1;
    }
    true
}

/// The elements of `s` whose index is not selected, in their order.
pub open spec fn unselected<T>(s: Seq<T>, idx: Seq<usize>) -> Seq<T>
    decreases s.len(),
{
    if s.len() == 0 {
        Seq::empty()
    } else {
        let prev = unselected(s.drop_last(), idx);
        if idx.contains((s.len() - 1) as usize) {
            prev
        } else {
            prev.push(s.last())
        }
    }
}

/// The elements of `s` at the selected indices, in index order.
pub open spec fn selected<T>(s: Seq<T>, idx: Seq<usize>) -> Seq<T> {
    idx.map_values(|i: usize| s[i as int])
}

/// Splits `s` into the elements that are not selected and those that are.
pub fn split_selected<T: Copy>(s: &Vec<T>, idx: &[usize]) -> (r: (Vec<T>, Vec<T>))
    requires
        valid_selection(idx@, s@.len() as int),
    ensures
        r.0@ == unselected(s@, idx@),
        r.1@ == selected(s@, idx@),
        r.0@.len() + idx@.len() == s@.len(),
{
    let mut keep: Vec<T> = Vec::new();
    let mut i: usize = 0;
    let mut j: usize = 0;
    while i < s.len()
        invariant
            valid_selection(idx@, s@.len() as int),
            i <= s@.len(),
            j <= idx@.len(),
            forall|t: int| 0 <= t < j ==> #[trigger] idx@[t] < i,
            forall|t: int| j <= t < idx@.len() ==> #[trigger] idx@[t] >= i,
            keep@ == unselected(s@.take(i as int), idx@),
            keep@.len() + j == i,
        decreases s@.len() - i,
    {
        let ghost prefix = s@.take(i as int);
        assert(s@.take(i + 1).drop_last() =~= prefix);
        if j < idx.len() && idx[j] == i {
            assert(idx@.contains(i));
            j = j + 1;
        } else {
            assert(!idx@.contains(i)) by {
                if idx@.contains(i) {
                    let t = choose|t: int| 0 <= t < idx@.len() && idx@[t] == i;
                    if t < j {
                    } else if t > j {
                        assert(idx@[j as int] < idx@[t]);
                    }
                }
            }
            keep.push(s[i]);
        }
        i = i + 1;
    }
    assert(s@.take(s@.len() as int) =~= s@);
    assert(j == idx@.len()) by {
        if j < idx@.len() {
            assert(idx@[j as int] < s@.len());
        }
    }
    let mut picked: Vec<T> = Vec::new();
    let mut t: usize = 0;
    while t < idx.len()
        invariant
            valid_selection(idx@, s@.len() as int),
            t <= idx@.len(),
            picked@ =~= selected(s@, idx@).take(t as int),
        decreases idx@.len() - t,
    {
        picked.push(s[idx[t]]);
        t = t + 1;
    }
    assert(selected(s@, idx@).take(idx@.len() as int) =~= selected(s@, idx@));
    (keep, picked)
}

/// One player's resources: position, the four card piles, bonus tokens and
/// per-turn allowances.
#[derive(Clone, Debug)]
pub struct Player {
    pub position: AxialCoord,
    pub deck: Vec<Card>,
    pub hand: Vec<Card>,
    pub played: Vec<Card>,
    pub discard: Vec<Card>,
    pub tokens: Vec<BonusToken>,
    /// Cards that may still be trashed this turn.
    pub trashes: usize,
    /// Whether the one paid purchase of this turn is still open.
    pub can_buy: bool,
    /// Caves visited since the player last moved away from them.
    pub visited_caves: Vec<AxialCoord>,
    /// Barriers this player broke.
    pub broken_barriers: Vec<BrokenBarrier>,
}

/// The eight cards every player starts with.
pub open spec fn starting_cards() -> Seq<Card> {
    seq![
        plain_card([1, 0, 0]),
        plain_card([1, 0, 0]),
        plain_card([1, 0, 0]),
        plain_card([0, 1, 0]),
        plain_card([0, 1, 0]),
        plain_card([0, 1, 0]),
        plain_card([0, 1, 0]),
        plain_card([0, 0, 1]),
    ]
}

impl Player {
    /// Total cards the player owns, over all four piles.
    pub open spec fn card_count(&self) -> int {
        (self.deck@.len() + self.hand@.len() + self.played@.len() + self.discard@.len()) as int
    }

    /// Whether two players differ at most in their deck, hand and discard.
    pub open spec fn same_but_draw_piles(&self, other: &Player) -> bool {
        &&& self.position == other.position
        &&& self.played@ == other.played@
        &&& self.tokens@ == other.tokens@
        &&& self.trashes == other.trashes
        &&& self.can_buy == other.can_buy
        &&& self.visited_caves@ == other.visited_caves@
        &&& self.broken_barriers@ == other.broken_barriers@
    }

    /// A new player at `position`: the starting cards shuffled, four of them
    /// in hand and four in the deck.
    pub fn new(position: AxialCoord, rng: &mut StdRng) -> (r: Self)
        ensures
            r.position == position,
            r.hand@.len() == HAND_SIZE,
            r.deck@.len() == 4,
            (r.deck@ + r.hand@).to_multiset() == starting_cards().to_multiset(),
            r.played@.len() == 0,
            r.discard@.len() == 0,
            r.tokens@.len() == 0,
            r.trashes == 0,
            r.can_buy,
            r.visited_caves@.len() == 0,
            r.broken_barriers@.len() == 0,
    {
        let mut deck = vec![
            Card::explorer(),
            Card::explorer(),
            Card::explorer(),
            Card::traveler(),
            Card::traveler(),
            Card::traveler(),
            Card::traveler(),
            Card::sailor(),
        ];
        assert(deck@ =~= starting_cards());
        shuffle(&mut deck, rng);
        let ghost all = deck@;
        let hand = deck.split_off(HAND_SIZE);
        assert(deck@ + hand@ =~= all);
        Player {
            position,
            deck,
            hand,
            played: Vec::new(),
            discard: Vec::new(),
            tokens: Vec::new(),
            trashes: 0,
            can_buy: true,
            visited_caves: Vec::new(),
            broken_barriers: Vec::new(),
        }
    }

    /// Moves the selected hand cards onto the played pile.
    pub fn mark_played(&mut self, cards: &[usize])
        requires
            valid_selection(cards@, old(self).hand@.len() as int),
        ensures
            final(self).hand@ == unselected(old(self).hand@, cards@),
            final(self).played@ == old(self).played@ + selected(old(self).hand@, cards@),
            final(self).hand@.len() + cards@.len() == old(self).hand@.len(),
            final(self).deck@ == old(self).deck@,
            final(self).discard@ == old(self).discard@,
            final(self).card_count() == old(self).card_count(),
            final(self).position == old(self).position,
            final(self).tokens@ == old(self).tokens@,
            final(self).trashes == old(self).trashes,
            final(self).can_buy == old(self).can_buy,
            final(self).visited_caves@ == old(self).visited_caves@,
            final(self).broken_barriers@ == old(self).broken_barriers@,
    {
        let (keep, mut picked) = split_selected(&self.hand, cards);
        self.hand = keep;
        self.played.append(&mut picked);
    }

    /// Moves the selected hand cards straight onto the discard pile.
    pub fn discard_cards(&mut self, cards: &[usize])
        requires
            valid_selection(cards@, old(self).hand@.len() as int),
        ensures
            final(self).hand@ == unselected(old(self).hand@, cards@),
            final(self).discard@ == old(self).discard@ + selected(old(self).hand@, cards@),
            final(self).hand@.len() + cards@.len() == old(self).hand@.len(),
            final(self).deck@ == old(self).deck@,
            final(self).played@ == old(self).played@,
            final(self).card_count() == old(self).card_count(),
            final(self).position == old(self).position,
            final(self).tokens@ == old(self).tokens@,
            final(self).trashes == old(self).trashes,
            final(self).can_buy == old(self).can_buy,
            final(self).visited_caves@ == old(self).visited_caves@,
            final(self).broken_barriers@ == old(self).broken_barriers@,
    {
        let (keep, mut picked) = split_selected(&self.hand, cards);
        self.hand = keep;
        self.discard.append(&mut picked);
    }

    /// Removes the selected hand cards from the game.
    pub fn trash_cards(&mut self, cards: &[usize])
        requires
            valid_selection(cards@, old(self).hand@.len() as int),
        ensures
            final(self).hand@ == unselected(old(self).hand@, cards@),
            final(self).hand@.len() + cards@.len() == old(self).hand@.len(),
            final(self).deck@ == old(self).deck@,
            final(self).played@ == old(self).played@,
            final(self).discard@ == old(self).discard@,
            final(self).card_count() + cards@.len() == old(self).card_count(),
            final(self).position == old(self).position,
            final(self).tokens@ == old(self).tokens@,
            final(self).trashes == old(self).trashes,
            final(self).can_buy == old(self).can_buy,
            final(self).visited_caves@ == old(self).visited_caves@,
            final(self).broken_barriers@ == old(self).broken_barriers@,
    {
        let (keep, _picked) = split_selected(&self.hand, cards);
        self.hand = keep;
    }

    /// Draws from the deck until the hand holds `hand_size` cards, shuffling
    /// the discard pile into an empty deck; stops early when both run out.
    pub fn fill_hand(&mut self, hand_size: usize, rng: &mut StdRng)
        ensures
            final(self).same_but_draw_piles(old(self)),
            final(self).card_count() == old(self).card_count(),
            final(self).hand@.len() == if old(self).hand@.len() >= hand_size {
                old(self).hand@.len() as int
            } else if hand_size <= old(self).hand@.len() + old(self).deck@.len() + old(self).discard@.len() {
                hand_size as int
            } else {
                (old(self).hand@.len() + old(self).deck@.len() + old(self).discard@.len()) as int
            },
            final(self).hand@.take(old(self).hand@.len() as int) == old(self).hand@,
            (final(self).deck@ + final(self).hand@ + final(self).discard@).to_multiset() == (old(
                self,
            ).deck@ + old(self).hand@ + old(self).discard@).to_multiset(),
            old(self).hand@.len() < hand_size && hand_size - old(self).hand@.len() <= old(self).deck@.len() ==> {
                let need = hand_size - old(self).hand@.len();
                let top = old(self).deck@.len() - need;
                &&& final(self).discard@ == old(self).discard@
                &&& final(self).deck@ == old(self).deck@.take(top)
                &&& forall|j: int|
                    0 <= j < need ==> #[trigger] final(self).hand@[old(self).hand@.len() + j] == old(self).deck@[old(
                        self,
                    ).deck@.len() - 1 - j]
            },
    {
        let ghost start = *self;
        let ghost total = self.deck@.len() + self.hand@.len() + self.discard@.len();
        proof {
            lemma_piles_multiset(self.deck@, self.hand@, self.discard@);
        }
        while self.hand.len() < hand_size
            invariant
                self.same_but_draw_piles(&start),
                self.deck@.len() + self.hand@.len() + self.discard@.len() == total,
                total == start.deck@.len() + start.hand@.len() + start.discard@.len(),
                start.hand@.len() <= self.hand@.len(),
                start.hand@.len() < hand_size ==> self.hand@.len() <= hand_size,
                start.hand@.len() >= hand_size ==> self.hand@.len() == start.hand@.len(),
                self.hand@.take(start.hand@.len() as int) == start.hand@,
                (start.hand@.len() < hand_size && hand_size - start.hand@.len() <= start.deck@.len()) ==> {
                    let drawn = self.hand@.len() - start.hand@.len();
                    &&& self.discard@ == start.discard@
                    &&& self.deck@ == start.deck@.take(start.deck@.len() - drawn)
                    &&& forall|j: int|
                        0 <= j < drawn ==> #[trigger] self.hand@[start.hand@.len() + j] == start.deck@[start.deck@.len() - 1 - j]
                },
                self.deck@.to_multiset().add(self.hand@.to_multiset()).add(self.discard@.to_multiset())
                    == start.deck@.to_multiset().add(start.hand@.to_multiset()).add(
                    start.discard@.to_multiset(),
                ),
            ensures
                self.hand@.len() >= hand_size || (self.deck@.len() == 0 && self.discard@.len() == 0),
            decreases hand_size - self.hand@.len(),
        {
            if self.deck.len() == 0 && self.discard.len() > 0 {
                let ghost d0 = self.deck@;
                let ghost x0 = self.discard@;
                self.deck.append(&mut self.discard);
                proof {
                    broadcast use vstd::seq_lib::group_to_multiset_ensures;
                    vstd::seq_lib::lemma_multiset_commutative(d0, x0);
                    assert(self.deck@ == d0 + x0);
                    assert(d0.to_multiset() =~= Multiset::empty());
                    assert(self.discard@.to_multiset() =~= Multiset::empty());
                }
                shuffle(&mut self.deck, rng);
            }
            let ghost h0 = self.hand@;
            let ghost k0 = self.deck@;
            match self.deck.pop() {
                Some(c) => {
                    self.hand.push(c);
                    proof {
                        assert(k0 =~= self.deck@.push(c));
                        vstd::seq_lib::lemma_multiset_commutative(self.deck@, seq![c]);
                        vstd::seq_lib::lemma_multiset_commutative(h0, seq![c]);
                        assert(self.hand@ == h0 + seq![c]);
                        assert(k0 == self.deck@ + seq![c]);
                        assert(self.hand@.take(start.hand@.len() as int) =~= h0.take(start.hand@.len() as int));
                        if start.hand@.len() < hand_size && hand_size - start.hand@.len() <= start.deck@.len() {
                            let drawn = h0.len() - start.hand@.len();
                            assert(self.deck@ =~= start.deck@.take(start.deck@.len() - drawn - 1));
                            assert forall|j: int| 0 <= j < drawn + 1 implies #[trigger] self.hand@[start.hand@.len() + j]
                                == start.deck@[start.deck@.len() - 1 - j] by {
                                if j < drawn {
                                    assert(self.hand@[start.hand@.len() + j] == h0[start.hand@.len() + j]);
                                }
                            }
                        }
                    }
                },
                None => {
                    break;
                },
            }
        }
        proof {
            lemma_piles_multiset(self.deck@, self.hand@, self.discard@);
        }
    }

    /// Sets the whole hand aside as played and draws as many new cards.
    pub fn replace_hand(&mut self, rng: &mut StdRng)
        ensures
            final(self).card_count() == old(self).card_count(),
            final(self).played@ == old(self).played@ + old(self).hand@,
            final(self).hand@.len() == if old(self).hand@.len() <= old(self).deck@.len() + old(self).discard@.len() {
                old(self).hand@.len() as int
            } else {
                (old(self).deck@.len() + old(self).discard@.len()) as int
            },
            final(self).position == old(self).position,
            final(self).tokens@ == old(self).tokens@,
            final(self).trashes == old(self).trashes,
            final(self).can_buy == old(self).can_buy,
            final(self).visited_caves@ == old(self).visited_caves@,
            final(self).broken_barriers@ == old(self).broken_barriers@,
    {
        let num_current = self.hand.len();
        self.played.append(&mut self.hand);
        self.fill_hand(num_current, rng);
    }

    /// Ends the turn: played cards go to the discard pile, the hand is
    /// refilled to `HAND_SIZE`, and the per-turn allowances are reset.
    pub fn finish_turn(&mut self, rng: &mut StdRng)
        ensures
            final(self).card_count() == old(self).card_count(),
            final(self).played@.len() == 0,
            final(self).hand@.len() == if old(self).hand@.len() >= HAND_SIZE {
                old(self).hand@.len() as int
            } else if HAND_SIZE <= old(self).card_count() {
                HAND_SIZE as int
            } else {
                old(self).card_count()
            },
            final(self).hand@.take(old(self).hand@.len() as int) == old(self).hand@,
            final(self).trashes == 0,
            final(self).can_buy,
            final(self).position == old(self).position,
            final(self).tokens@ == old(self).tokens@,
            final(self).visited_caves@ == old(self).visited_caves@,
            final(self).broken_barriers@ == old(self).broken_barriers@,
    {
        self.discard.append(&mut self.played);
        self.fill_hand(HAND_SIZE, rng);
        self.trashes = 0;
        self.can_buy = true;
    }

    /// Total cards the player owns.
    pub fn num_cards(&self) -> (r: usize)
        requires
            self.card_count() <= usize::MAX,
        ensures
            r == self.card_count(),
    {
        self.hand.len() + self.deck.len() + self.played.len() + self.discard.len()
    }

    /// A player rebuilt from stored public facts: position, tokens and
    /// broken barriers, with no cards and a fresh turn.
    pub fn from_parts(position: AxialCoord, tokens: Vec<BonusToken>, broken_barriers: Vec<BrokenBarrier>) -> (r: Self)
        ensures
            r.position == position,
            r.tokens@ == tokens@,
            r.broken_barriers@ == broken_barriers@,
            r.card_count() == 0,
            r.trashes == 0,
            r.can_buy,
            r.visited_caves@.len() == 0,
    {
        Player {
            position,
            deck: Vec::new(),
            hand: Vec::new(),
            played: Vec::new(),
            discard: Vec::new(),
            tokens,
            trashes: 0,
            can_buy: true,
            visited_caves: Vec::new(),
            broken_barriers,
        }
    }

    /// Total movement per type over all the player's cards.
    pub fn sum_movement(&self) -> (r: [u64; 3])
        requires
            self.card_count() <= u32::MAX,
        ensures
            r[0] == movement_total(self.all_cards(), 0),
            r[1] == movement_total(self.all_cards(), 1),
            r[2] == movement_total(self.all_cards(), 2),
    {
        let mut sums: [u64; 3] = [0, 0, 0];
        let ghost all = self.all_cards();
        let mut t: u64 = 0;
        let mut d: u64 = 0;
        let mut w: u64 = 0;
        let mut pile: usize = 0;
        let ghost mut seen: Seq<Card> = Seq::empty();
        while pile < 4
            invariant
                self.card_count() <= u32::MAX,
                all == self.all_cards(),
                pile <= 4,
                seen == pile_prefix(*self, pile as int),
                seen.len() <= self.card_count(),
                t == movement_total(seen, 0),
                d == movement_total(seen, 1),
                w == movement_total(seen, 2),
                t <= 255 * seen.len() && d <= 255 * seen.len() && w <= 255 * seen.len(),
            decreases 4 - pile,
        {
            let cards = if pile == 0 {
                &self.hand
            } else if pile == 1 {
                &self.played
            } else if pile == 2 {
                &self.deck
            } else {
                &self.discard
            };
            proof {
                lemma_pile_prefix_len(*self, pile as int + 1);
            }
            let mut i: usize = 0;
            while i < cards.len()
                invariant
                    self.card_count() <= u32::MAX,
                    pile < 4,
                    seen.len() + cards@.len() - i <= self.card_count(),
                    seen + cards@.skip(i as int) == pile_prefix(*self, pile as int + 1),
                    t == movement_total(seen, 0),
                    d == movement_total(seen, 1),
                    w == movement_total(seen, 2),
                    t <= 255 * seen.len() && d <= 255 * seen.len() && w <= 255 * seen.len(),
                    i <= cards@.len(),
                decreases cards@.len() - i,
            {
                let c = cards[i];
                proof {
                    assert((seen.push(c)).drop_last() == seen);
                    assert(seen.push(c) + cards@.skip(i + 1) =~= seen + cards@.skip(i as int));
                }
                t = t + c.movement[0] as u64;
                d = d + c.movement[1] as u64;
                w = w + c.movement[2] as u64;
                proof {
                    seen = seen.push(c);
                }
                i = i + 1;
            }
            assert(cards@.skip(i as int) =~= Seq::<Card>::empty());
            assert(seen =~= pile_prefix(*self, pile as int + 1));
            pile = pile + 1;
        }
        sums = [t, d, w];
        sums
    }

    /// All the player's cards: hand, played, deck, discard.
    pub open spec fn all_cards(&self) -> Seq<Card> {
        self.hand@ + self.played@ + self.deck@ + self.discard@
    }

    /// Cards left in the deck.
    pub fn deck_size(&self) -> (r: usize)
        ensures
            r == self.deck@.len(),
    {
        self.deck.len()
    }
}

/// Total movement of one type over a sequence of cards.
pub open spec fn movement_total(cards: Seq<Card>, t: int) -> int
    decreases cards.len(),
{
    if cards.len() == 0 {
        0
    } else {
        movement_total(cards.drop_last(), t) + cards.last().movement[t] as int
    }
}

/// The first `k` piles of a player, in the order hand, played, deck, discard.
pub open spec fn pile_prefix(p: Player, k: int) -> Seq<Card> {
    if k <= 0 {
        Seq::empty()
    } else if k == 1 {
        p.hand@
    } else if k == 2 {
        p.hand@ + p.played@
    } else if k == 3 {
        p.hand@ + p.played@ + p.deck@
    } else {
        p.all_cards()
    }
}

proof fn lemma_pile_prefix_len(p: Player, k: int)
    ensures
        pile_prefix(p, k).len() <= p.card_count(),
{
}

/// The multiset of three piles is the multiset of their concatenation.
proof fn lemma_piles_multiset(a: Seq<Card>, b: Seq<Card>, c: Seq<Card>)
    ensures
        (a + b + c).to_multiset() == a.to_multiset().add(b.to_multiset()).add(c.to_multiset()),
{
    vstd::seq_lib::lemma_multiset_commutative(a, b);
    vstd::seq_lib::lemma_multiset_commutative(a + b, c);
}

} // verus!

use vstd::prelude::*;
use rand::rngs::StdRng;
use crate::cards::CardAction;
use crate::game::{ActionError, ActionOutcome, DrawAction, GameState, PlayerAction};
use crate::hex::BonusToken;
use crate::market::{buy_check, bought};
use crate::movement::{move_plan, moved};
use crate::player::{HAND_SIZE, Player, unselected, valid_selection};

verus! {

/// Hand size after drawing up to `target` cards from the deck and the
/// reshuffled discard pile.
pub open spec fn filled_len(p: Player, target: int) -> int {
    let have = p.hand@.len() as int;
    let avail = have + p.deck@.len() + p.discard@.len();
    if have >= target {
        have
    } else if target <= avail {
        target
    } else {
        avail
    }
}

/// Whether a draw is legal.
pub open spec fn draw_check(s: GameState, d: DrawAction) -> Result<(), ActionError> {
    let p = s.current();
    match d.card {
        Some(i) => if i >= p.hand@.len() {
            Err(ActionError::BadIndices)
        } else if d.token matches Some(t) && t >= p.tokens@.len() {
            Err(ActionError::BadIndices)
        } else if d.token matches Some(t) && p.tokens@[t as int] != BonusToken::DoubleUse {
            Err(ActionError::CannotDraw)
        } else {
            match p.hand@[i as int].action {
                Some(CardAction::Draw(_)) => Ok(()),
                Some(CardAction::DrawAndTrash(_)) => Ok(()),
                _ => Err(ActionError::CannotDraw),
            }
        },
        None => match d.token {
            Some(t) => if t >= p.tokens@.len() {
                Err(ActionError::BadIndices)
            } else {
                match p.tokens@[t as int] {
                    BonusToken::DrawCard => Ok(()),
                    BonusToken::TrashCard => Ok(()),
                    BonusToken::ReplaceHand => Ok(()),
                    _ => Err(ActionError::CannotDraw),
                }
            },
            None => Err(ActionError::NothingToDraw),
        },
    }
}

/// Everything but the current player's cards, tokens and trash allowance
/// is unchanged.
pub open spec fn only_current_cards(s0: GameState, s1: GameState) -> bool {
    let c = s0.curr_player_idx as int;
    &&& s1.map == s0.map
    &&& s1.graph == s0.graph
    &&& s1.barriers == s0.barriers
    &&& s1.bonuses == s0.bonuses
    &&& s1.shop == s0.shop
    &&& s1.storage == s0.storage
    &&& s1.curr_player_idx == s0.curr_player_idx
    &&& s1.round_idx == s0.round_idx
    &&& s1.players@.len() == s0.players@.len()
    &&& forall|i: int| 0 <= i < s0.players@.len() && i != c ==> #[trigger] s1.players@[i] == s0.players@[i]
    &&& s1.current().position == s0.current().position
    &&& s1.current().can_buy == s0.current().can_buy
    &&& s1.current().visited_caves@ == s0.current().visited_caves@
    &&& s1.current().broken_barriers@ == s0.current().broken_barriers@
}

/// The effect of a legal draw.
pub open spec fn drawn(s0: GameState, s1: GameState, d: DrawAction) -> bool {
    let p0 = s0.current();
    let p1 = s1.current();
    &&& only_current_cards(s0, s1)
    &&& match d.card {
        Some(i) => {
            let card = p0.hand@[i as int];
            let n = match card.action {
                Some(CardAction::Draw(n)) => n,
                Some(CardAction::DrawAndTrash(n)) => n,
                _ => 0,
            };
            let trash = card.single_use && d.token is None;
            &&& p1.tokens@ == match d.token {
                Some(t) => p0.tokens@.remove(t as int),
                None => p0.tokens@,
            }
            &&& p1.trashes == match card.action {
                Some(CardAction::DrawAndTrash(n)) => p0.trashes.saturating_add(n),
                _ => p0.trashes,
            }
            &&& p1.card_count() == p0.card_count() - if trash { 1int } else { 0int }
            &&& p1.hand@.len() == filled_len(p0, (p0.hand@.len() as usize).saturating_add(n) as int) - 1
            &&& p1.played@ == if trash { p0.played@ } else { p0.played@.push(card) }
        },
        None => {
            let t = d.token.unwrap();
            &&& p1.tokens@ == p0.tokens@.remove(t as int)
            &&& p1.card_count() == p0.card_count()
            &&& match p0.tokens@[t as int] {
                BonusToken::DrawCard => p1.trashes == p0.trashes && p1.hand@.len() == filled_len(p0, (p0.hand@.len() as usize).saturating_add(1) as int),
                BonusToken::TrashCard => p1.trashes == p0.trashes.saturating_add(1) && p1.hand@ == p0.hand@,
                _ => {
                    &&& p1.trashes == p0.trashes
                    &&& p1.played@ == p0.played@ + p0.hand@
                    &&& p1.hand@.len() == if p0.hand@.len() <= p0.deck@.len() + p0.discard@.len() {
                        p0.hand@.len() as int
                    } else {
                        (p0.deck@.len() + p0.discard@.len()) as int
                    }
                },
            }
        },
    }
}

impl GameState {
    /// Validates a draw for the current player and, when it is legal,
    /// carries it out.
    #[verifier::spinoff_prover]
    #[verifier::rlimit(40)]
    pub fn handle_draw(&mut self, draw: &DrawAction, rng: &mut StdRng) -> (r: Result<(), ActionError>)
        requires
            old(self).wf(),
        ensures
            final(self).wf(),
            match draw_check(*old(self), *draw) {
                Err(e) => r == Err::<(), ActionError>(e) && *final(self) == *old(self),
                Ok(_) => r is Ok && drawn(*old(self), *final(self), *draw),
            },
    {
        let ghost s0 = *self;
        let c = self.curr_player_idx;
        let hand_size = self.players[c].hand.len();
        let num_tokens = self.players[c].tokens.len();
        if let Some(i) = draw.card {
            if i >= hand_size {
                return Err(ActionError::BadIndices);
            }
            let card = self.players[c].hand[i];
            let mut single = card.single_use;
            if let Some(t) = draw.token {
                if t >= num_tokens {
                    return Err(ActionError::BadIndices);
                }
                if self.players[c].tokens[t] != BonusToken::DoubleUse {
                    return Err(ActionError::CannotDraw);
                }
                single = false;
            }
            let (n, extra_trashes) = match card.action {
                Some(CardAction::Draw(n)) => (n, 0),
                Some(CardAction::DrawAndTrash(n)) => (n, n),
                _ => {
                    return Err(ActionError::CannotDraw);
                },
            };
            let ghost p0 = self.players@[c as int];
            self.players[c].fill_hand(hand_size.saturating_add(n), rng);
            self.players[c].trashes = self.players[c].trashes.saturating_add(extra_trashes);
            let chosen = vec![i];
            let ghost p1 = self.players@[c as int];
            assert(p1.hand@.take(p0.hand@.len() as int)[i as int] == card);
            assert(p1.hand@[i as int] == card);
            assert(crate::player::selected(p1.hand@, chosen@) =~= seq![card]);
            if single {
                self.players[c].trash_cards(chosen.as_slice());
            } else {
                self.players[c].mark_played(chosen.as_slice());
            }
            if let Some(t) = draw.token {
                self.players[c].tokens.remove(t);
            }
            proof {
                let q = self.players@[c as int];
                assert(only_current_cards(s0, *self));
                assert(q.card_count() == p0.card_count() - if single { 1int } else { 0int });
                assert(q.hand@.len() == filled_len(p0, hand_size.saturating_add(n) as int) - 1);
                assert(q.played@ == if single { p0.played@ } else { p0.played@.push(card) });
            }
            Ok(())
        } else if let Some(t) = draw.token {
            if t >= num_tokens {
                return Err(ActionError::BadIndices);
            }
            match self.players[c].tokens[t] {
                BonusToken::DrawCard => {
                    self.players[c].fill_hand(hand_size.saturating_add(1), rng);
                },
                BonusToken::TrashCard => {
                    self.players[c].trashes = self.players[c].trashes.saturating_add(1);
                },
                BonusToken::ReplaceHand => {
                    self.players[c].replace_hand(rng);
                },
                _ => {
                    return Err(ActionError::CannotDraw);
                },
            }
            self.players[c].tokens.remove(t);
            Ok(())
        } else {
            Err(ActionError::NothingToDraw)
        }
    }

    /// Trashes the selected hand cards, within the remaining allowance.
    pub fn handle_trash(&mut self, trash: &Vec<usize>) -> (r: Result<(), ActionError>)
        requires
            old(self).wf(),
        ensures
            final(self).wf(),
            match trash_check(*old(self), trash@) {
                Err(e) => r == Err::<(), ActionError>(e) && *final(self) == *old(self),
                Ok(_) => r is Ok && trashed(*old(self), *final(self), trash@),
            },
    {
        let c = self.curr_player_idx;
        if !crate::player::is_valid_selection(trash, self.players[c].hand.len()) {
            return Err(ActionError::BadIndices);
        }
        if trash.len() > self.players[c].trashes {
            return Err(ActionError::TooManyTrashes);
        }
        self.players[c].trash_cards(trash.as_slice());
        self.players[c].trashes = self.players[c].trashes - trash.len();
        Ok(())
    }

    /// Moves the selected hand cards to the discard pile.
    pub fn handle_discard(&mut self, cards: &Vec<usize>) -> (r: Result<(), ActionError>)
        requires
            old(self).wf(),
        ensures
            final(self).wf(),
            if !valid_selection(cards@, old(self).current().hand@.len() as int) {
                r == Err::<(), ActionError>(ActionError::BadIndices) && *final(self) == *old(self)
            } else {
                r is Ok && discarded(*old(self), *final(self), cards@)
            },
    {
        let c = self.curr_player_idx;
        if !crate::player::is_valid_selection(cards, self.players[c].hand.len()) {
            return Err(ActionError::BadIndices);
        }
        self.players[c].discard_cards(cards.as_slice());
        Ok(())
    }

    /// Ends the current player's turn and passes it on; reports the end of
    /// the game when a round completes with a player on the finish.
    pub fn finish_turn(&mut self, rng: &mut StdRng) -> (r: ActionOutcome)
        requires
            old(self).wf(),
        ensures
            final(self).wf(),
            turn_finished(*old(self), *final(self), r),
    {
        let c = self.curr_player_idx;
        let n = self.players.len();
        self.players[c].finish_turn(rng);
        let next = c + 1;
        if next == n {
            self.round_idx = self.round_idx.saturating_add(1);
            self.curr_player_idx = 0;
            if self.any_finished_player() {
                return ActionOutcome::GameOver;
            }
        } else {
            self.curr_player_idx = next;
        }
        ActionOutcome::Continue
    }

    /// Performs `action` for the current player. Every action is validated
    /// first; a refused action leaves the game as it was.
    #[verifier::spinoff_prover]
    #[verifier::rlimit(40)]
    pub fn process_action(&mut self, action: &PlayerAction, rng: &mut StdRng) -> (r: Result<ActionOutcome, ActionError>)
        requires
            old(self).wf(),
        ensures
            final(self).wf(),
            performed(*old(self), *final(self), *action, r),
    {
        match action {
            PlayerAction::BuyCard(b) => {
                self.handle_buy(b)?;
                Ok(ActionOutcome::Continue)
            },
            PlayerAction::Move(mv) => match self.handle_move(mv) {
                Ok(Some(i)) => Ok(ActionOutcome::IgnoreMoveIdx(i)),
                Ok(None) => Ok(ActionOutcome::Continue),
                Err(e) => Err(e),
            },
            PlayerAction::Draw(d) => {
                self.handle_draw(d, rng)?;
                Ok(ActionOutcome::Continue)
            },
            PlayerAction::Trash(t) => {
                self.handle_trash(t)?;
                Ok(ActionOutcome::Continue)
            },
            PlayerAction::Discard(cards) => {
                self.handle_discard(cards)?;
                Ok(ActionOutcome::Continue)
            },
            PlayerAction::FinishTurn => Ok(self.finish_turn(rng)),
        }
    }
}

/// The effect of performing `action` on `s0`, giving `s1` and the result
/// `r`: a refused action changes nothing, a legal one has the effect its
/// rules give.
pub open spec fn performed(s0: GameState, s1: GameState, action: PlayerAction, r: Result<ActionOutcome, ActionError>) -> bool {
    &&& (r is Err ==> s1 == s0)
    &&& match action {
        PlayerAction::BuyCard(b) => match buy_check(s0, b) {
            Err(e) => r == Err::<ActionOutcome, ActionError>(e),
            Ok(free) => r == Ok::<ActionOutcome, ActionError>(ActionOutcome::Continue) && bought(s0, s1, b, free),
        },
        PlayerAction::Move(mv) => match move_plan(s0, mv) {
            Err(e) => r == Err::<ActionOutcome, ActionError>(e),
            Ok(plan) => moved(s0, s1, mv, plan) && r == Ok::<ActionOutcome, ActionError>(
                match plan.ignore {
                    Some(i) => ActionOutcome::IgnoreMoveIdx(i as usize),
                    None => ActionOutcome::Continue,
                },
            ),
        },
        PlayerAction::Draw(d) => match draw_check(s0, d) {
            Err(e) => r == Err::<ActionOutcome, ActionError>(e),
            Ok(_) => r == Ok::<ActionOutcome, ActionError>(ActionOutcome::Continue) && drawn(s0, s1, d),
        },
        PlayerAction::Trash(t) => match trash_check(s0, t@) {
            Err(e) => r == Err::<ActionOutcome, ActionError>(e),
            Ok(_) => r == Ok::<ActionOutcome, ActionError>(ActionOutcome::Continue) && trashed(s0, s1, t@),
        },
        PlayerAction::Discard(cards) => if !valid_selection(cards@, s0.current().hand@.len() as int) {
            r == Err::<ActionOutcome, ActionError>(ActionError::BadIndices)
        } else {
            r == Ok::<ActionOutcome, ActionError>(ActionOutcome::Continue) && discarded(s0, s1, cards@)
        },
        PlayerAction::FinishTurn => r matches Ok(o) && turn_finished(s0, s1, o),
    }
}

/// Whether a trash action is legal.
pub open spec fn trash_check(s: GameState, t: Seq<usize>) -> Result<(), ActionError> {
    if !valid_selection(t, s.current().hand@.len() as int) {
        Err(ActionError::BadIndices)
    } else if t.len() > s.current().trashes {
        Err(ActionError::TooManyTrashes)
    } else {
        Ok(())
    }
}

/// The effect of a legal trash action.
pub open spec fn trashed(s0: GameState, s1: GameState, t: Seq<usize>) -> bool {
    let p0 = s0.current();
    let p1 = s1.current();
    &&& only_current_cards(s0, s1)
    &&& p1.hand@ == unselected(p0.hand@, t)
    &&& p1.deck@ == p0.deck@
    &&& p1.played@ == p0.played@
    &&& p1.discard@ == p0.discard@
    &&& p1.tokens@ == p0.tokens@
    &&& p1.trashes == p0.trashes - t.len()
    &&& p1.card_count() == p0.card_count() - t.len()
}

/// The effect of a discard action.
pub open spec fn discarded(s0: GameState, s1: GameState, cards: Seq<usize>) -> bool {
    let p0 = s0.current();
    let p1 = s1.current();
    &&& only_current_cards(s0, s1)
    &&& p1.hand@ == unselected(p0.hand@, cards)
    &&& p1.discard@ == p0.discard@ + crate::player::selected(p0.hand@, cards)
    &&& p1.deck@ == p0.deck@
    &&& p1.played@ == p0.played@
    &&& p1.tokens@ == p0.tokens@
    &&& p1.trashes == p0.trashes
    &&& p1.card_count() == p0.card_count()
}

/// The effect of finishing a turn: the current player's played cards are
/// discarded, the hand refilled and the allowances reset; the turn passes to
/// the next player, and after the last one the round advances and the game
/// ends if someone stands on the finish.
pub open spec fn turn_finished(s0: GameState, s1: GameState, r: ActionOutcome) -> bool {
    let c = s0.curr_player_idx as int;
    let p0 = s0.current();
    let p1 = s1.players@[c];
    let n = s0.players@.len();
    &&& s1.map == s0.map
    &&& s1.graph == s0.graph
    &&& s1.barriers == s0.barriers
    &&& s1.bonuses == s0.bonuses
    &&& s1.shop == s0.shop
    &&& s1.storage == s0.storage
    &&& s1.players@.len() == n
    &&& forall|i: int| 0 <= i < n && i != c ==> #[trigger] s1.players@[i] == s0.players@[i]
    &&& p1.card_count() == p0.card_count()
    &&& p1.played@.len() == 0
    &&& p1.hand@.take(p0.hand@.len() as int) == p0.hand@
    &&& p1.hand@.len() == (if p0.hand@.len() >= HAND_SIZE {
        p0.hand@.len() as int
    } else if HAND_SIZE <= p0.card_count() {
        HAND_SIZE as int
    } else {
        p0.card_count()
    })
    &&& p1.trashes == 0
    &&& p1.can_buy
    &&& p1.position == p0.position
    &&& p1.tokens@ == p0.tokens@
    &&& p1.visited_caves@ == p0.visited_caves@
    &&& p1.broken_barriers@ == p0.broken_barriers@
    &&& if c + 1 == n {
        &&& s1.curr_player_idx == 0
        &&& s1.round_idx == s0.round_idx.saturating_add(1)
        &&& (r == ActionOutcome::GameOver <==> exists|i: int| 0 <= i < n && s1.map.spec_is_finish(#[trigger] s1.players@[i].position))
        &&& (r == ActionOutcome::GameOver || r == ActionOutcome::Continue)
    } else {
        &&& s1.curr_player_idx == c + 1
        &&& s1.round_idx == s0.round_idx
        &&& r == ActionOutcome::Continue
    }
}

} // verus!
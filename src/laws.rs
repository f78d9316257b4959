use vstd::prelude::*;
use crate::game::{ActionOutcome, ActionError, GameState, PlayerAction, barrier_between, separates};
use crate::graph::{HexGraph, UNREACHABLE, has_closer_neighbor, on_finish, passable};
use crate::map::{HexMap, lemma_coords_round_trip, coord_lt};
use crate::market::reusable;
use crate::movement::{Walk, move_plan, spec_free_move, start_walk, walk};
use crate::player::{selected, unselected, valid_selection};
use crate::turn::performed;

verus! {

/// A well-formed map, as map construction yields, holds no coordinate
/// twice, and every coordinate leads back to its own index and node.
pub proof fn law_map_coordinates(m: HexMap)
    requires
        m.wf(),
    ensures
        forall|i: int, j: int| 0 <= i < j < m.coords@.len() ==> #[trigger] m.coords@[i] != #[trigger] m.coords@[j],
        forall|i: int|
            0 <= i < m.coords@.len() ==> m.index_of(#[trigger] m.coords@[i]) == Some(i) && m.spec_node_at(m.coords@[i])
                == Some(m.nodes@[i]),
{
    lemma_coords_round_trip(&m);
    assert forall|i: int, j: int| 0 <= i < j < m.coords@.len() implies #[trigger] m.coords@[i] != #[trigger] m.coords@[j] by {
        assert(coord_lt(m.coords@[i], m.coords@[j]));
    }
}

/// Distances to the finish: every finish hex is at zero, every reached hex
/// farther out has a neighbour exactly one step closer, and every hex of
/// cost ten or more off the finish board is unreachable.
pub proof fn law_finish_distances(m: HexMap, g: HexGraph)
    requires
        m.wf(),
        g.graph_of(m),
    ensures
        forall|v: int| 0 <= v < g.dists@.len() && on_finish(m, v) ==> #[trigger] g.dists@[v] == 0,
        forall|v: int|
            #![trigger g.dists@[v]]
            0 <= v < g.dists@.len() && 0 < g.dists@[v] < UNREACHABLE ==> exists|i: int|
                0 <= i < 6 && (#[trigger] g.adj@[v]@[i]) < g.dists@.len() && g.dists@[g.adj@[v]@[i] as int] == g.dists@[v] - 1,
        forall|v: int|
            0 <= v < g.dists@.len() && m.nodes@[v].cost >= 10 && !on_finish(m, v) ==> #[trigger] g.dists@[v] == UNREACHABLE,
{
    assert forall|v: int| #![trigger g.dists@[v]] 0 <= v < g.dists@.len() && 0 < g.dists@[v] < UNREACHABLE implies exists|i: int|
        0 <= i < 6 && (#[trigger] g.adj@[v]@[i]) < g.dists@.len() && g.dists@[g.adj@[v]@[i] as int] == g.dists@[v] - 1 by {
        assert(has_closer_neighbor(g.adj@, g.dists@, v));
    }
    assert forall|v: int| 0 <= v < g.dists@.len() && m.nodes@[v].cost >= 10 && !on_finish(m, v) implies #[trigger] g.dists@[v]
        == UNREACHABLE by {
        assert(!passable(m, v));
    }
}

/// Removing the selected elements leaves the others: as many as were not
/// selected.
pub proof fn lemma_unselected_len<T>(s: Seq<T>, idx: Seq<usize>)
    requires
        valid_selection(idx, s.len() as int),
        s.len() <= usize::MAX,
    ensures
        unselected(s, idx).len() + idx.len() == s.len(),
    decreases s.len(),
{
    if s.len() == 0 {
        if idx.len() > 0 {
            assert(idx[0] < s.len());
        }
    } else {
        let last = (s.len() - 1) as usize;
        if idx.contains(last) {
            let k = choose|k: int| 0 <= k < idx.len() && idx[k] == last;
            assert(k == idx.len() - 1) by {
                if k < idx.len() - 1 {
                    assert(idx[k] < idx[idx.len() - 1]);
                    assert(idx[idx.len() - 1] < s.len());
                }
            }
            let shorter = idx.drop_last();
            assert(valid_selection(shorter, s.len() - 1)) by {
                assert forall|a: int| 0 <= a < shorter.len() implies #[trigger] shorter[a] < s.len() - 1 by {
                    assert(idx[a] < idx[k]);
                }
            }
            assert forall|i: int| #![trigger idx.contains(i as usize)] #![trigger shorter.contains(i as usize)] 0 <= i < s.len() - 1 implies (idx.contains(i as usize) <==> shorter.contains(i as usize)) by {
                if idx.contains(i as usize) {
                    let j = choose|j: int| 0 <= j < idx.len() && idx[j] == i as usize;
                    assert(j != k);
                    assert(shorter[j] == i as usize);
                }
                if shorter.contains(i as usize) {
                    let j = choose|j: int| 0 <= j < shorter.len() && shorter[j] == i as usize;
                    assert(idx[j] == i as usize);
                }
            }
            lemma_unselected_same(s.drop_last(), idx, shorter);
            lemma_unselected_len(s.drop_last(), shorter);
        } else {
            assert(valid_selection(idx, s.len() - 1)) by {
                assert forall|a: int| 0 <= a < idx.len() implies #[trigger] idx[a] < s.len() - 1 by {
                    if idx[a] == last {
                        assert(idx.contains(last));
                    }
                }
            }
            lemma_unselected_len(s.drop_last(), idx);
        }
    }
}

/// Selections that agree on every index of `s` leave the same elements.
proof fn lemma_unselected_same<T>(s: Seq<T>, a: Seq<usize>, b: Seq<usize>)
    requires
        forall|i: int| #![trigger a.contains(i as usize)] #![trigger b.contains(i as usize)] 0 <= i < s.len() ==> (a.contains(i as usize) <==> b.contains(i as usize)),
    ensures
        unselected(s, a) == unselected(s, b),
    decreases s.len(),
{
    if s.len() > 0 {
        lemma_unselected_same(s.drop_last(), a, b);
    }
}

/// Cards that leave the game through a successful action of the current
/// player: trashed cards, and single-use cards spent.
pub open spec fn cards_removed(s0: GameState, a: PlayerAction, r: Result<ActionOutcome, ActionError>) -> int {
    let p = s0.current();
    if r is Err {
        0
    } else {
        match a {
            PlayerAction::Trash(t) => t@.len() as int,
            PlayerAction::Move(mv) => match move_plan(s0, mv) {
                Ok(plan) => if plan.cave is None && plan.trash { mv.cards@.len() as int } else { 0 },
                Err(_) => 0,
            },
            PlayerAction::BuyCard(b) => b.cards@.len() - reusable(selected(p.hand@, b.cards@)).len(),
            PlayerAction::Draw(d) => match d.card {
                Some(i) => if p.hand@[i as int].single_use && d.token is None { 1 } else { 0 },
                None => 0,
            },
            _ => 0,
        }
    }
}

/// Cards that join the current player through a successful action: one
/// bought card.
pub open spec fn cards_gained(a: PlayerAction, r: Result<ActionOutcome, ActionError>) -> int {
    if r is Ok && a is BuyCard {
        1
    } else {
        0
    }
}

/// No action changes how many cards a player owns, except that the acting
/// player loses exactly the cards trashed or spent for good and gains the
/// card bought.
pub proof fn law_card_count(s0: GameState, s1: GameState, a: PlayerAction, r: Result<ActionOutcome, ActionError>)
    requires
        s0.wf(),
        s0.current().hand@.len() <= usize::MAX,
        performed(s0, s1, a, r),
    ensures
        s1.players@.len() == s0.players@.len(),
        forall|i: int| 0 <= i < s0.players@.len() && i != s0.curr_player_idx ==> #[trigger] s1.players@[i].card_count() == s0.players@[i].card_count(),
        s1.players@[s0.curr_player_idx as int].card_count() == s0.current().card_count() - cards_removed(s0, a, r) + cards_gained(a, r),
{
    let p0 = s0.current();
    if r is Ok {
        match a {
            PlayerAction::Move(mv) => {
                let plan = move_plan(s0, mv).unwrap();
                if plan.cave is None {
                    lemma_unselected_len(p0.hand@, mv.cards@);
                }
            },
            PlayerAction::BuyCard(b) => {
                lemma_unselected_len(p0.hand@, b.cards@);
            },
            _ => {},
        }
    }
}

/// A boundary without a barrier never gains one again: breaking a barrier is
/// permanent and holds for every player.
pub proof fn law_barriers_stay_broken(
    s0: GameState,
    s1: GameState,
    a: PlayerAction,
    r: Result<ActionOutcome, ActionError>,
    x: int,
    y: int,
)
    requires
        s0.wf(),
        performed(s0, s1, a, r),
        barrier_between(s0.barriers@, x, y) is None,
    ensures
        barrier_between(s1.barriers@, x, y) is None,
{
    if r is Ok {
        if let PlayerAction::Move(mv) = a {
            let plan = move_plan(s0, mv).unwrap();
            if plan.cave is None {
                if let Some(b) = plan.barrier {
                    assert forall|k: int| 0 <= k < s1.barriers@.len() implies !separates(s1.barriers@[k], x, y) by {
                        let k0 = if k < b { k } else { k + 1 };
                        assert(s1.barriers@[k] == s0.barriers@[k0]);
                        assert(!separates(s0.barriers@[k0], x, y));
                    }
                }
            }
        }
    }
}

/// Breaking a barrier removes it for every player: when no two barriers
/// share a pair of boards, no barrier is left between the boards it joined.
pub proof fn law_breaking_removes_barrier(
    s0: GameState,
    s1: GameState,
    mv: crate::game::MoveAction,
    r: Result<ActionOutcome, ActionError>,
)
    requires
        s0.wf(),
        performed(s0, s1, PlayerAction::Move(mv), r),
        move_plan(s0, mv) matches Ok(plan) && plan.cave is None && plan.barrier is Some,
        forall|i: int, j: int|
            0 <= i < s0.barriers@.len() && 0 <= j < s0.barriers@.len() && i != j ==> !separates(
                #[trigger] s0.barriers@[j],
                #[trigger] s0.barriers@[i].from_board as int,
                s0.barriers@[i].to_board as int,
            ),
    ensures
        ({
            let b = move_plan(s0, mv).unwrap().barrier.unwrap();
            barrier_between(s1.barriers@, s0.barriers@[b].from_board as int, s0.barriers@[b].to_board as int) is None
        }),
{
    let b = move_plan(s0, mv).unwrap().barrier.unwrap();
    let x = s0.barriers@[b].from_board as int;
    let y = s0.barriers@[b].to_board as int;
    assert forall|k: int| 0 <= k < s1.barriers@.len() implies !separates(s1.barriers@[k], x, y) by {
        let k0 = if k < b { k } else { k + 1 };
        assert(s1.barriers@[k] == s0.barriers@[k0]);
        assert(k0 != b);
        assert(!separates(s0.barriers@[k0], s0.barriers@[b].from_board as int, s0.barriers@[b].to_board as int));
    }
}

/// With one card and no tokens, a movement-typed walk fails when some cost
/// exceeds the card's capacity of that type, and succeeds when the card
/// covers every cost of the walk's single type.
pub proof fn law_card_capacity(s: GameState, mv: crate::game::MoveAction, w: Walk)
    requires
        s.wf(),
        valid_selection(mv.cards@, s.current().hand@.len() as int),
        mv.cards@.len() == 1,
        mv.tokens@.len() == 0,
        mv.path@.len() > 0,
        s.map.spec_node_at(s.current().position) is Some,
        walk(s, mv, start_walk(s.current().position, s.map.spec_node_at(s.current().position).unwrap()), mv.path@.len() as int) == Ok::<Walk, ActionError>(w),
        w.cave is None,
        w.card_cost == 0,
        !spec_free_move(mv, s.current()),
    ensures
        ({
            let m = s.current().hand@[mv.cards@[0] as int].movement;
            (w.cost.0 > m[0] || w.cost.1 > m[1] || w.cost.2 > m[2]) ==> move_plan(s, mv) is Err
        }),
        ({
            let m = s.current().hand@[mv.cards@[0] as int].movement;
            let c = w.cost;
            (c.0 + c.1 + c.2 == crate::movement::max3(c) && c.0 <= m[0] && c.1 <= m[1] && c.2 <= m[2]) ==> move_plan(s, mv) is Ok
        }),
{
    assert(valid_selection(mv.tokens@, s.current().tokens@.len() as int));
    assert(!crate::game::uses_token(s.current().tokens@, mv.tokens@, crate::hex::BonusToken::SwapSymbol));
}

} // verus!

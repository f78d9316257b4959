use vstd::prelude::*;
use rand::rngs::StdRng;
use crate::cards::{BuyableCard, CardAction};
use crate::game::{BuyIndex, GameState};
use crate::graph::{HexGraph, neighbor_list};
use crate::hex::{AxialCoord, Barrier, BonusToken, HexDirection, Node, Terrain};
use crate::map::{Assets, HexMap, MapError, built_from, first_preset, has_preset};
use crate::player::Player;
use crate::random::shuffle;

verus! {

/// Why a game could not be set up.
#[derive(Clone, Copy, Debug, PartialEq, Eq, Structural)]
pub enum GameError {
    /// A game has two to four players.
    InvalidPlayerCount,
    Layout(MapError),
    /// The map has more hexes than distances can count.
    MapTooLarge,
    /// Fewer nodes lie at the largest distance than there are players.
    NotEnoughStarts,
}

/// Every card on sale in the shop when a game starts, by cost.
pub open spec fn initial_shop() -> Seq<BuyableCard> {
    seq![
        listed(2, [2, 0, 0], false, None),
        listed(4, [1, 1, 1], false, None),
        listed(4, [0, 2, 0], false, None),
        listed(6, [3, 0, 0], false, None),
        listed(6, [0, 4, 0], true, None),
        listed(8, [0, 0, 0], true, Some(CardAction::FreeBuy)),
    ]
}

/// Every card waiting in storage when a game starts.
pub open spec fn initial_storage() -> Seq<BuyableCard> {
    seq![
        listed(4, [0, 0, 3], false, None),
        listed(4, [0, 0, 0], true, Some(CardAction::Draw(3))),
        listed(6, [0, 3, 0], false, None),
        listed(6, [6, 0, 0], true, None),
        listed(6, [0, 0, 0], true, Some(CardAction::DrawAndTrash(2))),
        listed(8, [2, 2, 2], false, None),
        listed(8, [4, 4, 4], true, None),
        listed(8, [0, 0, 0], false, Some(CardAction::Draw(2))),
        listed(8, [0, 0, 0], false, Some(CardAction::DrawAndTrash(1))),
        listed(10, [0, 4, 0], false, None),
        listed(10, [5, 0, 0], false, None),
        listed(10, [0, 0, 0], false, Some(CardAction::FreeMove)),
    ]
}

/// A listing with three copies.
pub open spec fn listed(cost: u8, movement: [u8; 3], single_use: bool, action: Option<CardAction>) -> BuyableCard {
    BuyableCard { cost, card: crate::cards::Card { movement, single_use, action }, quantity: 3 }
}

/// The barrier kinds a game draws from.
pub open spec fn barrier_kinds() -> Seq<(Terrain, u8)> {
    seq![(Terrain::Jungle, 1), (Terrain::Jungle, 2), (Terrain::Desert, 1), (Terrain::Water, 1), (Terrain::Swamp, 1), (Terrain::Swamp, 2)]
}

/// The tokens the caves share out.
pub open spec fn token_pool() -> Seq<BonusToken> {
    seq![
        BonusToken::Jungle(1), BonusToken::Jungle(1), BonusToken::Jungle(2), BonusToken::Jungle(2),
        BonusToken::Jungle(2), BonusToken::Jungle(3), BonusToken::Jungle(3), BonusToken::Desert(1),
        BonusToken::Desert(1), BonusToken::Desert(2), BonusToken::Desert(2), BonusToken::Desert(2),
        BonusToken::Water(1), BonusToken::Water(1), BonusToken::Water(2), BonusToken::Water(2),
        BonusToken::Water(2), BonusToken::DrawCard, BonusToken::DrawCard, BonusToken::DrawCard,
        BonusToken::DrawCard, BonusToken::TrashCard, BonusToken::TrashCard, BonusToken::TrashCard,
        BonusToken::TrashCard, BonusToken::ReplaceHand, BonusToken::ReplaceHand, BonusToken::ReplaceHand,
        BonusToken::DoubleUse, BonusToken::DoubleUse, BonusToken::ShareHex, BonusToken::ShareHex,
        BonusToken::FreeMove, BonusToken::FreeMove, BonusToken::SwapSymbol, BonusToken::SwapSymbol,
    ]
}

/// Which setup outcome a layout allows: a map error exactly when building
/// the map fails with it, a size error only for a map too large, too few
/// starts only when the built map has fewer nodes at the largest distance
/// than players, and otherwise a game on the built map.
pub open spec fn set_up_from(layout: Seq<crate::hex::LayoutInfo>, boards: Seq<crate::map::BoardTemplate>, num_players: usize, r: Result<GameState, GameError>) -> bool {
    match r {
        Err(GameError::Layout(e)) => built_from(layout, boards, Err(e)),
        Err(GameError::MapTooLarge) => exists|m: HexMap| built_from(layout, boards, Ok(m)) && m.coords@.len() >= i32::MAX,
        Err(GameError::NotEnoughStarts) => exists|m: HexMap, g: HexGraph|
            built_from(layout, boards, Ok(m)) && m.coords@.len() < i32::MAX && g.graph_of(m) && nodes_at_distance(
                g.dists@,
                g.max_dist,
                g.dists@.len() as int,
            ).len() < num_players,
        Err(GameError::InvalidPlayerCount) => false,
        Ok(g) => built_from(layout, boards, Ok(g.map)),
    }
}

/// How many barriers a map with finish board `finish` gets: one per
/// boundary before the finish board, while the barrier kinds last.
pub open spec fn barrier_count(finish: u8) -> int {
    if finish <= 1 {
        0
    } else if finish - 1 >= 6 {
        6
    } else {
        finish - 1
    }
}

/// The indices of the first `n` nodes whose distance is `d`, in order.
pub open spec fn nodes_at_distance(dists: Seq<i32>, d: i32, n: int) -> Seq<int>
    decreases n,
{
    if n <= 0 {
        Seq::empty()
    } else if dists[n - 1] == d {
        nodes_at_distance(dists, d, n - 1).push(n - 1)
    } else {
        nodes_at_distance(dists, d, n - 1)
    }
}

/// The steps from node `a` onto board `to`, over the first `i` directions.
pub open spec fn node_edges(m: HexMap, g: HexGraph, a: int, to: int, i: int) -> Seq<(AxialCoord, HexDirection)>
    decreases i,
{
    if i <= 0 {
        Seq::empty()
    } else {
        let prev = node_edges(m, g, a, to, i - 1);
        let v = g.adj@[a]@[i - 1];
        if v < m.nodes@.len() && m.nodes@[v as int].board_idx as int == to {
            prev.push((m.coords@[a], crate::hex::direction_at(i - 1)))
        } else {
            prev
        }
    }
}

/// The steps from board `from` onto board `to`, over the first `n` nodes,
/// in node and direction order.
pub open spec fn edges_upto(m: HexMap, g: HexGraph, from: int, to: int, n: int) -> Seq<(AxialCoord, HexDirection)>
    decreases n,
{
    if n <= 0 {
        Seq::empty()
    } else {
        let prev = edges_upto(m, g, from, to, n - 1);
        if m.nodes@[n - 1].board_idx as int != from {
            prev
        } else {
            prev + node_edges(m, g, n - 1, to, 6)
        }
    }
}

/// The caves among the first `n` nodes, in map order.
pub open spec fn caves_upto(m: HexMap, n: int) -> Seq<AxialCoord>
    decreases n,
{
    if n <= 0 {
        Seq::empty()
    } else if m.nodes@[n - 1].terrain == Terrain::Cave {
        caves_upto(m, n - 1).push(m.coords@[n - 1])
    } else {
        caves_upto(m, n - 1)
    }
}

/// Every step from board `from` onto board `to`.
pub fn edges_between_boards(map: &HexMap, graph: &HexGraph, from_board: usize, to_board: usize) -> (r: Vec<(AxialCoord, HexDirection)>)
    requires
        map.coords@.len() == map.nodes@.len(),
        graph.adj@.len() == map.nodes@.len(),
    ensures
        r@ == edges_upto(*map, *graph, from_board as int, to_board as int, map.nodes@.len() as int),
{
    let mut edges: Vec<(AxialCoord, HexDirection)> = Vec::new();
    let mut a: usize = 0;
    while a < map.nodes.len()
        invariant
            map.coords@.len() == map.nodes@.len(),
            graph.adj@.len() == map.nodes@.len(),
            a <= map.nodes@.len(),
            edges@ == edges_upto(*map, *graph, from_board as int, to_board as int, a as int),
        decreases map.nodes@.len() - a,
    {
        if map.nodes[a].board_idx as usize == from_board {
            let ghost before = edges@;
            let mut i: usize = 0;
            while i < 6
                invariant
                    map.coords@.len() == map.nodes@.len(),
                    graph.adj@.len() == map.nodes@.len(),
                    a < map.nodes@.len(),
                    i <= 6,
                    edges@ == before + node_edges(*map, *graph, a as int, to_board as int, i as int),
                decreases 6 - i,
            {
                let v = graph.adj[a][i];
                if v < map.nodes.len() && map.nodes[v].board_idx as usize == to_board {
                    edges.push((map.coords[a], HexDirection::from_index(i)));
                    assert(edges@ =~= before + node_edges(*map, *graph, a as int, to_board as int, i + 1));
                }
                i = i + 1;
            }
        }
        a = a + 1;
    }
    edges
}

/// Indices of the nodes at distance `d`, in map order.
fn nodes_with_distance(dists: &Vec<i32>, d: i32) -> (r: Vec<usize>)
    ensures
        r@.len() == nodes_at_distance(dists@, d, dists@.len() as int).len(),
        forall|k: int| 0 <= k < r@.len() ==> #[trigger] r@[k] as int == nodes_at_distance(dists@, d, dists@.len() as int)[k],
        forall|k: int| 0 <= k < r@.len() ==> #[trigger] r@[k] < dists@.len() && dists@[r@[k] as int] == d,
        forall|a: int, b: int| 0 <= a < b < r@.len() ==> #[trigger] r@[a] < #[trigger] r@[b],
{
    let mut out: Vec<usize> = Vec::new();
    let mut i: usize = 0;
    while i < dists.len()
        invariant
            i <= dists@.len(),
            out@.len() == nodes_at_distance(dists@, d, i as int).len(),
            forall|k: int| 0 <= k < out@.len() ==> #[trigger] out@[k] as int == nodes_at_distance(dists@, d, i as int)[k],
            forall|k: int| 0 <= k < out@.len() ==> #[trigger] out@[k] < i && dists@[out@[k] as int] == d,
            forall|a: int, b: int| 0 <= a < b < out@.len() ==> #[trigger] out@[a] < #[trigger] out@[b],
        decreases dists@.len() - i,
    {
        if dists[i] == d {
            out.push(i);
        }
        i = i + 1;
    }
    out
}

impl GameState {
    /// Sets up a game for `num_players` players on the named preset: barrier
    /// kinds are shuffled onto consecutive board boundaries, players start on
    /// distinct nodes at the largest distance from the finish, and caves
    /// receive four shuffled tokens each while the pool lasts.
    #[verifier::spinoff_prover]
    #[verifier::rlimit(60)]
    pub fn new(num_players: usize, preset: &str, assets: &Assets, rng: &mut StdRng) -> (r: Result<GameState, GameError>)
        ensures
            !(2 <= num_players <= 4) <==> r == Err::<GameState, GameError>(GameError::InvalidPlayerCount),
            2 <= num_players <= 4 && !has_preset(assets.presets@, preset@) ==> r == Err::<GameState, GameError>(
                GameError::Layout(MapError::UnknownLayout),
            ),
            2 <= num_players <= 4 && has_preset(assets.presets@, preset@) ==> exists|k: int|
                first_preset(assets.presets@, preset@, k) && set_up_from(
                    (#[trigger] assets.presets@[k]).layout@,
                    assets.boards@,
                    num_players,
                    r,
                ),
            r matches Ok(g) ==> {
                &&& g.wf()
                &&& g.players@.len() == num_players
                &&& g.curr_player_idx == 0
                &&& g.round_idx == 0
                &&& g.shop@ == initial_shop()
                &&& g.storage@ == initial_storage()
                &&& forall|i: int|
                    0 <= i < g.barriers@.len() ==> {
                        let b = #[trigger] g.barriers@[i];
                        &&& b.from_board == i
                        &&& b.to_board == i + 1
                        &&& b.edges@ == edges_upto(g.map, g.graph, i, i + 1, g.map.nodes@.len() as int)
                    }
                &&& nodes_at_distance(g.graph.dists@, g.graph.max_dist, g.graph.dists@.len() as int).len() >= num_players
                &&& forall|k: int|
                    0 <= k < num_players ==> (#[trigger] g.players@[k]).position == g.map.coords@[nodes_at_distance(
                        g.graph.dists@,
                        g.graph.max_dist,
                        g.graph.dists@.len() as int,
                    )[k]]
                &&& forall|k: int|
                    0 <= k < num_players ==> {
                        let p = #[trigger] g.players@[k];
                        &&& p.hand@.len() == 4
                        &&& p.deck@.len() == 4
                        &&& (p.deck@ + p.hand@).to_multiset() == crate::player::starting_cards().to_multiset()
                        &&& p.played@.len() == 0
                        &&& p.discard@.len() == 0
                        &&& p.tokens@.len() == 0
                        &&& p.trashes == 0
                        &&& p.can_buy
                    }
                &&& forall|k: int|
                    0 <= k < g.bonuses@.len() ==> (#[trigger] g.bonuses@[k]).1@.len() == 4
                        && g.bonuses@[k].0 == caves_upto(g.map, g.map.nodes@.len() as int)[k]
                &&& g.bonuses@.len() == if caves_upto(g.map, g.map.nodes@.len() as int).len() < 9 {
                    caves_upto(g.map, g.map.nodes@.len() as int).len() as int
                } else {
                    9
                }
                &&& forall|k: int, j: int|
                    0 <= k < g.bonuses@.len() && 0 <= j < 4 ==> token_pool().contains(#[trigger] g.bonuses@[k].1@[j])
                &&& g.barriers@.len() == barrier_count(g.map.finish_idx)
                &&& forall|i: int|
                    0 <= i < g.barriers@.len() ==> barrier_kinds().contains(
                        ((#[trigger] g.barriers@[i]).terrain, g.barriers@[i].cost),
                    )
            },
    {
        if num_players < 2 || num_players > 4 {
            return Err(GameError::InvalidPlayerCount);
        }
        let built = HexMap::create_named(preset, assets);
        let ghost k = choose|k: int|
            first_preset(assets.presets@, preset@, k) && built_from(assets.presets@[k].layout@, assets.boards@, built);
        let ghost layout = assets.presets@[k].layout@;
        let map = match built {
            Ok(m) => m,
            Err(e) => {
                assert(has_preset(assets.presets@, preset@) ==> first_preset(assets.presets@, preset@, k) && set_up_from(
                    layout,
                    assets.boards@,
                    num_players,
                    Err::<GameState, GameError>(GameError::Layout(e)),
                ));
                return Err(GameError::Layout(e));
            },
        };
        if map.len() >= 0x7fff_ffff {
            assert(set_up_from(layout, assets.boards@, num_players, Err::<GameState, GameError>(GameError::MapTooLarge)));
            return Err(GameError::MapTooLarge);
        }
        let graph = HexGraph::new(&map);
        // Barriers between consecutive boards.
        let mut kinds: Vec<(Terrain, u8)> = vec![
            (Terrain::Jungle, 1),
            (Terrain::Jungle, 2),
            (Terrain::Desert, 1),
            (Terrain::Water, 1),
            (Terrain::Swamp, 1),
            (Terrain::Swamp, 2),
        ];
        assert(kinds@ =~= barrier_kinds());
        shuffle(&mut kinds, rng);
        let boundaries = (map.finish_idx as usize).saturating_sub(1);
        let mut barriers: Vec<Barrier> = Vec::new();
        let mut i: usize = 0;
        while i < kinds.len() && i < boundaries
            invariant
                map.wf(),
                graph.graph_of(map),
                kinds@.len() == 6,
                kinds@.to_multiset() == barrier_kinds().to_multiset(),
                boundaries == (map.finish_idx as usize).saturating_sub(1),
                i <= 6,
                i <= boundaries,
                barriers@.len() == i,
                forall|k: int| 0 <= k < i ==> barrier_kinds().contains(((#[trigger] barriers@[k]).terrain, barriers@[k].cost)),
                forall|k: int|
                    0 <= k < i ==> {
                        let b = #[trigger] barriers@[k];
                        &&& b.from_board == k
                        &&& b.to_board == k + 1
                        &&& b.edges@ == edges_upto(map, graph, k, k + 1, map.nodes@.len() as int)
                    },
            decreases 6 - i,
        {
            let (terrain, cost) = kinds[i];
            proof {
                broadcast use vstd::seq_lib::group_to_multiset_ensures;
                assert(kinds@.contains((terrain, cost)));
                assert(barrier_kinds().to_multiset().count((terrain, cost)) > 0);
            }
            let edges = edges_between_boards(&map, &graph, i, i + 1);
            barriers.push(Barrier { from_board: i, to_board: i + 1, terrain, cost, edges });
            i = i + 1;
        }
        // Starting positions.
        let starts = nodes_with_distance(&graph.dists, graph.max_dist);
        if starts.len() < num_players {
            assert(set_up_from(layout, assets.boards@, num_players, Err::<GameState, GameError>(GameError::NotEnoughStarts)));
            return Err(GameError::NotEnoughStarts);
        }
        let mut players: Vec<Player> = Vec::new();
        let mut k: usize = 0;
        while k < num_players
            invariant
                map.wf(),
                graph.graph_of(map),
                k <= num_players,
                num_players <= starts@.len(),
                players@.len() == k,
                starts@.len() == nodes_at_distance(graph.dists@, graph.max_dist, graph.dists@.len() as int).len(),
                forall|t: int| 0 <= t < starts@.len() ==> #[trigger] starts@[t] as int == nodes_at_distance(graph.dists@, graph.max_dist, graph.dists@.len() as int)[t],
                forall|t: int| 0 <= t < starts@.len() ==> #[trigger] starts@[t] < graph.dists@.len(),
                forall|t: int| 0 <= t < k ==> (#[trigger] players@[t]).position == map.coords@[starts@[t] as int],
                forall|t: int|
                    0 <= t < k ==> {
                        let p = #[trigger] players@[t];
                        &&& p.hand@.len() == 4
                        &&& p.deck@.len() == 4
                        &&& (p.deck@ + p.hand@).to_multiset() == crate::player::starting_cards().to_multiset()
                        &&& p.played@.len() == 0
                        &&& p.discard@.len() == 0
                        &&& p.tokens@.len() == 0
                        &&& p.trashes == 0
                        &&& p.can_buy
                    },
            decreases num_players - k,
        {
            let idx = starts[k];
            let pos = map.coords[idx];
            players.push(Player::new(pos, rng));
            k = k + 1;
        }
        // Cave bonuses.
        let mut pool: Vec<BonusToken> = vec![
            BonusToken::Jungle(1), BonusToken::Jungle(1), BonusToken::Jungle(2), BonusToken::Jungle(2),
            BonusToken::Jungle(2), BonusToken::Jungle(3), BonusToken::Jungle(3), BonusToken::Desert(1),
            BonusToken::Desert(1), BonusToken::Desert(2), BonusToken::Desert(2), BonusToken::Desert(2),
            BonusToken::Water(1), BonusToken::Water(1), BonusToken::Water(2), BonusToken::Water(2),
            BonusToken::Water(2), BonusToken::DrawCard, BonusToken::DrawCard, BonusToken::DrawCard,
            BonusToken::DrawCard, BonusToken::TrashCard, BonusToken::TrashCard, BonusToken::TrashCard,
            BonusToken::TrashCard, BonusToken::ReplaceHand, BonusToken::ReplaceHand, BonusToken::ReplaceHand,
            BonusToken::DoubleUse, BonusToken::DoubleUse, BonusToken::ShareHex, BonusToken::ShareHex,
            BonusToken::FreeMove, BonusToken::FreeMove, BonusToken::SwapSymbol, BonusToken::SwapSymbol,
        ];
        assert(pool@ =~= token_pool());
        shuffle(&mut pool, rng);
        proof {
            broadcast use vstd::seq_lib::group_to_multiset_ensures;
            assert forall|t: BonusToken| pool@.contains(t) implies token_pool().contains(t) by {
                assert(pool@.to_multiset().count(t) > 0);
            }
        }
        let mut bonuses: Vec<(AxialCoord, Vec<BonusToken>)> = Vec::new();
        let mut a: usize = 0;
        while a < map.nodes.len()
            invariant
                map.wf(),
                a <= map.nodes@.len(),
                pool@.len() + 4 * bonuses@.len() == 36,
                forall|t: BonusToken| pool@.contains(t) ==> token_pool().contains(t),
                forall|k: int, j: int| 0 <= k < bonuses@.len() && 0 <= j < 4 ==> token_pool().contains(#[trigger] bonuses@[k].1@[j]),
                bonuses@.len() <= caves_upto(map, a as int).len(),
                bonuses@.len() < caves_upto(map, a as int).len() ==> pool@.len() < 4,
                forall|k: int|
                    0 <= k < bonuses@.len() ==> (#[trigger] bonuses@[k]).1@.len() == 4 && bonuses@[k].0 == caves_upto(map, a as int)[k],
            decreases map.nodes@.len() - a,
        {
            let ghost before = caves_upto(map, a as int);
            if map.nodes[a].terrain == Terrain::Cave && pool.len() >= 4 {
                let split = pool.len() - 4;
                let ghost whole = pool@;
                let stack = pool.split_off(split);
                proof {
                    assert forall|j: int| 0 <= j < 4 implies token_pool().contains(#[trigger] stack@[j]) by {
                        assert(whole.contains(whole[split + j]));
                    }
                    assert forall|t: BonusToken| pool@.contains(t) implies token_pool().contains(t) by {
                        let x = choose|x: int| 0 <= x < pool@.len() && pool@[x] == t;
                        assert(whole.contains(whole[x]));
                    }
                }
                bonuses.push((map.coords[a], stack));
            }
            proof {
                let now = caves_upto(map, a + 1);
                if map.nodes@[a as int].terrain == Terrain::Cave {
                    assert(now == before.push(map.coords@[a as int]));
                    assert forall|k: int| 0 <= k < bonuses@.len() implies (#[trigger] bonuses@[k]).1@.len() == 4 && bonuses@[k].0 == now[k] by {
                        if k < before.len() {
                            assert(now[k] == before[k]);
                        }
                    }
                } else {
                    assert(now == before);
                }
            }
            a = a + 1;
        }
        let shop = vec![
            BuyableCard::regular(2, [2, 0, 0]),
            BuyableCard::regular(4, [1, 1, 1]),
            BuyableCard::regular(4, [0, 2, 0]),
            BuyableCard::regular(6, [3, 0, 0]),
            BuyableCard::single_use(6, [0, 4, 0]),
            BuyableCard::action(8, CardAction::FreeBuy, true),
        ];
        let storage = vec![
            BuyableCard::regular(4, [0, 0, 3]),
            BuyableCard::action(4, CardAction::Draw(3), true),
            BuyableCard::regular(6, [0, 3, 0]),
            BuyableCard::single_use(6, [6, 0, 0]),
            BuyableCard::action(6, CardAction::DrawAndTrash(2), true),
            BuyableCard::regular(8, [2, 2, 2]),
            BuyableCard::single_use(8, [4, 4, 4]),
            BuyableCard::action(8, CardAction::Draw(2), false),
            BuyableCard::action(8, CardAction::DrawAndTrash(1), false),
            BuyableCard::regular(10, [0, 4, 0]),
            BuyableCard::regular(10, [5, 0, 0]),
            BuyableCard::action(10, CardAction::FreeMove, false),
        ];
        assert(shop@ =~= initial_shop());
        assert(storage@ =~= initial_storage());
        let g = GameState { map, graph, barriers, players, shop, storage, bonuses, curr_player_idx: 0, round_idx: 0 };
        assert(set_up_from(layout, assets.boards@, num_players, Ok::<GameState, GameError>(g)));
        Ok(g)
    }
}

/// The score of a player standing on node `idx`: distance made good from
/// the farthest node, plus barriers broken, plus a thousand on the finish.
pub open spec fn score_at(g: HexGraph, idx: int, broken: int) -> int {
    let d = g.dists@[idx] as int;
    g.max_dist - d + broken + if d == 0 { 1000int } else { 0int }
}

impl GameState {
    /// Rebuilds a game from a stored map and players, starting at the given
    /// round with the first player to act; barriers, market and caves start
    /// empty.
    pub fn from_parts(map: HexMap, players: Vec<Player>, round_idx: usize) -> (r: Result<GameState, GameError>)
        requires
            map.wf(),
        ensures
            r is Err <==> (players@.len() == 0 || map.coords@.len() >= i32::MAX),
            r matches Ok(g) ==> {
                &&& g.wf()
                &&& g.map == map
                &&& g.players@ == players@
                &&& g.round_idx == round_idx
                &&& g.curr_player_idx == 0
                &&& g.barriers@.len() == 0
                &&& g.shop@.len() == 0
                &&& g.storage@.len() == 0
                &&& g.bonuses@.len() == 0
            },
    {
        if players.len() == 0 {
            return Err(GameError::InvalidPlayerCount);
        }
        if map.len() >= 0x7fff_ffff {
            return Err(GameError::MapTooLarge);
        }
        let graph = HexGraph::new(&map);
        Ok(GameState {
            map,
            graph,
            barriers: Vec::new(),
            players,
            shop: Vec::new(),
            storage: Vec::new(),
            bonuses: Vec::new(),
            curr_player_idx: 0,
            round_idx,
        })
    }

    /// Each player's score, in player order.
    pub fn player_scores(&self) -> (r: Vec<i64>)
        requires
            self.wf(),
            forall|i: int| 0 <= i < self.players@.len() ==> self.map.contains(#[trigger] self.players@[i].position),
            forall|i: int| 0 <= i < self.players@.len() ==> (#[trigger] self.players@[i]).broken_barriers@.len() <= i32::MAX,
        ensures
            r@.len() == self.players@.len(),
            forall|i: int|
                0 <= i < r@.len() ==> #[trigger] r@[i] == score_at(
                    self.graph,
                    self.map.index_of(self.players@[i].position).unwrap(),
                    self.players@[i].broken_barriers@.len() as int,
                ),
    {
        let mut out: Vec<i64> = Vec::new();
        let mut i: usize = 0;
        while i < self.players.len()
            invariant
                self.wf(),
                forall|j: int| 0 <= j < self.players@.len() ==> self.map.contains(#[trigger] self.players@[j].position),
                forall|j: int| 0 <= j < self.players@.len() ==> (#[trigger] self.players@[j]).broken_barriers@.len() <= i32::MAX,
                i <= self.players@.len(),
                out@.len() == i,
                forall|j: int|
                    0 <= j < i ==> #[trigger] out@[j] == score_at(
                        self.graph,
                        self.map.index_of(self.players@[j].position).unwrap(),
                        self.players@[j].broken_barriers@.len() as int,
                    ),
            decreases self.players@.len() - i,
        {
            let p = &self.players[i];
            assert(self.map.contains(p.position));
            let idx = self.map.node_idx(p.position).unwrap();
            let d = self.graph.dists[idx] as i64;
            let mut score = self.graph.max_dist as i64 - d + p.broken_barriers.len() as i64;
            if d == 0 {
                score = score + 1000;
            }
            out.push(score);
            i = i + 1;
        }
        out
    }

    /// The listing that `idx` names.
    pub fn buyable_card(&self, idx: &BuyIndex) -> (r: &BuyableCard)
        requires
            crate::market::listing(*self, *idx) is Some,
        ensures
            crate::market::listing(*self, *idx) == Some(*r),
    {
        match idx {
            BuyIndex::Shop(i) => &self.shop[*i],
            BuyIndex::Storage(i) => &self.storage[*i],
        }
    }

    /// The listings a player can buy from: the shop, and storage too while
    /// the shop has room.
    pub fn all_buyable_cards(&self) -> (r: Vec<BuyableCard>)
        ensures
            r@ == if self.shop_open() {
                self.shop@ + self.storage@
            } else {
                self.shop@
            },
    {
        let mut out: Vec<BuyableCard> = Vec::new();
        let mut i: usize = 0;
        while i < self.shop.len()
            invariant
                i <= self.shop@.len(),
                out@ == self.shop@.take(i as int),
            decreases self.shop@.len() - i,
        {
            out.push(self.shop[i]);
            assert(out@ =~= self.shop@.take(i + 1));
            i = i + 1;
        }
        assert(self.shop@.take(self.shop@.len() as int) =~= self.shop@);
        if self.has_open_shop() {
            let mut j: usize = 0;
            while j < self.storage.len()
                invariant
                    j <= self.storage@.len(),
                    out@ == self.shop@ + self.storage@.take(j as int),
                decreases self.storage@.len() - j,
            {
                out.push(self.storage[j]);
                assert(out@ =~= self.shop@ + self.storage@.take(j + 1));
                j = j + 1;
            }
            assert(self.storage@.take(self.storage@.len() as int) =~= self.storage@);
        }
        out
    }

    /// Whether the current player may visit the cave at `pos`: it still
    /// holds tokens and the player has not visited it since last leaving.
    pub fn can_visit_cave(&self, pos: AxialCoord) -> (r: bool)
        requires
            self.wf(),
        ensures
            r == ((exists|k: int| 0 <= k < self.bonuses@.len() && (#[trigger] self.bonuses@[k]).0 == pos && self.bonuses@[k].1@.len() > 0)
                && !self.current().visited_caves@.contains(pos)),
    {
        let mut found = false;
        let mut k: usize = 0;
        while k < self.bonuses.len()
            invariant
                k <= self.bonuses@.len(),
                found == exists|j: int| 0 <= j < k && (#[trigger] self.bonuses@[j]).0 == pos && self.bonuses@[j].1@.len() > 0,
            decreases self.bonuses@.len() - k,
        {
            if self.bonuses[k].0 == pos && self.bonuses[k].1.len() > 0 {
                found = true;
            }
            k = k + 1;
        }
        if !found {
            return false;
        }
        let p = &self.players[self.curr_player_idx];
        let mut v: usize = 0;
        while v < p.visited_caves.len()
            invariant
                self.wf(),
                *p == self.current(),
                found,
                found == exists|j: int| 0 <= j < self.bonuses@.len() && (#[trigger] self.bonuses@[j]).0 == pos && self.bonuses@[j].1@.len() > 0,
                v <= p.visited_caves@.len(),
                forall|j: int| 0 <= j < v ==> p.visited_caves@[j] != pos,
            decreases p.visited_caves@.len() - v,
        {
            if p.visited_caves[v] == pos {
                assert(p.visited_caves@.contains(pos));
                return false;
            }
            v = v + 1;
        }
        true
    }

    /// The existing neighbours of the hex at `coord`.
    pub fn neighbors_of(&self, coord: AxialCoord) -> (r: Vec<(HexDirection, AxialCoord, Node)>)
        requires
            self.wf(),
        ensures
            match self.map.index_of(coord) {
                Some(idx) => {
                    &&& r@.len() == neighbor_list(self.graph.adj@, idx).len()
                    &&& forall|j: int|
                        0 <= j < r@.len() ==> {
                            let (v, d) = #[trigger] neighbor_list(self.graph.adj@, idx)[j];
                            r@[j] == (d, self.map.coords@[v as int], self.map.nodes@[v as int])
                        }
                },
                None => r@.len() == 0,
            },
    {
        self.graph.neighbors_of(&self.map, coord)
    }
}

} // verus!

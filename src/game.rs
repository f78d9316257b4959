use vstd::prelude::*;
use crate::cards::BuyableCard;
use crate::graph::HexGraph;
use crate::hex::{AxialCoord, Barrier, BonusToken, HexDirection, step};
use crate::map::HexMap;
use crate::player::Player;

verus! {

/// Number of cards the shop shows at once.
pub const SHOP_SIZE: usize = 6;

/// Where a card for sale is listed.
#[derive(Clone, Copy, Debug, PartialEq, Eq, Structural)]
pub enum BuyIndex {
    Shop(usize),
    Storage(usize),
}

/// Buy one card, paying with hand cards and tokens.
#[derive(Clone, Debug)]
pub struct BuyCardAction {
    pub cards: Vec<usize>,
    pub tokens: Vec<usize>,
    pub index: BuyIndex,
}

/// Walk a path of steps, paying with hand cards and tokens.
#[derive(Clone, Debug)]
pub struct MoveAction {
    pub cards: Vec<usize>,
    pub tokens: Vec<usize>,
    pub path: Vec<HexDirection>,
}

/// Draw cards through a card action or a token.
#[derive(Clone, Copy, Debug, PartialEq, Eq, Structural)]
pub struct DrawAction {
    pub card: Option<usize>,
    pub token: Option<usize>,
}

/// Everything a player can do on their turn.
#[derive(Clone, Debug)]
pub enum PlayerAction {
    BuyCard(BuyCardAction),
    Move(MoveAction),
    Draw(DrawAction),
    Trash(Vec<usize>),
    Discard(Vec<usize>),
    FinishTurn,
}

/// What a successful action reports.
#[derive(Clone, Copy, Debug, PartialEq, Eq, Structural)]
pub enum ActionOutcome {
    /// The action succeeded and the turn goes on.
    Continue,
    /// The step of the path with this index left the player where they
    /// were (a cave visit or a broken barrier).
    IgnoreMoveIdx(usize),
    GameOver,
}

/// Why an action was refused. A refused action changes nothing.
#[derive(Clone, Copy, Debug, PartialEq, Eq, Structural)]
pub enum ActionError {
    /// Card or token indices out of range, repeated or not increasing.
    BadIndices,
    /// The current player stands where the map has no node.
    InvalidPosition,
    EmptyPath,
    /// A step leads off the map.
    NoNode,
    InvalidBarrier,
    InvalidTerrain,
    Occupied,
    CaveNotAdjacent,
    CardsAtCave,
    CaveVisited,
    NoCave,
    CaveEmpty,
    FreeMoveOneStep,
    FreeMoveBarrier,
    CardCostOneStep,
    WrongCardCount,
    TokenNotAllowed,
    MixedTypes,
    SingleCard,
    NotEnoughMovement,
    SwapNeedsCard,
    TokenCannotMove,
    TooManyShareHex,
    OneMoveToken,
    NoPayment,
    OutOfStock,
    NotEnoughGold,
    AlreadyBought,
    ShopFull,
    CannotDraw,
    NothingToDraw,
    TooManyTrashes,
}

/// The whole game: map, graph, barriers, players, market, caves and turn.
#[derive(Clone, Debug)]
pub struct GameState {
    pub map: HexMap,
    pub graph: HexGraph,
    pub barriers: Vec<Barrier>,
    pub players: Vec<Player>,
    pub shop: Vec<BuyableCard>,
    pub storage: Vec<BuyableCard>,
    /// Cave positions with the tokens they still hold; the last is handed
    /// out first.
    pub bonuses: Vec<(AxialCoord, Vec<BonusToken>)>,
    pub curr_player_idx: usize,
    pub round_idx: usize,
}

/// Cards in order of non-decreasing cost.
pub open spec fn cost_sorted(v: Seq<BuyableCard>) -> bool {
    forall|i: int, j: int| 0 <= i < j < v.len() ==> #[trigger] v[i].cost <= #[trigger] v[j].cost
}

/// Whether barrier `b` separates boards `x` and `y`, in either order.
pub open spec fn separates(b: Barrier, x: int, y: int) -> bool {
    (b.from_board == x && b.to_board == y) || (b.from_board == y && b.to_board == x)
}

/// The first barrier between boards `x` and `y`, if any.
pub open spec fn barrier_between(barriers: Seq<Barrier>, x: int, y: int) -> Option<int> {
    if exists|k: int| 0 <= k < barriers.len() && separates(barriers[k], x, y) {
        Some(
            choose|k: int|
                0 <= k < barriers.len() && separates(barriers[k], x, y) && forall|j: int|
                    0 <= j < k ==> !separates(#[trigger] barriers[j], x, y),
        )
    } else {
        None
    }
}

/// Whether the selected tokens include `t`.
pub open spec fn uses_token(tokens: Seq<BonusToken>, sel: Seq<usize>, t: BonusToken) -> bool {
    exists|k: int| 0 <= k < sel.len() && tokens[sel[k] as int] == t
}

impl GameState {
    /// Map, graph and turn bookkeeping fit together.
    pub open spec fn wf(&self) -> bool {
        &&& self.map.wf()
        &&& self.map.coords@.len() < i32::MAX
        &&& self.graph.graph_of(self.map)
        &&& self.players@.len() > 0
        &&& self.curr_player_idx < self.players@.len()
        &&& cost_sorted(self.shop@)
    }

    /// The player whose turn it is.
    pub open spec fn current(&self) -> Player {
        self.players@[self.curr_player_idx as int]
    }

    /// Whether a player other than the current one stands at `pos`.
    pub open spec fn occupied(&self, pos: AxialCoord) -> bool {
        exists|i: int|
            0 <= i < self.players@.len() && i != self.curr_player_idx && (#[trigger] self.players@[i]).position == pos
    }

    /// Whether the shop has room for a card from storage.
    pub open spec fn shop_open(&self) -> bool {
        self.shop@.len() < SHOP_SIZE
    }

    /// The player whose turn it is.
    pub fn curr_player(&self) -> (r: &Player)
        requires
            self.wf(),
        ensures
            *r == self.current(),
    {
        &self.players[self.curr_player_idx]
    }

    /// How many players are in the game.
    pub fn num_players(&self) -> (r: usize)
        ensures
            r == self.players@.len(),
    {
        self.players.len()
    }

    /// Positions of all players, in player order.
    pub fn player_positions(&self) -> (r: Vec<AxialCoord>)
        ensures
            r@.len() == self.players@.len(),
            forall|i: int| 0 <= i < r@.len() ==> #[trigger] r@[i] == self.players@[i].position,
    {
        let mut out: Vec<AxialCoord> = Vec::new();
        let mut i: usize = 0;
        while i < self.players.len()
            invariant
                i <= self.players@.len(),
                out@.len() == i,
                forall|k: int| 0 <= k < i ==> #[trigger] out@[k] == self.players@[k].position,
            decreases self.players@.len() - i,
        {
            out.push(self.players[i].position);
            i = i + 1;
        }
        out
    }

    /// Positions of all caves with the number of tokens each still holds.
    pub fn bonus_counts(&self) -> (r: Vec<(AxialCoord, usize)>)
        ensures
            r@.len() == self.bonuses@.len(),
            forall|i: int|
                0 <= i < r@.len() ==> #[trigger] r@[i] == (self.bonuses@[i].0, self.bonuses@[i].1@.len() as usize),
    {
        let mut out: Vec<(AxialCoord, usize)> = Vec::new();
        let mut i: usize = 0;
        while i < self.bonuses.len()
            invariant
                i <= self.bonuses@.len(),
                out@.len() == i,
                forall|k: int|
                    0 <= k < i ==> #[trigger] out@[k] == (self.bonuses@[k].0, self.bonuses@[k].1@.len() as usize),
            decreases self.bonuses@.len() - i,
        {
            out.push((self.bonuses[i].0, self.bonuses[i].1.len()));
            i = i + 1;
        }
        out
    }

    /// Whether a player other than the current one stands at `pos`.
    pub fn is_occupied(&self, pos: AxialCoord) -> (r: bool)
        ensures
            r == self.occupied(pos),
    {
        let mut i: usize = 0;
        while i < self.players.len()
            invariant
                i <= self.players@.len(),
                forall|k: int| 0 <= k < i && k != self.curr_player_idx ==> (#[trigger] self.players@[k]).position != pos,
            decreases self.players@.len() - i,
        {
            if i != self.curr_player_idx && self.players[i].position == pos {
                return true;
            }
            i = i + 1;
        }
        false
    }

    /// Indices of the players standing on a finish hex.
    pub fn players_at_finish(&self) -> (r: Vec<usize>)
        requires
            self.map.wf(),
        ensures
            forall|k: int| 0 <= k < r@.len() ==> #[trigger] r@[k] < self.players@.len() && self.map.spec_is_finish(self.players@[r@[k] as int].position),
            forall|i: int| 0 <= i < self.players@.len() && self.map.spec_is_finish(#[trigger] self.players@[i].position) ==> r@.contains(i as usize),
            forall|a: int, b: int| 0 <= a < b < r@.len() ==> #[trigger] r@[a] < #[trigger] r@[b],
    {
        let mut out: Vec<usize> = Vec::new();
        let mut i: usize = 0;
        while i < self.players.len()
            invariant
                self.map.wf(),
                i <= self.players@.len(),
                forall|k: int| 0 <= k < out@.len() ==> #[trigger] out@[k] < i && self.map.spec_is_finish(self.players@[out@[k] as int].position),
                forall|j: int| 0 <= j < i && self.map.spec_is_finish(#[trigger] self.players@[j].position) ==> out@.contains(j as usize),
                forall|a: int, b: int| 0 <= a < b < out@.len() ==> #[trigger] out@[a] < #[trigger] out@[b],
            decreases self.players@.len() - i,
        {
            if self.map.is_finish(self.players[i].position) {
                let ghost before = out@;
                out.push(i);
                proof {
                    assert forall|j: int| 0 <= j < i + 1 && self.map.spec_is_finish(#[trigger] self.players@[j].position) implies out@.contains(j as usize) by {
                        if j < i {
                            let t = choose|t: int| 0 <= t < before.len() && before[t] == j as usize;
                            assert(out@[t] == j as usize);
                        } else {
                            assert(out@[out@.len() - 1] == j as usize);
                        }
                    }
                }
            }
            i = i + 1;
        }
        out
    }

    /// Whether any player stands on a finish hex.
    pub fn any_finished_player(&self) -> (r: bool)
        requires
            self.map.wf(),
        ensures
            r == exists|i: int| 0 <= i < self.players@.len() && self.map.spec_is_finish(#[trigger] self.players@[i].position),
    {
        let mut i: usize = 0;
        while i < self.players.len()
            invariant
                self.map.wf(),
                i <= self.players@.len(),
                forall|k: int| 0 <= k < i ==> !self.map.spec_is_finish(#[trigger] self.players@[k].position),
            decreases self.players@.len() - i,
        {
            if self.map.is_finish(self.players[i].position) {
                return true;
            }
            i = i + 1;
        }
        false
    }

    /// Whether the shop has room for a card from storage.
    pub fn has_open_shop(&self) -> (r: bool)
        ensures
            r == self.shop_open(),
    {
        self.shop.len() < SHOP_SIZE
    }

    /// The first barrier between two boards, in either order.
    pub fn barrier_index(&self, from_board: usize, to_board: usize) -> (r: Option<usize>)
        ensures
            match r {
                Some(k) => barrier_between(self.barriers@, from_board as int, to_board as int) == Some(k as int)
                    && k < self.barriers@.len(),
                None => barrier_between(self.barriers@, from_board as int, to_board as int) is None,
            },
    {
        let mut k: usize = 0;
        while k < self.barriers.len()
            invariant
                k <= self.barriers@.len(),
                forall|j: int| 0 <= j < k ==> !separates(#[trigger] self.barriers@[j], from_board as int, to_board as int),
            decreases self.barriers@.len() - k,
        {
            let b = &self.barriers[k];
            if (b.from_board == from_board && b.to_board == to_board) || (b.from_board == to_board && b.to_board == from_board) {
                proof {
                    let bs = self.barriers@;
                    let (x, y) = (from_board as int, to_board as int);
                    let c = choose|c: int|
                        0 <= c < bs.len() && separates(bs[c], x, y) && forall|j: int|
                            0 <= j < c ==> !separates(#[trigger] bs[j], x, y);
                    assert(0 <= k < bs.len() && separates(bs[k as int], x, y) && forall|j: int|
                            0 <= j < k ==> !separates(#[trigger] bs[j], x, y));
                    if c < k {
                    } else if c > k {
                        assert(!separates(bs[k as int], x, y));
                    }
                }
                return Some(k);
            }
            k = k + 1;
        }
        None
    }
}

} // verus!

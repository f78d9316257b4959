use vstd::prelude::*;
use crate::cards::CardAction;
use crate::game::{ActionError, GameState, MoveAction, barrier_between, uses_token};
use crate::hex::{AxialCoord, BonusToken, BrokenBarrier, HexDirection, Node, Terrain, coords_adjacent, interior, step};
use crate::player::{Player, selected, unselected, valid_selection};

verus! {

/// Progress of a path walk: where the walker stands, on which board, what
/// the steps so far cost, and what they ran into.
pub struct Walk {
    pub pos: AxialCoord,
    pub board: int,
    /// Movement owed per type: jungle, desert, water.
    pub cost: (int, int, int),
    /// Cards owed to swamps, villages and swamp barriers.
    pub card_cost: int,
    pub barrier: Option<int>,
    pub cave: Option<AxialCoord>,
    /// The last step that left the walker in place.
    pub ignore: Option<int>,
}

/// What a legal move does.
pub struct MovePlan {
    /// Where the player ends up.
    pub pos: AxialCoord,
    /// The cave visited instead of moving.
    pub cave: Option<AxialCoord>,
    /// The barrier broken on the way.
    pub barrier: Option<int>,
    pub ignore: Option<int>,
    /// Whether the paying cards are trashed rather than played.
    pub trash: bool,
}

/// Adds `c` to the movement type that `t` names.
pub open spec fn add_cost(cost: (int, int, int), t: Terrain, c: int) -> (int, int, int) {
    match t {
        Terrain::Jungle => (cost.0 + c, cost.1, cost.2),
        Terrain::Desert => (cost.0, cost.1 + c, cost.2),
        _ => (cost.0, cost.1, cost.2 + c),
    }
}

/// Whether `t` is a movement terrain.
pub open spec fn is_movement(t: Terrain) -> bool {
    t == Terrain::Jungle || t == Terrain::Desert || t == Terrain::Water
}

/// One step of a walk, with the index `idx` of the step in the path.
pub open spec fn walk_step(s: GameState, sel: Seq<usize>, w: Walk, dir: HexDirection, idx: int) -> Result<Walk, ActionError> {
    let next = step(w.pos, dir);
    match s.map.spec_node_at(next) {
        None => Err(ActionError::NoNode),
        Some(node) => {
            let nb = node.board_idx as int;
            match barrier_between(s.barriers@, w.board, nb) {
                Some(b) => {
                    let bar = s.barriers@[b];
                    let c = bar.cost as int;
                    if is_movement(bar.terrain) {
                        Ok(Walk { board: nb, barrier: Some(b), ignore: Some(idx), cost: add_cost(w.cost, bar.terrain, c), ..w })
                    } else if bar.terrain == Terrain::Swamp {
                        Ok(Walk { board: nb, barrier: Some(b), ignore: Some(idx), card_cost: w.card_cost + c, ..w })
                    } else {
                        Err(ActionError::InvalidBarrier)
                    }
                },
                None => {
                    let c = node.cost as int;
                    if node.terrain == Terrain::Invalid {
                        Err(ActionError::InvalidTerrain)
                    } else {
                        let w3 = if is_movement(node.terrain) {
                            Walk { cost: add_cost(w.cost, node.terrain, c), ..w }
                        } else if node.terrain == Terrain::Cave {
                            Walk { cave: Some(next), ignore: Some(idx), ..w }
                        } else {
                            Walk { card_cost: w.card_cost + c, ..w }
                        };
                        let dest = if node.terrain == Terrain::Cave { w.pos } else { next };
                        if w3.cave is None && s.occupied(dest) && !uses_token(s.current().tokens@, sel, BonusToken::ShareHex) {
                            Err(ActionError::Occupied)
                        } else {
                            Ok(Walk { pos: dest, board: nb, ..w3 })
                        }
                    }
                },
            }
        },
    }
}

/// The first `n` steps of the path.
pub open spec fn walk(s: GameState, mv: MoveAction, start: Walk, n: int) -> Result<Walk, ActionError>
    decreases n,
{
    if n <= 0 {
        Ok(start)
    } else {
        match walk(s, mv, start, n - 1) {
            Err(e) => Err(e),
            Ok(w) => walk_step(s, mv.tokens@, w, mv.path@[n - 1], n - 1),
        }
    }
}

/// The walk before the first step.
pub open spec fn start_walk(pos: AxialCoord, node: Node) -> Walk {
    Walk { pos, board: node.board_idx as int, cost: (0, 0, 0), card_cost: 0, barrier: None, cave: None, ignore: None }
}

/// Whether a move is paid by a single free-move card, or else by a single
/// free-move token.
pub open spec fn spec_free_move(mv: MoveAction, p: Player) -> bool {
    if mv.cards@.len() == 1 && mv.cards@[0] < p.hand@.len() {
        p.hand@[mv.cards@[0] as int].action == Some(CardAction::FreeMove)
    } else if mv.tokens@.len() == 1 && mv.tokens@[0] < p.tokens@.len() {
        p.tokens@[mv.tokens@[0] as int] == BonusToken::FreeMove
    } else {
        false
    }
}

/// The largest of three costs.
pub open spec fn max3(c: (int, int, int)) -> int {
    if c.0 >= c.1 && c.0 >= c.2 {
        c.0
    } else if c.1 >= c.2 {
        c.1
    } else {
        c.2
    }
}

/// Checks movement tokens against the costs, over the first `n` selected
/// tokens; counts the share-hex tokens.
pub open spec fn token_scan(tokens: Seq<BonusToken>, sel: Seq<usize>, cost: (int, int, int), n: int) -> Result<int, ActionError>
    decreases n,
{
    if n <= 0 {
        Ok(0)
    } else {
        match token_scan(tokens, sel, cost, n - 1) {
            Err(e) => Err(e),
            Ok(share) => match tokens[sel[n - 1] as int] {
                BonusToken::Jungle(m) => if cost.0 > m { Err(ActionError::NotEnoughMovement) } else { Ok(share) },
                BonusToken::Desert(m) => if cost.1 > m { Err(ActionError::NotEnoughMovement) } else { Ok(share) },
                BonusToken::Water(m) => if cost.2 > m { Err(ActionError::NotEnoughMovement) } else { Ok(share) },
                BonusToken::FreeMove => Ok(share),
                BonusToken::ShareHex => Ok(share + 1),
                BonusToken::SwapSymbol => Err(ActionError::SwapNeedsCard),
                _ => Err(ActionError::TokenCannotMove),
            },
        }
    }
}

/// The first cave entry at `c`, if any.
pub open spec fn cave_at(bonuses: Seq<(AxialCoord, Vec<BonusToken>)>, c: AxialCoord) -> Option<int> {
    if exists|k: int| 0 <= k < bonuses.len() && bonuses[k].0 == c {
        Some(choose|k: int| 0 <= k < bonuses.len() && bonuses[k].0 == c && forall|j: int| 0 <= j < k ==> (#[trigger] bonuses[j]).0 != c)
    } else {
        None
    }
}

/// Whether a card covers the movement costs: type by type, or with a
/// swap-symbol token, its best type against the largest cost.
pub open spec fn card_covers(movement: [u8; 3], cost: (int, int, int), swap: bool) -> bool {
    if swap {
        max3((movement[0] as int, movement[1] as int, movement[2] as int)) >= max3(cost)
    } else {
        cost.0 <= movement[0] && cost.1 <= movement[1] && cost.2 <= movement[2]
    }
}

/// The rules that apply once the path is walked.
pub open spec fn settle_walk(s: GameState, mv: MoveAction, w: Walk) -> Result<MovePlan, ActionError> {
    let p = s.current();
    let len = mv.path@.len();
    match w.cave {
        Some(c) => if len != 1 {
            Err(ActionError::CaveNotAdjacent)
        } else if mv.cards@.len() != 0 {
            Err(ActionError::CardsAtCave)
        } else if p.visited_caves@.contains(c) {
            Err(ActionError::CaveVisited)
        } else {
            match cave_at(s.bonuses@, c) {
                None => Err(ActionError::NoCave),
                Some(k) => if s.bonuses@[k].1@.len() == 0 {
                    Err(ActionError::CaveEmpty)
                } else {
                    Ok(MovePlan { pos: p.position, cave: Some(c), barrier: w.barrier, ignore: w.ignore, trash: false })
                },
            }
        },
        None => {
            let free = spec_free_move(mv, p);
            if free && len != 1 {
                Err(ActionError::FreeMoveOneStep)
            } else {
                let owed: Result<int, ActionError> = if !free {
                    Ok(w.card_cost)
                } else {
                    match w.barrier {
                        None => Ok(0),
                        Some(b) => if is_movement(s.barriers@[b].terrain) {
                            Err(ActionError::FreeMoveBarrier)
                        } else if s.barriers@[b].terrain == Terrain::Swamp {
                            Ok(s.barriers@[b].cost as int)
                        } else {
                            Err(ActionError::InvalidBarrier)
                        },
                    }
                };
                let cost = if free { (0, 0, 0) } else { w.cost };
                match owed {
                    Err(e) => Err(e),
                    Ok(card_cost) => if card_cost > 0 {
                        if len != 1 {
                            Err(ActionError::CardCostOneStep)
                        } else if mv.cards@.len() != card_cost {
                            Err(ActionError::WrongCardCount)
                        } else if mv.tokens@.len() > 1 || (mv.tokens@.len() == 1 && p.tokens@[mv.tokens@[0] as int] != BonusToken::ShareHex) {
                            Err(ActionError::TokenNotAllowed)
                        } else {
                            let village = match s.map.spec_node_at(w.pos) {
                                Some(n) => n.terrain == Terrain::Village,
                                None => false,
                            };
                            Ok(MovePlan { pos: w.pos, cave: None, barrier: w.barrier, ignore: w.ignore, trash: village })
                        }
                    } else if cost.0 + cost.1 + cost.2 != max3(cost) {
                        Err(ActionError::MixedTypes)
                    } else if mv.cards@.len() > 0 {
                        if mv.cards@.len() != 1 {
                            Err(ActionError::SingleCard)
                        } else {
                            let card = p.hand@[mv.cards@[0] as int];
                            if !card_covers(card.movement, cost, uses_token(p.tokens@, mv.tokens@, BonusToken::SwapSymbol)) {
                                Err(ActionError::NotEnoughMovement)
                            } else {
                                let trash = card.single_use && !uses_token(p.tokens@, mv.tokens@, BonusToken::DoubleUse);
                                Ok(MovePlan { pos: w.pos, cave: None, barrier: w.barrier, ignore: w.ignore, trash })
                            }
                        }
                    } else if mv.tokens@.len() > 0 {
                        match token_scan(p.tokens@, mv.tokens@, cost, mv.tokens@.len() as int) {
                            Err(e) => Err(e),
                            Ok(share) => if share > 1 {
                                Err(ActionError::TooManyShareHex)
                            } else if mv.tokens@.len() - share != 1 {
                                Err(ActionError::OneMoveToken)
                            } else {
                                Ok(MovePlan { pos: w.pos, cave: None, barrier: w.barrier, ignore: w.ignore, trash: false })
                            },
                        }
                    } else {
                        Err(ActionError::NoPayment)
                    },
                }
            }
        },
    }
}

/// Whether a move is legal, and what it does.
pub open spec fn move_plan(s: GameState, mv: MoveAction) -> Result<MovePlan, ActionError> {
    let p = s.current();
    if !valid_selection(mv.cards@, p.hand@.len() as int) || !valid_selection(mv.tokens@, p.tokens@.len() as int) {
        Err(ActionError::BadIndices)
    } else if mv.path@.len() == 0 {
        Err(ActionError::EmptyPath)
    } else {
        match s.map.spec_node_at(p.position) {
            None => Err(ActionError::InvalidPosition),
            Some(node) => match walk(s, mv, start_walk(p.position, node), mv.path@.len() as int) {
                Err(e) => Err(e),
                Ok(w) => settle_walk(s, mv, w),
            },
        }
    }
}

/// The caves of `s` that stay adjacent to `pos`, in order.
pub open spec fn adjacent_only(s: Seq<AxialCoord>, pos: AxialCoord) -> Seq<AxialCoord>
    decreases s.len(),
{
    if s.len() == 0 {
        Seq::empty()
    } else {
        let prev = adjacent_only(s.drop_last(), pos);
        if coords_adjacent(pos, s.last()) {
            prev.push(s.last())
        } else {
            prev
        }
    }
}

/// The effect of a legal move on the game.
pub open spec fn moved(s0: GameState, s1: GameState, mv: MoveAction, plan: MovePlan) -> bool {
    let c = s0.curr_player_idx as int;
    let p0 = s0.current();
    let p1 = s1.current();
    &&& s1.map == s0.map
    &&& s1.graph == s0.graph
    &&& s1.shop == s0.shop
    &&& s1.storage == s0.storage
    &&& s1.curr_player_idx == s0.curr_player_idx
    &&& s1.round_idx == s0.round_idx
    &&& s1.players@.len() == s0.players@.len()
    &&& forall|i: int| 0 <= i < s0.players@.len() && i != c ==> #[trigger] s1.players@[i] == s0.players@[i]
    &&& p1.trashes == p0.trashes
    &&& p1.can_buy == p0.can_buy
    &&& p1.deck@ == p0.deck@
    &&& p1.discard@ == p0.discard@
    &&& match plan.cave {
        Some(cv) => {
            let k = cave_at(s0.bonuses@, cv).unwrap();
            let stack = s0.bonuses@[k].1@;
            &&& p1.tokens@ == p0.tokens@.push(stack.last())
            &&& p1.visited_caves@ == p0.visited_caves@.push(cv)
            &&& p1.position == p0.position
            &&& p1.hand@ == p0.hand@
            &&& p1.played@ == p0.played@
            &&& p1.broken_barriers@ == p0.broken_barriers@
            &&& s1.barriers == s0.barriers
            &&& s1.bonuses@.len() == s0.bonuses@.len()
            &&& s1.bonuses@[k].0 == cv
            &&& s1.bonuses@[k].1@ == stack.drop_last()
            &&& forall|j: int| 0 <= j < s0.bonuses@.len() && j != k ==> #[trigger] s1.bonuses@[j] == s0.bonuses@[j]
        },
        None => {
            &&& p1.position == plan.pos
            &&& p1.hand@ == unselected(p0.hand@, mv.cards@)
            &&& p1.played@ == if plan.trash {
                p0.played@
            } else {
                p0.played@ + selected(p0.hand@, mv.cards@)
            }
            &&& p1.tokens@ == unselected(p0.tokens@, mv.tokens@)
            &&& p1.visited_caves@ == adjacent_only(p0.visited_caves@, plan.pos)
            &&& s1.bonuses == s0.bonuses
            &&& match plan.barrier {
                Some(b) => {
                    &&& 0 <= b < s0.barriers@.len()
                    &&& s1.barriers@ == s0.barriers@.remove(b)
                    &&& p1.broken_barriers@ == p0.broken_barriers@.push(
                        BrokenBarrier { terrain: s0.barriers@[b].terrain, cost: s0.barriers@[b].cost },
                    )
                },
                None => {
                    &&& s1.barriers == s0.barriers
                    &&& p1.broken_barriers@ == p0.broken_barriers@
                },
            }
        },
    }
}

/// A walk in progress, in machine integers.
#[derive(Clone, Copy)]
struct Walker {
    pos: AxialCoord,
    board: usize,
    c0: u128,
    c1: u128,
    c2: u128,
    card_cost: u128,
    barrier: Option<usize>,
    cave: Option<AxialCoord>,
    ignore: Option<usize>,
}

/// An optional index as a mathematical integer.
pub open spec fn opt_int(o: Option<usize>) -> Option<int> {
    match o {
        Some(i) => Some(i as int),
        None => None,
    }
}

impl Walker {
    spec fn walk(&self) -> Walk {
        Walk {
            pos: self.pos,
            board: self.board as int,
            cost: (self.c0 as int, self.c1 as int, self.c2 as int),
            card_cost: self.card_cost as int,
            barrier: opt_int(self.barrier),
            cave: self.cave,
            ignore: opt_int(self.ignore),
        }
    }
}

/// Once a walk fails, every longer walk fails the same way.
proof fn lemma_walk_error(s: GameState, mv: MoveAction, start: Walk, m: int, n: int, e: ActionError)
    requires
        0 <= m <= n,
        walk(s, mv, start, m) == Err::<Walk, ActionError>(e),
    ensures
        walk(s, mv, start, n) == Err::<Walk, ActionError>(e),
    decreases n - m,
{
    if m < n {
        lemma_walk_error(s, mv, start, m, n - 1, e);
    }
}

/// Every coordinate of a well-formed map has representable neighbours.
proof fn lemma_on_map_interior(s: GameState, c: AxialCoord)
    requires
        s.map.wf(),
        s.map.spec_node_at(c) is Some,
    ensures
        interior(c),
{
    let i = s.map.index_of(c).unwrap();
    assert(s.map.coords@[i] == c);
}

/// Whether the selected tokens include `t`.
fn selects_token(tokens: &Vec<BonusToken>, sel: &Vec<usize>, t: BonusToken) -> (r: bool)
    requires
        valid_selection(sel@, tokens@.len() as int),
    ensures
        r == uses_token(tokens@, sel@, t),
{
    let mut k: usize = 0;
    while k < sel.len()
        invariant
            valid_selection(sel@, tokens@.len() as int),
            k <= sel@.len(),
            forall|j: int| 0 <= j < k ==> tokens@[#[trigger] sel@[j] as int] != t,
        decreases sel@.len() - k,
    {
        if tokens[sel[k]] == t {
            return true;
        }
        k = k + 1;
    }
    false
}

impl GameState {
    /// Walks the path of a move from the current player's position.
    fn walk_path(&self, mv: &MoveAction, start: Walker) -> (r: Result<Walker, ActionError>)
        requires
            self.wf(),
            valid_selection(mv.tokens@, self.current().tokens@.len() as int),
            self.map.spec_node_at(start.pos) is Some,
            start.c0 == 0 && start.c1 == 0 && start.c2 == 0 && start.card_cost == 0,
            start.barrier is None,
        ensures
            match r {
                Ok(w) => walk(*self, *mv, start.walk(), mv.path@.len() as int) == Ok::<Walk, ActionError>(w.walk())
                    && self.map.spec_node_at(w.pos) is Some
                    && w.c0 + w.c1 + w.c2 + w.card_cost <= 255 * mv.path@.len()
                    && (w.barrier matches Some(b) ==> b < self.barriers@.len()),
                Err(e) => walk(*self, *mv, start.walk(), mv.path@.len() as int) == Err::<Walk, ActionError>(e),
            },
    {
        let ghost s = *self;
        let ghost w0 = start.walk();
        assert(w0 == start.walk());
        let tokens = &self.players[self.curr_player_idx].tokens;
        let share = selects_token(tokens, &mv.tokens, BonusToken::ShareHex);
        let mut w = start;
        let mut i: usize = 0;
        while i < mv.path.len()
            invariant
                s == *self,
                w0 == start.walk(),
                self.wf(),
                i <= mv.path@.len(),
                walk(s, *mv, w0, i as int) == Ok::<Walk, ActionError>(w.walk()),
                self.map.spec_node_at(w.pos) is Some,
                w.c0 + w.c1 + w.c2 + w.card_cost <= 255 * i,
                w.barrier matches Some(b) ==> b < self.barriers@.len(),
                share == uses_token(self.current().tokens@, mv.tokens@, BonusToken::ShareHex),
            decreases mv.path@.len() - i,
        {
            match self.walk_one(mv, &w, i, share) {
                Ok(w2) => {
                    assert(walk(s, *mv, w0, i + 1) == walk_step(s, mv.tokens@, w.walk(), mv.path@[i as int], i as int));
                    w = w2;
                },
                Err(e) => {
                    proof {
                        assert(walk(s, *mv, w0, i + 1) == walk_step(s, mv.tokens@, w.walk(), mv.path@[i as int], i as int));
                        lemma_walk_error(s, *mv, w0, i + 1, mv.path@.len() as int, e);
                        assert(walk(s, *mv, w0, mv.path@.len() as int) == Err::<Walk, ActionError>(e));

                    }
                    return Err(e);
                },
            }
            i = i + 1;
        }
        Ok(w)
    }

    /// One step of a walk.
    fn walk_one(&self, mv: &MoveAction, w: &Walker, i: usize, share: bool) -> (r: Result<Walker, ActionError>)
        requires
            self.wf(),
            i < mv.path@.len(),
            self.map.spec_node_at(w.pos) is Some,
            w.c0 + w.c1 + w.c2 + w.card_cost <= 255 * i,
            w.barrier matches Some(b) ==> b < self.barriers@.len(),
            share == uses_token(self.current().tokens@, mv.tokens@, BonusToken::ShareHex),
        ensures
            match r {
                Ok(w2) => walk_step(*self, mv.tokens@, w.walk(), mv.path@[i as int], i as int) == Ok::<Walk, ActionError>(w2.walk())
                    && self.map.spec_node_at(w2.pos) is Some
                    && w2.c0 + w2.c1 + w2.c2 + w2.card_cost <= 255 * (i + 1)
                    && (w2.barrier matches Some(b) ==> b < self.barriers@.len()),
                Err(e) => walk_step(*self, mv.tokens@, w.walk(), mv.path@[i as int], i as int) == Err::<Walk, ActionError>(e),
            },
    {
        proof {
            lemma_on_map_interior(*self, w.pos);
        }
        let dir = mv.path[i];
        let next = dir.neighbor_coord(w.pos);
        let node = match self.map.node_at(next) {
            Some(n) => n,
            None => {
                return Err(ActionError::NoNode);
            },
        };
        let nb = node.board_idx as usize;
        match self.barrier_index(w.board, nb) {
            Some(b) => {
                let bar = &self.barriers[b];
                let c = bar.cost as u128;
                let mut w2 = Walker { board: nb, barrier: Some(b), ignore: Some(i), ..*w };
                match bar.terrain {
                    Terrain::Jungle => { w2.c0 = w.c0 + c; },
                    Terrain::Desert => { w2.c1 = w.c1 + c; },
                    Terrain::Water => { w2.c2 = w.c2 + c; },
                    Terrain::Swamp => { w2.card_cost = w.card_cost + c; },
                    _ => {
                        return Err(ActionError::InvalidBarrier);
                    },
                }
                Ok(w2)
            },
            None => {
                let c = node.cost as u128;
                let mut w3 = Walker { ..*w };
                let mut dest = next;
                match node.terrain {
                    Terrain::Jungle => { w3.c0 = w.c0 + c; },
                    Terrain::Desert => { w3.c1 = w.c1 + c; },
                    Terrain::Water => { w3.c2 = w.c2 + c; },
                    Terrain::Invalid => {
                        return Err(ActionError::InvalidTerrain);
                    },
                    Terrain::Cave => {
                        w3.cave = Some(next);
                        w3.ignore = Some(i);
                        dest = w.pos;
                    },
                    Terrain::Swamp | Terrain::Village => { w3.card_cost = w.card_cost + c; },
                }
                if w3.cave.is_none() && self.is_occupied(dest) && !share {
                    return Err(ActionError::Occupied);
                }
                w3.pos = dest;
                w3.board = nb;
                Ok(w3)
            },
        }
    }
}

/// A legal move, in machine integers.
struct Plan {
    pos: AxialCoord,
    cave: Option<AxialCoord>,
    barrier: Option<usize>,
    ignore: Option<usize>,
    trash: bool,
}

impl Plan {
    spec fn plan(&self) -> MovePlan {
        MovePlan { pos: self.pos, cave: self.cave, barrier: opt_int(self.barrier), ignore: opt_int(self.ignore), trash: self.trash }
    }
}

/// The caves of `v` that stay adjacent to `pos`, in order.
fn keep_adjacent(v: &Vec<AxialCoord>, pos: AxialCoord) -> (r: Vec<AxialCoord>)
    ensures
        r@ == adjacent_only(v@, pos),
{
    let mut out: Vec<AxialCoord> = Vec::new();
    let mut i: usize = 0;
    while i < v.len()
        invariant
            i <= v@.len(),
            out@ == adjacent_only(v@.take(i as int), pos),
        decreases v@.len() - i,
    {
        assert(v@.take(i + 1).drop_last() =~= v@.take(i as int));
        if pos.is_adjacent(v[i]) {
            out.push(v[i]);
        }
        i = i + 1;
    }
    assert(v@.take(v@.len() as int) =~= v@);
    out
}

/// The largest of three costs.
fn max_of(a: u128, b: u128, c: u128) -> (r: u128)
    ensures
        r as int == max3((a as int, b as int, c as int)),
{
    if a >= b && a >= c {
        a
    } else if b >= c {
        b
    } else {
        c
    }
}

impl GameState {
    /// The first cave entry at `c`, if any.
    fn find_cave(&self, c: AxialCoord) -> (r: Option<usize>)
        ensures
            opt_int(r) == cave_at(self.bonuses@, c),
            r matches Some(k) ==> k < self.bonuses@.len() && self.bonuses@[k as int].0 == c,
    {
        let mut k: usize = 0;
        while k < self.bonuses.len()
            invariant
                k <= self.bonuses@.len(),
                forall|j: int| 0 <= j < k ==> (#[trigger] self.bonuses@[j]).0 != c,
            decreases self.bonuses@.len() - k,
        {
            if self.bonuses[k].0 == c {
                proof {
                    let bs = self.bonuses@;
                    let x = choose|x: int| 0 <= x < bs.len() && bs[x].0 == c && forall|j: int| 0 <= j < x ==> (#[trigger] bs[j]).0 != c;
                    assert(0 <= k < bs.len() && bs[k as int].0 == c);
                    if x < k {
                    } else if x > k {
                        assert(bs[k as int].0 != c);
                    }
                }
                return Some(k);
            }
            k = k + 1;
        }
        None
    }

    /// Checks the selected tokens of a token-paid move against its costs.
    fn scan_tokens(&self, mv: &MoveAction, cost: (u128, u128, u128)) -> (r: Result<usize, ActionError>)
        requires
            self.wf(),
            valid_selection(mv.tokens@, self.current().tokens@.len() as int),
        ensures
            match r {
                Ok(n) => token_scan(self.current().tokens@, mv.tokens@, (cost.0 as int, cost.1 as int, cost.2 as int), mv.tokens@.len() as int) == Ok::<int, ActionError>(n as int),
                Err(e) => token_scan(self.current().tokens@, mv.tokens@, (cost.0 as int, cost.1 as int, cost.2 as int), mv.tokens@.len() as int) == Err::<int, ActionError>(e),
            },
    {
        let ghost c = (cost.0 as int, cost.1 as int, cost.2 as int);
        let tokens = &self.players[self.curr_player_idx].tokens;
        let mut share: usize = 0;
        let mut k: usize = 0;
        while k < mv.tokens.len()
            invariant
                self.wf(),
                *tokens == self.current().tokens,
                c == (cost.0 as int, cost.1 as int, cost.2 as int),
                valid_selection(mv.tokens@, tokens@.len() as int),
                k <= mv.tokens@.len(),
                share <= k,
                token_scan(tokens@, mv.tokens@, c, k as int) == Ok::<int, ActionError>(share as int),
            decreases mv.tokens@.len() - k,
        {
            let r: Result<usize, ActionError> = match tokens[mv.tokens[k]] {
                BonusToken::Jungle(m) => if cost.0 > m as u128 { Err(ActionError::NotEnoughMovement) } else { Ok(share) },
                BonusToken::Desert(m) => if cost.1 > m as u128 { Err(ActionError::NotEnoughMovement) } else { Ok(share) },
                BonusToken::Water(m) => if cost.2 > m as u128 { Err(ActionError::NotEnoughMovement) } else { Ok(share) },
                BonusToken::FreeMove => Ok(share),
                BonusToken::ShareHex => Ok(share + 1),
                BonusToken::SwapSymbol => Err(ActionError::SwapNeedsCard),
                _ => Err(ActionError::TokenCannotMove),
            };
            assert(token_scan(tokens@, mv.tokens@, c, k + 1) == match token_scan(tokens@, mv.tokens@, c, k as int) {
                Err(e) => Err(e),
                Ok(sh) => match tokens@[mv.tokens@[k as int] as int] {
                    BonusToken::Jungle(m) => if c.0 > m { Err(ActionError::NotEnoughMovement) } else { Ok(sh) },
                    BonusToken::Desert(m) => if c.1 > m { Err(ActionError::NotEnoughMovement) } else { Ok(sh) },
                    BonusToken::Water(m) => if c.2 > m { Err(ActionError::NotEnoughMovement) } else { Ok(sh) },
                    BonusToken::FreeMove => Ok(sh),
                    BonusToken::ShareHex => Ok(sh + 1),
                    BonusToken::SwapSymbol => Err(ActionError::SwapNeedsCard),
                    _ => Err(ActionError::TokenCannotMove),
                },
            });
            match r {
                Ok(n) => {
                    share = n;
                },
                Err(e) => {
                    proof {
                        lemma_scan_error(tokens@, mv.tokens@, c, k + 1, mv.tokens@.len() as int, e);
                    }
                    return Err(e);
                },
            }
            k = k + 1;
        }
        Ok(share)
    }

    /// Applies the rules that follow the walk.
    fn settle(&self, mv: &MoveAction, w: &Walker) -> (r: Result<Plan, ActionError>)
        requires
            self.wf(),
            valid_selection(mv.cards@, self.current().hand@.len() as int),
            valid_selection(mv.tokens@, self.current().tokens@.len() as int),
            w.barrier matches Some(b) ==> b < self.barriers@.len(),
            w.c0 + w.c1 + w.c2 + w.card_cost <= 255 * mv.path@.len(),
        ensures
            match r {
                Ok(p) => settle_walk(*self, *mv, w.walk()) == Ok::<MovePlan, ActionError>(p.plan()),
                Err(e) => settle_walk(*self, *mv, w.walk()) == Err::<MovePlan, ActionError>(e),
            },
    {
        let p = &self.players[self.curr_player_idx];
        let len = mv.path.len();
        if let Some(c) = w.cave {
            if len != 1 {
                return Err(ActionError::CaveNotAdjacent);
            }
            if mv.cards.len() != 0 {
                return Err(ActionError::CardsAtCave);
            }
            let mut v: usize = 0;
            while v < p.visited_caves.len()
                invariant
                    self.wf(),
                    *p == self.current(),
                    w.cave == Some(c),
                    len == mv.path@.len(),
                    len == 1,
                    mv.cards@.len() == 0,
                    v <= p.visited_caves@.len(),
                    forall|j: int| 0 <= j < v ==> p.visited_caves@[j] != c,
                decreases p.visited_caves@.len() - v,
            {
                if p.visited_caves[v] == c {
                    assert(p.visited_caves@.contains(c));
                    return Err(ActionError::CaveVisited);
                }
                v = v + 1;
            }
            return match self.find_cave(c) {
                None => Err(ActionError::NoCave),
                Some(k) => if self.bonuses[k].1.len() == 0 {
                    Err(ActionError::CaveEmpty)
                } else {
                    Ok(Plan { pos: p.position, cave: Some(c), barrier: w.barrier, ignore: w.ignore, trash: false })
                },
            };
        }
        let free = mv.is_free_move(p);
        if free && len != 1 {
            return Err(ActionError::FreeMoveOneStep);
        }
        let card_cost: u128 = if !free {
            w.card_cost
        } else {
            match w.barrier {
                None => 0,
                Some(b) => match self.barriers[b].terrain {
                    Terrain::Jungle | Terrain::Desert | Terrain::Water => {
                        return Err(ActionError::FreeMoveBarrier);
                    },
                    Terrain::Swamp => self.barriers[b].cost as u128,
                    _ => {
                        return Err(ActionError::InvalidBarrier);
                    },
                },
            }
        };
        let cost: (u128, u128, u128) = if free { (0, 0, 0) } else { (w.c0, w.c1, w.c2) };
        if card_cost > 0 {
            if len != 1 {
                return Err(ActionError::CardCostOneStep);
            }
            if mv.cards.len() as u128 != card_cost {
                return Err(ActionError::WrongCardCount);
            }
            if mv.tokens.len() > 1 || (mv.tokens.len() == 1 && p.tokens[mv.tokens[0]] != BonusToken::ShareHex) {
                return Err(ActionError::TokenNotAllowed);
            }
            let village = self.map.with_terrain(w.pos, Terrain::Village).is_some();
            return Ok(Plan { pos: w.pos, cave: None, barrier: w.barrier, ignore: w.ignore, trash: village });
        }
        assert(cost.0 <= u128::MAX / 4 && cost.1 <= u128::MAX / 4 && cost.2 <= u128::MAX / 4);
        let max_cost = max_of(cost.0, cost.1, cost.2);
        if cost.0 + cost.1 + cost.2 != max_cost {
            return Err(ActionError::MixedTypes);
        }
        if mv.cards.len() > 0 {
            if mv.cards.len() != 1 {
                return Err(ActionError::SingleCard);
            }
            let card = p.hand[mv.cards[0]];
            let swap = selects_token(&p.tokens, &mv.tokens, BonusToken::SwapSymbol);
            let covers = if swap {
                max_of(card.movement[0] as u128, card.movement[1] as u128, card.movement[2] as u128) >= max_cost
            } else {
                cost.0 <= card.movement[0] as u128 && cost.1 <= card.movement[1] as u128 && cost.2 <= card.movement[2] as u128
            };
            if !covers {
                return Err(ActionError::NotEnoughMovement);
            }
            let double = selects_token(&p.tokens, &mv.tokens, BonusToken::DoubleUse);
            return Ok(Plan { pos: w.pos, cave: None, barrier: w.barrier, ignore: w.ignore, trash: card.single_use && !double });
        }
        if mv.tokens.len() > 0 {
            let share = match self.scan_tokens(mv, cost) {
                Ok(n) => n,
                Err(e) => {
                    return Err(e);
                },
            };
            if share > 1 {
                return Err(ActionError::TooManyShareHex);
            }
            if mv.tokens.len() - share != 1 {
                return Err(ActionError::OneMoveToken);
            }
            return Ok(Plan { pos: w.pos, cave: None, barrier: w.barrier, ignore: w.ignore, trash: false });
        }
        Err(ActionError::NoPayment)
    }
}

impl GameState {
    /// Validates a move for the current player and, when it is legal,
    /// carries it out. Returns the index of the path step that left the
    /// player in place, if any.
    #[verifier::spinoff_prover]
    #[verifier::rlimit(40)]
    pub fn handle_move(&mut self, mv: &MoveAction) -> (r: Result<Option<usize>, ActionError>)
        requires
            old(self).wf(),
        ensures
            final(self).wf(),
            match move_plan(*old(self), *mv) {
                Err(e) => r == Err::<Option<usize>, ActionError>(e) && *final(self) == *old(self),
                Ok(plan) => (r matches Ok(ig) && opt_int(ig) == plan.ignore) && moved(*old(self), *final(self), *mv, plan),
            },
    {
        let c = self.curr_player_idx;
        if !crate::player::is_valid_selection(&mv.cards, self.players[c].hand.len())
            || !crate::player::is_valid_selection(&mv.tokens, self.players[c].tokens.len()) {
            return Err(ActionError::BadIndices);
        }
        if mv.path.len() == 0 {
            return Err(ActionError::EmptyPath);
        }
        let position = self.players[c].position;
        let node = match self.map.node_at(position) {
            Some(n) => n,
            None => {
                return Err(ActionError::InvalidPosition);
            },
        };
        let start = Walker {
            pos: position,
            board: node.board_idx as usize,
            c0: 0,
            c1: 0,
            c2: 0,
            card_cost: 0,
            barrier: None,
            cave: None,
            ignore: None,
        };
        assert(start.walk() == start_walk(position, node));
        let w = match self.walk_path(mv, start) {
            Ok(w) => w,
            Err(e) => {
                return Err(e);
            },
        };
        let plan = match self.settle(mv, &w) {
            Ok(p) => p,
            Err(e) => {
                return Err(e);
            },
        };
        let ghost s0 = *self;
        if let Some(cv) = plan.cave {
            let k = self.find_cave(cv).unwrap();
            assert(self.bonuses@[k as int].0 == cv);
            let ghost stack = self.bonuses@[k as int].1@;
            let tok = self.bonuses[k].1.pop().unwrap();
            assert(tok == stack.last());
            assert(self.bonuses@[k as int].1@ == stack.drop_last());
            assert(self.bonuses@[k as int].0 == cv);
            self.players[c].tokens.push(tok);
            self.players[c].visited_caves.push(cv);
            assert(moved(s0, *self, *mv, plan.plan()));
            return Ok(plan.ignore);
        }
        let ghost p0 = self.players@[c as int];
        self.players[c].position = plan.pos;
        if plan.trash {
            self.players[c].trash_cards(mv.cards.as_slice());
        } else {
            self.players[c].mark_played(mv.cards.as_slice());
        }
        let kept = keep_adjacent(&self.players[c].visited_caves, plan.pos);
        self.players[c].visited_caves = kept;
        let (tokens, _used) = crate::player::split_selected(&self.players[c].tokens, mv.tokens.as_slice());
        self.players[c].tokens = tokens;
        if let Some(b) = plan.barrier {
            let bar = self.barriers.remove(b);
            self.players[c].broken_barriers.push(BrokenBarrier { terrain: bar.terrain, cost: bar.cost });
        }
        Ok(plan.ignore)
    }
}

/// Once a token scan fails, every longer scan fails the same way.
proof fn lemma_scan_error(tokens: Seq<BonusToken>, sel: Seq<usize>, cost: (int, int, int), m: int, n: int, e: ActionError)
    requires
        0 <= m <= n,
        token_scan(tokens, sel, cost, m) == Err::<int, ActionError>(e),
    ensures
        token_scan(tokens, sel, cost, n) == Err::<int, ActionError>(e),
    decreases n - m,
{
    if m < n {
        lemma_scan_error(tokens, sel, cost, m, n - 1, e);
    }
}

impl MoveAction {
    /// A move paid with one card.
    pub fn single_card(card: usize, path: Vec<HexDirection>) -> (r: Self)
        ensures
            r.cards@ == seq![card],
            r.tokens@.len() == 0,
            r.path@ == path@,
    {
        MoveAction { cards: vec![card], tokens: Vec::new(), path }
    }

    /// A move paid with one token.
    pub fn single_token(token: usize, path: Vec<HexDirection>) -> (r: Self)
        ensures
            r.cards@.len() == 0,
            r.tokens@ == seq![token],
            r.path@ == path@,
    {
        MoveAction { cards: Vec::new(), tokens: vec![token], path }
    }

    /// A single step paid with several cards.
    pub fn multi_card(cards: Vec<usize>, dir: HexDirection) -> (r: Self)
        ensures
            r.cards@ == cards@,
            r.tokens@.len() == 0,
            r.path@ == seq![dir],
    {
        MoveAction { cards, tokens: Vec::new(), path: vec![dir] }
    }

    /// A visit to the adjacent cave in direction `dir`.
    pub fn cave(dir: HexDirection) -> (r: Self)
        ensures
            r.cards@.len() == 0,
            r.tokens@.len() == 0,
            r.path@ == seq![dir],
    {
        MoveAction { cards: Vec::new(), tokens: Vec::new(), path: vec![dir] }
    }

    /// Whether the move is paid by a single free-move card, or else by a
    /// single free-move token.
    pub fn is_free_move(&self, player: &Player) -> (r: bool)
        ensures
            r == spec_free_move(*self, *player),
    {
        if self.cards.len() == 1 && self.cards[0] < player.hand.len() {
            return match player.hand[self.cards[0]].action {
                Some(CardAction::FreeMove) => true,
                _ => false,
            };
        }
        if self.tokens.len() == 1 && self.tokens[0] < player.tokens.len() {
            return match player.tokens[self.tokens[0]] {
                BonusToken::FreeMove => true,
                _ => false,
            };
        }
        false
    }
}

} // verus!

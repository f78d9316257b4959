use vstd::prelude::*;

verus! {

/// A hex position in axial coordinates.
#[derive(Clone, Copy, Debug, PartialEq, Eq, Structural, Hash)]
pub struct AxialCoord {
    pub q: i32,
    pub r: i32,
}

/// Two coordinates are adjacent when their cube distance is exactly one.
pub open spec fn coords_adjacent(a: AxialCoord, b: AxialCoord) -> bool {
    let dq = a.q - b.q;
    let dr = a.r - b.r;
    let ds = (a.q + a.r) - (b.q + b.r);
    &&& -1 <= dq <= 1
    &&& -1 <= dr <= 1
    &&& -1 <= ds <= 1
    &&& (dq != 0 || dr != 0)
}

/// Coordinates whose six neighbours are all representable.
pub open spec fn interior(c: AxialCoord) -> bool {
    &&& i32::MIN < c.q < i32::MAX
    &&& i32::MIN < c.r < i32::MAX
}

impl AxialCoord {
    /// Whether `other` is one of the six neighbours of this coordinate.
    pub fn is_adjacent(&self, other: AxialCoord) -> (r: bool)
        ensures
            r == coords_adjacent(*self, other),
    {
        let dq = self.q as i64 - other.q as i64;
        let dr = self.r as i64 - other.r as i64;
        let ds = (self.q as i64 + self.r as i64) - (other.q as i64 + other.r as i64);
        -1 <= dq && dq <= 1 && -1 <= dr && dr <= 1 && -1 <= ds && ds <= 1 && (dq != 0 || dr != 0)
    }
}

/// One of the six directions from a hex to its neighbours.
#[derive(Clone, Copy, Debug, PartialEq, Eq, Structural)]
pub enum HexDirection {
    NorthEast,
    East,
    SouthEast,
    SouthWest,
    West,
    NorthWest,
}

/// The direction with the given position in clockwise order from north-east.
pub open spec fn direction_at(i: int) -> HexDirection {
    if i == 0 {
        HexDirection::NorthEast
    } else if i == 1 {
        HexDirection::East
    } else if i == 2 {
        HexDirection::SouthEast
    } else if i == 3 {
        HexDirection::SouthWest
    } else if i == 4 {
        HexDirection::West
    } else {
        HexDirection::NorthWest
    }
}

/// The position of a direction in clockwise order from north-east.
pub open spec fn direction_index(d: HexDirection) -> int {
    match d {
        HexDirection::NorthEast => 0,
        HexDirection::East => 1,
        HexDirection::SouthEast => 2,
        HexDirection::SouthWest => 3,
        HexDirection::West => 4,
        HexDirection::NorthWest => 5,
    }
}

/// The opposite direction.
pub open spec fn opposite(d: HexDirection) -> HexDirection {
    direction_at((direction_index(d) + 3) % 6)
}

/// The axial offset of one step in a direction.
pub open spec fn offset(d: HexDirection) -> (int, int) {
    match d {
        HexDirection::NorthEast => (1, -1),
        HexDirection::East => (1, 0),
        HexDirection::SouthEast => (0, 1),
        HexDirection::SouthWest => (-1, 1),
        HexDirection::West => (-1, 0),
        HexDirection::NorthWest => (0, -1),
    }
}

/// The neighbour of `c` in direction `d`.
pub open spec fn step(c: AxialCoord, d: HexDirection) -> AxialCoord {
    AxialCoord { q: (c.q + offset(d).0) as i32, r: (c.r + offset(d).1) as i32 }
}

/// Stepping one way and then back returns to the start.
pub proof fn lemma_step_back(c: AxialCoord, d: HexDirection)
    requires
        interior(c),
    ensures
        step(step(c, d), opposite(d)) == c,
        opposite(opposite(d)) == d,
{
}

impl HexDirection {
    /// The direction at position `idx` in clockwise order from north-east.
    pub fn from_index(idx: usize) -> (r: Self)
        requires
            idx < 6,
        ensures
            r == direction_at(idx as int),
            direction_index(r) == idx,
    {
        match idx {
            0 => HexDirection::NorthEast,
            1 => HexDirection::East,
            2 => HexDirection::SouthEast,
            3 => HexDirection::SouthWest,
            4 => HexDirection::West,
            _ => HexDirection::NorthWest,
        }
    }

    /// The position of this direction in clockwise order from north-east.
    pub fn index(&self) -> (r: usize)
        ensures
            r == direction_index(*self),
            r < 6,
            direction_at(r as int) == *self,
    {
        match self {
            HexDirection::NorthEast => 0,
            HexDirection::East => 1,
            HexDirection::SouthEast => 2,
            HexDirection::SouthWest => 3,
            HexDirection::West => 4,
            HexDirection::NorthWest => 5,
        }
    }

    /// The opposite direction.
    pub fn reverse(&self) -> (r: Self)
        ensures
            r == opposite(*self),
    {
        match self {
            HexDirection::NorthEast => HexDirection::SouthWest,
            HexDirection::East => HexDirection::West,
            HexDirection::SouthEast => HexDirection::NorthWest,
            HexDirection::SouthWest => HexDirection::NorthEast,
            HexDirection::West => HexDirection::East,
            HexDirection::NorthWest => HexDirection::SouthEast,
        }
    }

    /// The neighbour of `coord` in this direction.
    pub fn neighbor_coord(&self, coord: AxialCoord) -> (r: AxialCoord)
        requires
            interior(coord),
        ensures
            r == step(coord, *self),
    {
        match self {
            HexDirection::East => AxialCoord { q: coord.q + 1, r: coord.r },
            HexDirection::West => AxialCoord { q: coord.q - 1, r: coord.r },
            HexDirection::NorthEast => AxialCoord { q: coord.q + 1, r: coord.r - 1 },
            HexDirection::NorthWest => AxialCoord { q: coord.q, r: coord.r - 1 },
            HexDirection::SouthEast => AxialCoord { q: coord.q, r: coord.r + 1 },
            HexDirection::SouthWest => AxialCoord { q: coord.q - 1, r: coord.r + 1 },
        }
    }
}

/// The kind of ground on a hex.
#[derive(Clone, Copy, Debug, PartialEq, Eq, Structural)]
pub enum Terrain {
    Invalid,
    Jungle,
    Desert,
    Water,
    Village,
    Swamp,
    Cave,
}

/// The numeric code of a terrain.
pub open spec fn terrain_code(t: Terrain) -> u8 {
    match t {
        Terrain::Invalid => 0,
        Terrain::Jungle => 1,
        Terrain::Desert => 2,
        Terrain::Water => 3,
        Terrain::Village => 4,
        Terrain::Swamp => 5,
        Terrain::Cave => 6,
    }
}

impl Terrain {
    /// The numeric code of this terrain.
    pub fn as_u8(&self) -> (r: u8)
        ensures
            r == terrain_code(*self),
            r <= 6,
    {
        match self {
            Terrain::Invalid => 0,
            Terrain::Jungle => 1,
            Terrain::Desert => 2,
            Terrain::Water => 3,
            Terrain::Village => 4,
            Terrain::Swamp => 5,
            Terrain::Cave => 6,
        }
    }

    /// The terrain with the given code, if there is one.
    pub fn from_u8(value: u8) -> (r: Option<Self>)
        ensures
            value <= 6 <==> r is Some,
            r matches Some(t) ==> terrain_code(t) == value,
    {
        match value {
            0 => Some(Terrain::Invalid),
            1 => Some(Terrain::Jungle),
            2 => Some(Terrain::Desert),
            3 => Some(Terrain::Water),
            4 => Some(Terrain::Village),
            5 => Some(Terrain::Swamp),
            6 => Some(Terrain::Cave),
            _ => None,
        }
    }
}

/// A bonus token handed out by caves.
#[derive(Clone, Copy, Debug, PartialEq, Eq, Structural)]
pub enum BonusToken {
    Jungle(u8),
    Desert(u8),
    Water(u8),
    DrawCard,
    TrashCard,
    ReplaceHand,
    DoubleUse,
    ShareHex,
    FreeMove,
    SwapSymbol,
}

/// Purchasing power of a token: only desert tokens pay, at twice their value.
pub open spec fn token_gold(t: BonusToken) -> nat {
    match t {
        BonusToken::Desert(v) => 2 * v as nat,
        _ => 0,
    }
}

impl BonusToken {
    /// Purchasing power of this token.
    pub fn gold_value(&self) -> (r: u16)
        ensures
            r as nat == token_gold(*self),
    {
        match self {
            BonusToken::Desert(v) => 2 * (*v as u16),
            _ => 0,
        }
    }
}

/// Nodes at least this costly can never be entered.
pub const IMPASSABLE_COST: u8 = 10;

/// One hex of the map.
#[derive(Clone, Copy, Debug, PartialEq, Eq, Structural)]
pub struct Node {
    pub terrain: Terrain,
    pub cost: u8,
    pub board_idx: u8,
}

/// The packed form of a node: terrain in the top four bits, then the cost in
/// four bits, then the board index in the low byte.
pub open spec fn packed_node(n: Node) -> u16 {
    ((terrain_code(n.terrain) as u16) << 12u16) | ((n.cost as u16) << 8u16) | (n.board_idx as u16)
}

impl Node {
    /// Packs the node into sixteen bits. The cost keeps its low four bits.
    pub fn to_u16(&self) -> (r: u16)
        requires
            self.cost < 16,
        ensures
            r == packed_node(*self),
    {
        let t = self.terrain.as_u8() as u16;
        let c = self.cost as u16;
        let b = self.board_idx as u16;
        (t << 12u16) | (c << 8u16) | b
    }

    /// Unpacks a node; fails when the terrain code is unknown.
    pub fn from_u16(raw: u16) -> (r: Option<Node>)
        ensures
            ((raw >> 12u16) as u8 <= 6) <==> r is Some,
            r matches Some(n) ==> {
                &&& terrain_code(n.terrain) == (raw >> 12u16) as u8
                &&& n.cost == ((raw >> 8u16) & 0xfu16) as u8
                &&& n.board_idx == (raw & 0xffu16) as u8
            },
    {
        let t = ((raw >> 12u16) & 0xfu16) as u8;
        let cost = ((raw >> 8u16) & 0xfu16) as u8;
        let board_idx = (raw & 0xffu16) as u8;
        assert((raw >> 12u16) & 0xfu16 == raw >> 12u16) by (bit_vector);
        match Terrain::from_u8(t) {
            Some(terrain) => Some(Node { terrain, cost, board_idx }),
            None => None,
        }
    }
}

/// Packing a node and unpacking it again gives the node back.
pub proof fn lemma_node_round_trip(n: Node)
    requires
        n.cost < 16,
    ensures
        ({
            let raw = packed_node(n);
            &&& (raw >> 12u16) as u8 == terrain_code(n.terrain)
            &&& ((raw >> 8u16) & 0xfu16) as u8 == n.cost
            &&& (raw & 0xffu16) as u8 == n.board_idx
        }),
{
    let t = terrain_code(n.terrain) as u16;
    let c = n.cost as u16;
    let b = n.board_idx as u16;
    assert(t <= 6);
    assert(((t << 12u16) | (c << 8u16) | b) >> 12u16 == t) by (bit_vector)
        requires
            t <= 6,
            c < 16,
            b < 256,
    ;
    assert((((t << 12u16) | (c << 8u16) | b) >> 8u16) & 0xfu16 == c) by (bit_vector)
        requires
            t <= 6,
            c < 16,
            b < 256,
    ;
    assert(((t << 12u16) | (c << 8u16) | b) & 0xffu16 == b) by (bit_vector)
        requires
            t <= 6,
            c < 16,
            b < 256,
    ;
}

/// A barrier between two adjacent boards of the map.
#[derive(Clone, Debug)]
pub struct Barrier {
    pub from_board: usize,
    pub to_board: usize,
    pub terrain: Terrain,
    pub cost: u8,
    /// Every hex and direction whose step crosses this barrier.
    pub edges: Vec<(AxialCoord, HexDirection)>,
}

/// What a player keeps of a barrier that they broke.
#[derive(Clone, Copy, Debug, PartialEq, Eq, Structural)]
pub struct BrokenBarrier {
    pub terrain: Terrain,
    pub cost: u8,
}

/// One entry of a map layout: which board, turned how far, placed where.
#[derive(Clone, Copy, Debug, PartialEq, Eq, Structural)]
pub struct LayoutInfo {
    pub board: char,
    /// Clockwise turns of sixty degrees.
    pub rotation: u8,
    pub center: AxialCoord,
}

impl LayoutInfo {
    pub fn new(board: char, rotation: u8, q: i32, r: i32) -> (res: Self)
        ensures
            res == (LayoutInfo { board, rotation, center: AxialCoord { q, r } }),
    {
        LayoutInfo { board, rotation, center: AxialCoord { q, r } }
    }
}

/// One hex of a board template, in the board's own coordinates.
#[derive(Clone, Copy, Debug, PartialEq, Eq, Structural)]
pub struct BoardNode {
    pub terrain: Terrain,
    pub cost: u8,
    pub coord: AxialCoord,
}

} // verus!

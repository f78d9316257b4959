use vstd::prelude::*;
use crate::hex::{AxialCoord, BoardNode, LayoutInfo, Node, Terrain, interior};

verus! {

/// Why a map could not be built.
#[derive(Clone, Copy, Debug, PartialEq, Eq, Structural)]
pub enum MapError {
    /// The layout names no board at all.
    EmptyLayout,
    /// Board indices are bytes, so a layout holds at most 256 boards.
    TooManyBoards,
    /// The layout names a board that the board set does not hold.
    InvalidBoard(char),
    /// No preset layout has the given name.
    UnknownLayout,
    /// A placed hex falls outside the representable coordinates.
    OutOfRange,
    /// Two boards of the layout cover the same hex.
    Overlap(AxialCoord),
    /// Stored map data is not sorted, not unique, or inconsistent.
    Corrupt,
}

/// A board template: the hexes of one board around its own origin.
#[derive(Clone, Debug)]
pub struct BoardTemplate {
    pub letter: char,
    pub nodes: Vec<BoardNode>,
}

/// A named layout.
#[derive(Clone, Debug)]
pub struct Preset {
    pub name: String,
    pub layout: Vec<LayoutInfo>,
}

/// The static assets that maps are built from: board templates and preset
/// layouts.
#[derive(Clone, Debug)]
pub struct Assets {
    pub boards: Vec<BoardTemplate>,
    pub presets: Vec<Preset>,
}

/// Whether some template of `boards` carries `letter`.
pub open spec fn has_board(boards: Seq<BoardTemplate>, letter: char) -> bool {
    exists|k: int| 0 <= k < boards.len() && boards[k].letter == letter
}

/// Whether `k` is the first template of `boards` that carries `letter`.
pub open spec fn first_board(boards: Seq<BoardTemplate>, letter: char, k: int) -> bool {
    &&& 0 <= k < boards.len()
    &&& boards[k].letter == letter
    &&& forall|j: int| 0 <= j < k ==> (#[trigger] boards[j]).letter != letter
}

/// The index of the first template of `boards` that carries `letter`.
pub open spec fn board_pos(boards: Seq<BoardTemplate>, letter: char) -> int {
    choose|k: int| first_board(boards, letter, k)
}

/// The hexes of the first template that carries `letter`.
pub open spec fn board_nodes(boards: Seq<BoardTemplate>, letter: char) -> Seq<BoardNode> {
    boards[board_pos(boards, letter)].nodes@
}

/// Whether every board that the layout names is in the set.
pub open spec fn all_boards_known(layout: Seq<LayoutInfo>, boards: Seq<BoardTemplate>) -> bool {
    forall|i: int| 0 <= i < layout.len() ==> has_board(boards, #[trigger] layout[i].board)
}

/// One turn of sixty degrees about the origin, in cube coordinates.
pub open spec fn rotate_once(c: (int, int)) -> (int, int) {
    (-c.1, c.0 + c.1)
}

/// `n` turns about the origin.
pub open spec fn rotate(c: (int, int), n: nat) -> (int, int)
    decreases n,
{
    if n == 0 {
        c
    } else {
        rotate_once(rotate(c, (n - 1) as nat))
    }
}

/// Where a template hex lands under a layout entry.
pub open spec fn place(b: BoardNode, e: LayoutInfo) -> (int, int) {
    let c = rotate((b.coord.q as int, b.coord.r as int), e.rotation as nat);
    (c.0 + e.center.q, c.1 + e.center.r)
}

/// The node that a template hex becomes on board `i` of the map.
pub open spec fn placed_node(b: BoardNode, i: int) -> Node {
    Node { terrain: b.terrain, cost: b.cost, board_idx: i as u8 }
}

/// Every hex of the first `n` layout entries, in layout order and then
/// template order: where it lands and the node it becomes.
pub open spec fn placements_upto(
    layout: Seq<LayoutInfo>,
    boards: Seq<BoardTemplate>,
    n: nat,
) -> Seq<((int, int), Node)>
    decreases n,
{
    if n == 0 {
        Seq::empty()
    } else {
        let i = n - 1;
        let e = layout[i];
        placements_upto(layout, boards, (n - 1) as nat) + board_nodes(boards, e.board).map(
            |j: int, b: BoardNode| (place(b, e), placed_node(b, i)),
        )
    }
}

/// Every hex that a layout places.
pub open spec fn placements(layout: Seq<LayoutInfo>, boards: Seq<BoardTemplate>) -> Seq<((int, int), Node)> {
    placements_upto(layout, boards, layout.len())
}

/// The coordinate of a placement, when it is representable.
pub open spec fn as_coord(p: (int, int)) -> AxialCoord {
    AxialCoord { q: p.0 as i32, r: p.1 as i32 }
}

/// Whether a placed position lies where every neighbour is representable.
pub open spec fn fits(p: (int, int)) -> bool {
    &&& i32::MIN < p.0 < i32::MAX
    &&& i32::MIN < p.1 < i32::MAX
}

/// Whether every placement is representable.
pub open spec fn all_fit(ps: Seq<((int, int), Node)>) -> bool {
    forall|k: int| 0 <= k < ps.len() ==> fits(#[trigger] ps[k].0)
}

/// Whether no two placements share a position.
pub open spec fn all_distinct(ps: Seq<((int, int), Node)>) -> bool {
    forall|a: int, b: int| 0 <= a < b < ps.len() ==> #[trigger] ps[a].0 != #[trigger] ps[b].0
}

/// Lexicographic order on coordinates: by `q`, then by `r`.
pub open spec fn coord_lt(a: AxialCoord, b: AxialCoord) -> bool {
    a.q < b.q || (a.q == b.q && a.r < b.r)
}

/// Strictly increasing coordinates, hence no coordinate twice.
pub open spec fn strictly_sorted(s: Seq<AxialCoord>) -> bool {
    forall|i: int, j: int| 0 <= i < j < s.len() ==> coord_lt(#[trigger] s[i], #[trigger] s[j])
}

/// The immutable hex topology: nodes sorted by coordinate, and the board
/// that holds the finish.
#[derive(Clone, Debug)]
pub struct HexMap {
    pub coords: Vec<AxialCoord>,
    pub nodes: Vec<Node>,
    pub finish_idx: u8,
}

impl HexMap {
    /// Coordinates sorted and unique, one node per coordinate, every
    /// coordinate with representable neighbours.
    pub open spec fn wf(&self) -> bool {
        &&& self.coords@.len() == self.nodes@.len()
        &&& strictly_sorted(self.coords@)
        &&& forall|i: int| 0 <= i < self.coords@.len() ==> interior(#[trigger] self.coords@[i])
    }

    /// The index of the node at `c`, if any.
    pub open spec fn index_of(&self, c: AxialCoord) -> Option<int> {
        if exists|i: int| 0 <= i < self.coords@.len() && self.coords@[i] == c {
            Some(choose|i: int| 0 <= i < self.coords@.len() && self.coords@[i] == c)
        } else {
            None
        }
    }

    /// Whether `c` is a hex of the map.
    pub open spec fn contains(&self, c: AxialCoord) -> bool {
        exists|i: int| 0 <= i < self.coords@.len() && self.coords@[i] == c
    }

    /// The node at `c`, if any.
    pub open spec fn spec_node_at(&self, c: AxialCoord) -> Option<Node> {
        match self.index_of(c) {
            Some(i) => Some(self.nodes@[i]),
            None => None,
        }
    }

    /// Whether `c` is a hex of the finish board.
    pub open spec fn spec_is_finish(&self, c: AxialCoord) -> bool {
        match self.spec_node_at(c) {
            Some(n) => n.board_idx == self.finish_idx,
            None => false,
        }
    }

    /// Number of hexes.
    pub fn len(&self) -> (r: usize)
        ensures
            r == self.coords@.len(),
    {
        self.coords.len()
    }
}

/// In a strictly sorted sequence a coordinate has at most one index.
pub proof fn lemma_index_unique(m: &HexMap, i: int, c: AxialCoord)
    requires
        m.wf(),
        0 <= i < m.coords@.len(),
        m.coords@[i] == c,
    ensures
        m.index_of(c) == Some(i),
        m.contains(c),
{
    let j = choose|j: int| 0 <= j < m.coords@.len() && m.coords@[j] == c;
    if j < i {
        assert(coord_lt(m.coords@[j], m.coords@[i]));
    } else if i < j {
        assert(coord_lt(m.coords@[i], m.coords@[j]));
    }
}

/// Matches a sequence of placed hexes against the placements they come from.
pub open spec fn placed_as(out: Seq<(AxialCoord, Node)>, ps: Seq<((int, int), Node)>) -> bool {
    &&& out.len() == ps.len()
    &&& forall|k: int|
        0 <= k < ps.len() ==> {
            &&& fits(#[trigger] ps[k].0)
            &&& out[k].0 == as_coord(ps[k].0)
            &&& out[k].1 == ps[k].1
        }
}

/// Whether a map holds exactly the given placements, one node for each.
pub open spec fn holds_placements(m: HexMap, ps: Seq<((int, int), Node)>) -> bool {
    &&& m.coords@.len() == ps.len()
    &&& forall|x: int| 0 <= x < m.coords@.len() ==> #[trigger] comes_from(m, ps, x)
    &&& forall|y: int| 0 <= y < ps.len() ==> #[trigger] lands_in(m, ps, y)
}

/// Whether the hex at index `x` of the map is one of the placements.
pub open spec fn comes_from(m: HexMap, ps: Seq<((int, int), Node)>, x: int) -> bool {
    exists|y: int|
        0 <= y < ps.len() && m.coords@[x] == as_coord(#[trigger] ps[y].0) && m.nodes@[x] == ps[y].1
}

/// Whether placement `y` is a hex of the map.
pub open spec fn lands_in(m: HexMap, ps: Seq<((int, int), Node)>, y: int) -> bool {
    exists|x: int|
        0 <= x < m.coords@.len() && #[trigger] m.coords@[x] == as_coord(ps[y].0) && m.nodes@[x] == ps[y].1
}

/// The placements of a shorter prefix of the layout come first.
pub proof fn lemma_placements_prefix(
    layout: Seq<LayoutInfo>,
    boards: Seq<BoardTemplate>,
    m: nat,
    n: nat,
)
    requires
        m <= n,
    ensures
        placements_upto(layout, boards, m).len() <= placements_upto(layout, boards, n).len(),
        forall|k: int|
            0 <= k < placements_upto(layout, boards, m).len() ==> #[trigger] placements_upto(
                layout,
                boards,
                m,
            )[k] == placements_upto(layout, boards, n)[k],
    decreases n,
{
    if m < n {
        lemma_placements_prefix(layout, boards, m, (n - 1) as nat);
    }
}

/// Index of the first coordinate of a sorted sequence that is not below `c`.
fn lower_bound(coords: &Vec<AxialCoord>, c: AxialCoord) -> (r: usize)
    requires
        strictly_sorted(coords@),
    ensures
        r <= coords@.len(),
        forall|i: int| 0 <= i < r ==> coord_lt(#[trigger] coords@[i], c),
        forall|i: int| r <= i < coords@.len() ==> !coord_lt(#[trigger] coords@[i], c),
{
    let mut lo: usize = 0;
    let mut hi: usize = coords.len();
    while lo < hi
        invariant
            strictly_sorted(coords@),
            lo <= hi <= coords@.len(),
            forall|i: int| 0 <= i < lo ==> coord_lt(#[trigger] coords@[i], c),
            forall|i: int| hi <= i < coords@.len() ==> !coord_lt(#[trigger] coords@[i], c),
        decreases hi - lo,
    {
        let mid = lo + (hi - lo) / 2;
        let m = coords[mid];
        if m.q < c.q || (m.q == c.q && m.r < c.r) {
            assert forall|i: int| 0 <= i < mid + 1 implies coord_lt(#[trigger] coords@[i], c) by {
                if i < mid {
                    assert(coord_lt(coords@[i], coords@[mid as int]));
                }
            }
            lo = mid + 1;
        } else {
            assert forall|i: int| mid <= i < coords@.len() implies !coord_lt(
                #[trigger] coords@[i],
                c,
            ) by {
                if i > mid {
                    assert(coord_lt(coords@[mid as int], coords@[i]));
                }
            }
            hi = mid;
        }
    }
    lo
}

impl HexMap {
    /// The index of the node at `coord`, found by binary search.
    pub fn node_idx(&self, coord: AxialCoord) -> (r: Option<usize>)
        requires
            self.wf(),
        ensures
            match r {
                Some(i) => self.index_of(coord) == Some(i as int) && i < self.coords@.len(),
                None => self.index_of(coord) is None && !self.contains(coord),
            },
    {
        let i = lower_bound(&self.coords, coord);
        if i < self.coords.len() && self.coords[i] == coord {
            proof {
                lemma_index_unique(self, i as int, coord);
            }
            Some(i)
        } else {
            proof {
                assert forall|j: int| 0 <= j < self.coords@.len() implies self.coords@[j] != coord by {
                    if j > i {
                        assert(coord_lt(self.coords@[i as int], self.coords@[j]));
                    }
                }
            }
            None
        }
    }

    /// The node at `coord`, if the map has one there.
    pub fn node_at(&self, coord: AxialCoord) -> (r: Option<Node>)
        requires
            self.wf(),
        ensures
            r == self.spec_node_at(coord),
    {
        match self.node_idx(coord) {
            Some(i) => Some(self.nodes[i]),
            None => None,
        }
    }

    /// The node with index `idx`, if there is one.
    pub fn node_at_idx(&self, idx: usize) -> (r: Option<Node>)
        ensures
            idx < self.nodes@.len() ==> r == Some(self.nodes@[idx as int]),
            idx >= self.nodes@.len() ==> r is None,
    {
        if idx < self.nodes.len() {
            Some(self.nodes[idx])
        } else {
            None
        }
    }

    /// The coordinate of the node with index `idx`, if there is one.
    pub fn coord_at_idx(&self, idx: usize) -> (r: Option<AxialCoord>)
        ensures
            idx < self.coords@.len() ==> r == Some(self.coords@[idx as int]),
            idx >= self.coords@.len() ==> r is None,
    {
        if idx < self.coords.len() {
            Some(self.coords[idx])
        } else {
            None
        }
    }

    /// Whether `coord` is a hex of the finish board.
    pub fn is_finish(&self, coord: AxialCoord) -> (r: bool)
        requires
            self.wf(),
        ensures
            r == self.spec_is_finish(coord),
    {
        match self.node_at(coord) {
            Some(n) => n.board_idx == self.finish_idx,
            None => false,
        }
    }

    /// The node at `coord` when its terrain is `terrain`.
    pub fn with_terrain(&self, coord: AxialCoord, terrain: Terrain) -> (r: Option<Node>)
        requires
            self.wf(),
        ensures
            r == (match self.spec_node_at(coord) {
                Some(n) => if n.terrain == terrain {
                    Some(n)
                } else {
                    None
                },
                None => None,
            }),
    {
        match self.node_at(coord) {
            Some(n) => if n.terrain == terrain {
                Some(n)
            } else {
                None
            },
            None => None,
        }
    }

    /// Every hex with its node, in coordinate order.
    pub fn all_nodes(&self) -> (r: Vec<(AxialCoord, Node)>)
        requires
            self.coords@.len() == self.nodes@.len(),
        ensures
            r@.len() == self.coords@.len(),
            forall|i: int|
                0 <= i < r@.len() ==> #[trigger] r@[i] == (self.coords@[i], self.nodes@[i]),
    {
        let mut out: Vec<(AxialCoord, Node)> = Vec::new();
        let mut i: usize = 0;
        while i < self.coords.len()
            invariant
                self.coords@.len() == self.nodes@.len(),
                i <= self.coords@.len(),
                out@.len() == i,
                forall|k: int| 0 <= k < i ==> #[trigger] out@[k] == (self.coords@[k], self.nodes@[k]),
            decreases self.coords@.len() - i,
        {
            out.push((self.coords[i], self.nodes[i]));
            i = i + 1;
        }
        out
    }
}

/// Every coordinate of a well-formed map finds its own index and node again.
pub proof fn lemma_coords_round_trip(m: &HexMap)
    requires
        m.wf(),
    ensures
        forall|i: int|
            0 <= i < m.coords@.len() ==> m.index_of(#[trigger] m.coords@[i]) == Some(i)
                && m.spec_node_at(m.coords@[i]) == Some(m.nodes@[i]),
{
    assert forall|i: int| 0 <= i < m.coords@.len() implies m.index_of(
        #[trigger] m.coords@[i],
    ) == Some(i) && m.spec_node_at(m.coords@[i]) == Some(m.nodes@[i]) by {
        lemma_index_unique(m, i, m.coords@[i]);
    }
}

impl Assets {
    /// The index of the first template that carries `letter`.
    pub fn find_board(&self, letter: char) -> (r: Option<usize>)
        ensures
            match r {
                Some(k) => first_board(self.boards@, letter, k as int) && board_pos(
                    self.boards@,
                    letter,
                ) == k,
                None => !has_board(self.boards@, letter),
            },
    {
        let mut k: usize = 0;
        while k < self.boards.len()
            invariant
                k <= self.boards@.len(),
                forall|j: int| 0 <= j < k ==> (#[trigger] self.boards@[j]).letter != letter,
            decreases self.boards@.len() - k,
        {
            if self.boards[k].letter == letter {
                proof {
                    let b = self.boards@;
                    assert(first_board(b, letter, k as int));
                    let c = board_pos(b, letter);
                    assert(first_board(b, letter, c));
                    if c < k {
                        assert(b[c].letter != letter);
                    } else if c > k {
                        assert(b[k as int].letter != letter);
                    }
                }
                return Some(k);
            }
            k = k + 1;
        }
        None
    }
}

/// Whether some preset carries `name`.
pub open spec fn has_preset(presets: Seq<Preset>, name: Seq<char>) -> bool {
    exists|k: int| 0 <= k < presets.len() && presets[k].name@ == name
}

/// Whether `k` is the first preset that carries `name`.
pub open spec fn first_preset(presets: Seq<Preset>, name: Seq<char>, k: int) -> bool {
    &&& 0 <= k < presets.len()
    &&& presets[k].name@ == name
    &&& forall|j: int| 0 <= j < k ==> (#[trigger] presets[j]).name@ != name
}

impl Assets {
    /// The hexes of the first template that carries `letter`.
    pub fn load_board(&self, letter: char) -> (r: Result<&Vec<BoardNode>, MapError>)
        ensures
            has_board(self.boards@, letter) <==> r is Ok,
            r matches Ok(v) ==> v@ == board_nodes(self.boards@, letter),
            r matches Err(e) ==> e == MapError::InvalidBoard(letter),
    {
        match self.find_board(letter) {
            Some(k) => Ok(&self.boards[k].nodes),
            None => Err(MapError::InvalidBoard(letter)),
        }
    }

    /// The layout of the first preset called `name`.
    pub fn load_layout(&self, name: &str) -> (r: Result<&Vec<LayoutInfo>, MapError>)
        ensures
            has_preset(self.presets@, name@) <==> r is Ok,
            r matches Ok(v) ==> exists|k: int|
                first_preset(self.presets@, name@, k) && v@ == (#[trigger] self.presets@[k]).layout@,
            r matches Err(e) ==> e == MapError::UnknownLayout,
    {
        let wanted = name.to_owned();
        let mut k: usize = 0;
        while k < self.presets.len()
            invariant
                wanted@ == name@,
                k <= self.presets@.len(),
                forall|j: int| 0 <= j < k ==> (#[trigger] self.presets@[j]).name@ != name@,
            decreases self.presets@.len() - k,
        {
            if self.presets[k].name == wanted {
                assert(first_preset(self.presets@, name@, k as int));
                return Ok(&self.presets[k].layout);
            }
            k = k + 1;
        }
        Err(MapError::UnknownLayout)
    }
}

/// Turns a template hex about its board's origin and moves it to the
/// layout entry's center; `None` when the result is not representable.
fn place_hex(b: BoardNode, e: LayoutInfo) -> (r: Option<AxialCoord>)
    ensures
        r is Some <==> fits(place(b, e)),
        r matches Some(c) ==> c == as_coord(place(b, e)),
{
    let bound: i64 = 0x1_0000_0000;
    let mut q: i64 = b.coord.q as i64;
    let mut r: i64 = b.coord.r as i64;
    let mut k: u8 = 0;
    while k < e.rotation
        invariant
            k <= e.rotation,
            (q as int, r as int) == rotate((b.coord.q as int, b.coord.r as int), k as nat),
            -bound <= q <= bound,
            -bound <= r <= bound,
            -bound <= q + r <= bound,
        decreases e.rotation - k,
    {
        let nq = -r;
        let nr = q + r;
        q = nq;
        r = nr;
        k = k + 1;
    }
    let pq = q + e.center.q as i64;
    let pr = r + e.center.r as i64;
    if (i32::MIN as i64) < pq && pq < (i32::MAX as i64) && (i32::MIN as i64) < pr && pr < (
    i32::MAX as i64) {
        Some(AxialCoord { q: pq as i32, r: pr as i32 })
    } else {
        None
    }
}

/// Coordinate-sorted arrays that hold exactly the given hexes.
pub open spec fn merged(coords: Seq<AxialCoord>, nodes: Seq<Node>, placed: Seq<(AxialCoord, Node)>) -> bool {
    &&& coords.len() == placed.len()
    &&& nodes.len() == placed.len()
    &&& strictly_sorted(coords)
    &&& forall|x: int| 0 <= x < coords.len() ==> interior(#[trigger] coords[x])
    &&& forall|x: int| 0 <= x < coords.len() ==> #[trigger] holds_at(coords, nodes, placed, x)
    &&& forall|y: int| 0 <= y < placed.len() ==> #[trigger] found_at(coords, nodes, placed, y)
}

/// Whether the hex at `x` is one of the placed hexes.
pub open spec fn holds_at(coords: Seq<AxialCoord>, nodes: Seq<Node>, placed: Seq<(AxialCoord, Node)>, x: int) -> bool {
    exists|y: int| 0 <= y < placed.len() && coords[x] == #[trigger] placed[y].0 && nodes[x] == placed[y].1
}

/// Whether the placed hex `y` is held somewhere.
pub open spec fn found_at(coords: Seq<AxialCoord>, nodes: Seq<Node>, placed: Seq<(AxialCoord, Node)>, y: int) -> bool {
    exists|x: int| 0 <= x < coords.len() && #[trigger] coords[x] == placed[y].0 && nodes[x] == placed[y].1
}

/// Finds the template of every layout entry; fails with the first board
/// letter that no template carries.
fn resolve_boards(layout: &[LayoutInfo], assets: &Assets) -> (r: Result<Vec<usize>, char>)
    ensures
        r is Ok <==> all_boards_known(layout@, assets.boards@),
        r matches Err(c) ==> exists|i: int|
            0 <= i < layout@.len() && (#[trigger] layout@[i]).board == c && !has_board(assets.boards@, c),
        r matches Ok(positions) ==> positions@.len() == layout@.len() && forall|k: int|
            0 <= k < layout@.len() ==> first_board(assets.boards@, layout@[k].board, #[trigger] positions@[k] as int)
                && board_pos(assets.boards@, layout@[k].board) == positions@[k],
{
    let mut positions: Vec<usize> = Vec::new();
    let mut i: usize = 0;
    while i < layout.len()
        invariant
            i <= layout@.len(),
            positions@.len() == i,
            forall|k: int|
                0 <= k < i ==> first_board(assets.boards@, layout@[k].board, #[trigger] positions@[k] as int)
                    && board_pos(assets.boards@, layout@[k].board) == positions@[k],
        decreases layout@.len() - i,
    {
        match assets.find_board(layout[i].board) {
            Some(k) => positions.push(k),
            None => {
                return Err(layout[i].board);
            },
        }
        i = i + 1;
    }
    assert forall|k: int| 0 <= k < layout@.len() implies has_board(
        assets.boards@,
        #[trigger] layout@[k].board,
    ) by {
        assert(first_board(assets.boards@, layout@[k].board, positions@[k] as int));
    }
    Ok(positions)
}

/// Places every hex of every layout entry; `None` when one of them is not
/// representable.
fn place_all(layout: &[LayoutInfo], assets: &Assets, positions: &Vec<usize>) -> (r: Option<
    Vec<(AxialCoord, Node)>,
>)
    requires
        layout@.len() <= 256,
        positions@.len() == layout@.len(),
        forall|k: int|
            0 <= k < layout@.len() ==> first_board(assets.boards@, layout@[k].board, #[trigger] positions@[k] as int)
                && board_pos(assets.boards@, layout@[k].board) == positions@[k],
    ensures
        r is Some <==> all_fit(placements(layout@, assets.boards@)),
        r matches Some(v) ==> placed_as(v@, placements(layout@, assets.boards@)),
{
    let ghost boards = assets.boards@;
    let n = layout.len();
    let mut placed: Vec<(AxialCoord, Node)> = Vec::new();
    let mut i: usize = 0;
    while i < n
        invariant
            n == layout@.len(),
            n <= 256,
            i <= n,
            positions@.len() == n,
            forall|k: int|
                0 <= k < n ==> first_board(boards, layout@[k].board, #[trigger] positions@[k] as int)
                    && board_pos(boards, layout@[k].board) == positions@[k],
            boards == assets.boards@,
            placed_as(placed@, placements_upto(layout@, boards, i as nat)),
        decreases n - i,
    {
        let e = layout[i];
        let tmpl = &assets.boards[positions[i]];
        let ghost prev = placements_upto(layout@, boards, i as nat);
        let ghost here = board_nodes(boards, e.board).map(
            |j: int, b: BoardNode| (place(b, e), placed_node(b, i as int)),
        );
        assert(tmpl.nodes@ == board_nodes(boards, e.board));
        let mut j: usize = 0;
        while j < tmpl.nodes.len()
            invariant
                n == layout@.len(),
                n <= 256,
                i < n,
                e == layout@[i as int],
                tmpl.nodes@ == board_nodes(boards, e.board),
                here == board_nodes(boards, e.board).map(
                    |j: int, b: BoardNode| (place(b, e), placed_node(b, i as int)),
                ),
                prev == placements_upto(layout@, boards, i as nat),
                boards == assets.boards@,
                j <= tmpl.nodes@.len(),
                placed_as(placed@, prev + here.take(j as int)),
            decreases tmpl.nodes@.len() - j,
        {
            let b = tmpl.nodes[j];
            match place_hex(b, e) {
                Some(c) => {
                    placed.push((c, Node { terrain: b.terrain, cost: b.cost, board_idx: i as u8 }));
                    assert(prev + here.take(j + 1) =~= (prev + here.take(j as int)).push(here[j as int]));
                },
                None => {
                    proof {
                        let ps = placements(layout@, boards);
                        lemma_placements_prefix(layout@, boards, (i + 1) as nat, n as nat);
                        assert(placements_upto(layout@, boards, (i + 1) as nat) == prev + here);
                        let at = prev.len() + j;
                        assert(placements_upto(layout@, boards, (i + 1) as nat)[at] == ps[at]);
                        assert(ps[at] == here[j as int]);
                        assert(!fits(ps[at].0));
                    }
                    return None;
                },
            }
            j = j + 1;
        }
        assert(here.take(j as int) =~= here);
        assert(placements_upto(layout@, boards, (i + 1) as nat) == prev + here);
        i = i + 1;
    }
    Some(placed)
}

/// What building a map from `layout` gives: one error for each way the
/// layout can be wrong, checked in this order, and otherwise the map that
/// holds exactly the layout's placements.
pub open spec fn built_from(layout: Seq<LayoutInfo>, boards: Seq<BoardTemplate>, r: Result<HexMap, MapError>) -> bool {
    &&& (layout.len() == 0 <==> r == Err::<HexMap, MapError>(MapError::EmptyLayout))
    &&& (layout.len() > 256 <==> r == Err::<HexMap, MapError>(MapError::TooManyBoards))
    &&& (r matches Err(MapError::InvalidBoard(c)) ==> 0 < layout.len() <= 256 && exists|i: int|
        0 <= i < layout.len() && (#[trigger] layout[i]).board == c && !has_board(boards, c))
    &&& (0 < layout.len() <= 256 && !all_boards_known(layout, boards) ==> (r matches Err(MapError::InvalidBoard(_))))
    &&& (0 < layout.len() <= 256 && all_boards_known(layout, boards) ==> {
        let ps = placements(layout, boards);
        &&& !all_fit(ps) <==> r == Err::<HexMap, MapError>(MapError::OutOfRange)
        &&& (all_fit(ps) && !all_distinct(ps) <==> (r matches Err(MapError::Overlap(_))))
        &&& all_fit(ps) && all_distinct(ps) <==> r is Ok
    })
    &&& (r matches Ok(m) ==> {
        &&& m.wf()
        &&& m.finish_idx as int == layout.len() - 1
        &&& holds_placements(m, placements(layout, boards))
    })
}

impl HexMap {
    /// Builds a map from a layout: each entry's board template is turned,
    /// moved to the entry's center and merged into one coordinate-sorted
    /// map. The last entry's board is the finish.
    pub fn create_custom(layout: &[LayoutInfo], assets: &Assets) -> (r: Result<HexMap, MapError>)
        ensures
            built_from(layout@, assets.boards@, r),
    {
        let n = layout.len();
        if n == 0 {
            return Err(MapError::EmptyLayout);
        }
        if n > 256 {
            return Err(MapError::TooManyBoards);
        }
        let positions = match resolve_boards(layout, assets) {
            Ok(p) => p,
            Err(c) => {
                return Err(MapError::InvalidBoard(c));
            },
        };
        let placed = match place_all(layout, assets, &positions) {
            Some(v) => v,
            None => {
                return Err(MapError::OutOfRange);
            },
        };
        let ghost ps = placements(layout@, assets.boards@);
        assert forall|y: int| 0 <= y < placed@.len() implies interior(#[trigger] placed@[y].0) by {
            assert(fits(ps[y].0));
        }
        match merge_sorted(&placed) {
            Ok((coords, nodes)) => {
                let m = HexMap { coords, nodes, finish_idx: (n - 1) as u8 };
                proof {
                    lemma_merged_holds(m, placed@, ps);
                }
                Ok(m)
            },
            Err(c) => {
                proof {
                    let (a, b) = choose|a: int, b: int|
                        0 <= a < b < placed@.len() && #[trigger] placed@[a].0 == c && #[trigger] placed@[b].0 == c;
                    assert(fits(ps[a].0) && fits(ps[b].0));
                    assert(ps[a].0 == ps[b].0);
                }
                Err(MapError::Overlap(c))
            },
        }
    }
}

impl HexMap {
    /// Builds the map of the first preset called `name`.
    pub fn create_named(name: &str, assets: &Assets) -> (r: Result<HexMap, MapError>)
        ensures
            !has_preset(assets.presets@, name@) ==> r == Err::<HexMap, MapError>(MapError::UnknownLayout),
            has_preset(assets.presets@, name@) ==> exists|k: int|
                first_preset(assets.presets@, name@, k) && built_from(
                    (#[trigger] assets.presets@[k]).layout@,
                    assets.boards@,
                    r,
                ),
    {
        let layout = match assets.load_layout(name) {
            Ok(l) => l,
            Err(e) => {
                return Err(e);
            },
        };
        let r = HexMap::create_custom(layout.as_slice(), assets);
        r
    }

    /// Rebuilds a map from stored arrays, checking that they form one.
    pub fn from_parts(coords: Vec<AxialCoord>, nodes: Vec<Node>, finish_idx: u8) -> (r: Result<HexMap, MapError>)
        ensures
            r matches Ok(m) ==> m.wf() && m.coords@ == coords@ && m.nodes@ == nodes@ && m.finish_idx == finish_idx,
            r is Err ==> !(HexMap { coords, nodes, finish_idx }).wf(),
    {
        if coords.len() != nodes.len() {
            return Err(MapError::Corrupt);
        }
        let mut i: usize = 0;
        while i < coords.len()
            invariant
                i <= coords@.len(),
                forall|a: int, b: int| 0 <= a < b < i ==> coord_lt(#[trigger] coords@[a], #[trigger] coords@[b]),
                forall|a: int| 0 <= a < i ==> interior(#[trigger] coords@[a]),
            decreases coords@.len() - i,
        {
            let c = coords[i];
            if !(i32::MIN < c.q && c.q < i32::MAX && i32::MIN < c.r && c.r < i32::MAX) {
                return Err(MapError::Corrupt);
            }
            if i > 0 {
                let p = coords[i - 1];
                if !(p.q < c.q || (p.q == c.q && p.r < c.r)) {
                    assert(!coord_lt(coords@[i - 1], coords@[i as int]));
                    return Err(MapError::Corrupt);
                }
                assert forall|a: int| 0 <= a < i implies coord_lt(#[trigger] coords@[a], coords@[i as int]) by {
                    if a < i - 1 {
                        assert(coord_lt(coords@[a], coords@[i - 1]));
                    }
                }
            }
            i = i + 1;
        }
        Ok(HexMap { coords, nodes, finish_idx })
    }
}

/// Merged arrays of representable placements form a map that holds them.
#[verifier::spinoff_prover]
#[verifier::rlimit(50)]
proof fn lemma_merged_holds(m: HexMap, placed: Seq<(AxialCoord, Node)>, ps: Seq<((int, int), Node)>)
    requires
        merged(m.coords@, m.nodes@, placed),
        placed_as(placed, ps),
        forall|a: int, b: int| 0 <= a < b < placed.len() ==> #[trigger] placed[a].0 != #[trigger] placed[b].0,
    ensures
        m.wf(),
        holds_placements(m, ps),
        all_distinct(ps),
{
    assert forall|a: int, b: int| 0 <= a < b < ps.len() implies #[trigger] ps[a].0 != #[trigger] ps[b].0 by {
        assert(placed[a].0 != placed[b].0);
    }
    assert forall|y: int| 0 <= y < ps.len() implies #[trigger] lands_in(m, ps, y) by {
        assert(placed[y].0 == as_coord(ps[y].0) && placed[y].1 == ps[y].1);
        assert(found_at(m.coords@, m.nodes@, placed, y));
        let x = choose|x: int|
            0 <= x < m.coords@.len() && #[trigger] m.coords@[x] == placed[y].0 && m.nodes@[x] == placed[y].1;
        assert(0 <= x < m.coords@.len() && m.coords@[x] == as_coord(ps[y].0) && m.nodes@[x] == ps[y].1);
    }
    assert forall|x: int| 0 <= x < m.coords@.len() implies #[trigger] comes_from(m, ps, x) by {
        assert(holds_at(m.coords@, m.nodes@, placed, x));
        let y = choose|y: int|
            0 <= y < placed.len() && m.coords@[x] == #[trigger] placed[y].0 && m.nodes@[x] == placed[y].1;
        assert(placed[y].0 == as_coord(ps[y].0) && placed[y].1 == ps[y].1);
        assert(0 <= y < ps.len() && m.coords@[x] == as_coord(ps[y].0) && m.nodes@[x] == ps[y].1);
    }
}

/// Merges placed hexes into coordinate-sorted arrays; fails with a
/// coordinate that two of them share.
#[verifier::spinoff_prover]
#[verifier::rlimit(50)]
fn merge_sorted(placed: &Vec<(AxialCoord, Node)>) -> (r: Result<(Vec<AxialCoord>, Vec<Node>), AxialCoord>)
    requires
        forall|y: int| 0 <= y < placed@.len() ==> interior(#[trigger] placed@[y].0),
    ensures
        r is Ok <==> forall|a: int, b: int|
            0 <= a < b < placed@.len() ==> #[trigger] placed@[a].0 != #[trigger] placed@[b].0,
        r matches Err(c) ==> exists|a: int, b: int|
            0 <= a < b < placed@.len() && #[trigger] placed@[a].0 == c && #[trigger] placed@[b].0 == c,
        r matches Ok(p) ==> merged(p.0@, p.1@, placed@),
{
    let mut coords: Vec<AxialCoord> = Vec::new();
    let mut nodes: Vec<Node> = Vec::new();
    // origin[x]: the placement held at x; slot[y]: where placement y went.
    let ghost mut origin: Seq<int> = Seq::empty();
    let ghost mut slot: Seq<int> = Seq::empty();
    let mut k: usize = 0;
    while k < placed.len()
        invariant
            forall|y: int| 0 <= y < placed@.len() ==> interior(#[trigger] placed@[y].0),
            k <= placed@.len(),
            coords@.len() == k,
            nodes@.len() == k,
            origin.len() == k,
            slot.len() == k,
            strictly_sorted(coords@),
            forall|x: int|
                0 <= x < k ==> 0 <= #[trigger] origin[x] < k && coords@[x] == placed@[origin[x]].0
                    && nodes@[x] == placed@[origin[x]].1,
            forall|y: int|
                0 <= y < k ==> 0 <= #[trigger] slot[y] < k && coords@[slot[y]] == placed@[y].0
                    && nodes@[slot[y]] == placed@[y].1,
            forall|a: int, b: int| 0 <= a < b < k ==> #[trigger] placed@[a].0 != #[trigger] placed@[b].0,
        decreases placed@.len() - k,
    {
        let (c, nd) = placed[k];
        let pos = lower_bound(&coords, c);
        if pos < coords.len() && coords[pos] == c {
            proof {
                let y = origin[pos as int];
                assert(placed@[y].0 == c && placed@[k as int].0 == c);
            }
            return Err(c);
        }
        proof {
            assert forall|y: int| 0 <= y < k implies (#[trigger] placed@[y]).0 != c by {
                let x = slot[y];
                if x < pos {
                    assert(coord_lt(coords@[x], c));
                } else if x > pos {
                    assert(coord_lt(coords@[pos as int], coords@[x]));
                }
            }
        }
        let ghost oc = coords@;
        let ghost oo = origin;
        let ghost os = slot;
        coords.insert(pos, c);
        nodes.insert(pos, nd);
        proof {
            origin = oo.insert(pos as int, k as int);
            slot = os.map(|y: int, x: int| if x >= pos { x + 1 } else { x }).push(pos as int);
            assert forall|a: int, b: int| 0 <= a < b < coords@.len() implies coord_lt(
                #[trigger] coords@[a],
                #[trigger] coords@[b],
            ) by {
                if b < pos {
                    assert(coords@[a] == oc[a] && coords@[b] == oc[b]);
                } else if b == pos {
                    assert(coords@[a] == oc[a]);
                } else if a < pos {
                    assert(coords@[a] == oc[a] && coords@[b] == oc[b - 1]);
                } else if a == pos {
                    assert(coords@[b] == oc[b - 1]);
                } else {
                    assert(coords@[a] == oc[a - 1] && coords@[b] == oc[b - 1]);
                }
            }
        }
        k = k + 1;
    }
    proof {
        assert forall|x: int| 0 <= x < coords@.len() implies #[trigger] holds_at(coords@, nodes@, placed@, x) by {
            let y = origin[x];
            assert(0 <= y < k && coords@[x] == placed@[y].0 && nodes@[x] == placed@[y].1);
        }
        assert forall|y: int| 0 <= y < placed@.len() implies #[trigger] found_at(coords@, nodes@, placed@, y) by {
            let x = slot[y];
            assert(0 <= x < k && coords@[x] == placed@[y].0 && nodes@[x] == placed@[y].1);
        }
        assert forall|x: int| 0 <= x < coords@.len() implies interior(#[trigger] coords@[x]) by {
            assert(0 <= origin[x] < k);
        }
        assert(merged(coords@, nodes@, placed@));
    }
    Ok((coords, nodes))
}

} // verus!
use durango::graph::{HexGraph, UNREACHABLE};
use durango::hex::{AxialCoord, BoardNode, HexDirection, LayoutInfo, Node, Terrain};
use durango::map::{Assets, BoardTemplate, HexMap, MapError, Preset};

/// A board of radius three: 37 hexes around its origin.
fn hex_board(letter: char, terrain: Terrain, cost: u8) -> BoardTemplate {
    let mut nodes = Vec::new();
    for q in -3i32..=3 {
        for r in (-3i32).max(-q - 3)..=3i32.min(-q + 3) {
            nodes.push(BoardNode { terrain, cost, coord: AxialCoord { q, r } });
        }
    }
    BoardTemplate { letter, nodes }
}

fn assets() -> Assets {
    Assets {
        boards: vec![
            hex_board('A', Terrain::Jungle, 1),
            hex_board('B', Terrain::Jungle, 1),
            hex_board('C', Terrain::Desert, 1),
        ],
        presets: vec![Preset {
            name: "easy1".to_string(),
            layout: vec![LayoutInfo::new('A', 0, 0, 0), LayoutInfo::new('B', 0, 3, -7), LayoutInfo::new('C', 0, 6, -14)],
        }],
    }
}

#[test]
fn single_board() {
    let a = assets();
    let nodes = a.load_board('A').unwrap();
    assert_eq!(nodes.len(), 37);
}

#[test]
fn whole_layout() {
    let map = HexMap::create_custom(&[LayoutInfo::new('B', 1, 0, 0), LayoutInfo::new('C', 0, 3, -7)], &assets()).unwrap();
    assert_eq!(map.nodes.len(), 74);
}

#[test]
fn named_layout() {
    let map = HexMap::create_named("easy1", &assets()).unwrap();
    let map2 = HexMap::from_parts(map.coords.clone(), map.nodes.clone(), map.finish_idx).unwrap();
    assert_eq!(map.nodes.len(), map2.nodes.len());
    assert_eq!(map.finish_idx, map2.finish_idx);
}

#[test]
fn neighbors() {
    let map = HexMap::create_custom(&[LayoutInfo::new('B', 1, 0, 0), LayoutInfo::new('C', 0, 3, -7)], &assets()).unwrap();
    let idx = map.node_idx(AxialCoord { q: 0, r: 0 }).unwrap();
    assert_eq!(idx, 22);
    let graph = HexGraph::new(&map);
    let nbrs = graph.neighbor_indices(idx);
    assert_eq!(nbrs.len(), 6);
    assert_eq!(nbrs[0], (33, HexDirection::NorthEast));
    assert_eq!(nbrs[1], (34, HexDirection::East));
    assert_eq!(nbrs[2], (23, HexDirection::SouthEast));
    assert_eq!(nbrs[3], (12, HexDirection::SouthWest));
    assert_eq!(nbrs[4], (11, HexDirection::West));
    assert_eq!(nbrs[5], (21, HexDirection::NorthWest));
}

#[test]
fn custom_map_has_unique_coordinates_that_round_trip() {
    let map = HexMap::create_named("easy1", &assets()).unwrap();
    assert_eq!(map.len(), 111);
    for i in 0..map.len() {
        let c = map.coord_at_idx(i).unwrap();
        assert_eq!(map.node_idx(c), Some(i));
        assert_eq!(map.node_at(c), map.node_at_idx(i));
        if i > 0 {
            let p = map.coord_at_idx(i - 1).unwrap();
            assert!((p.q, p.r) < (c.q, c.r));
        }
    }
}

#[test]
fn rotation_turns_coordinates() {
    let a = Assets {
        boards: vec![BoardTemplate {
            letter: 'X',
            nodes: vec![BoardNode { terrain: Terrain::Water, cost: 2, coord: AxialCoord { q: 1, r: 0 } }],
        }],
        presets: vec![],
    };
    let map = HexMap::create_custom(&[LayoutInfo::new('X', 1, 10, 20)], &a).unwrap();
    // (1, 0) turned once is (0, 1), then moved by (10, 20).
    assert_eq!(map.coord_at_idx(0), Some(AxialCoord { q: 10, r: 21 }));
    assert_eq!(map.node_at_idx(0), Some(Node { terrain: Terrain::Water, cost: 2, board_idx: 0 }));
    let map = HexMap::create_custom(&[LayoutInfo::new('X', 2, 0, 0)], &a).unwrap();
    assert_eq!(map.coord_at_idx(0), Some(AxialCoord { q: -1, r: 1 }));
}

#[test]
fn layout_errors() {
    let a = assets();
    assert_eq!(HexMap::create_custom(&[], &a).unwrap_err(), MapError::EmptyLayout);
    assert_eq!(HexMap::create_custom(&[LayoutInfo::new('Q', 0, 0, 0)], &a).unwrap_err(), MapError::InvalidBoard('Q'));
    assert!(matches!(
        HexMap::create_custom(&[LayoutInfo::new('A', 0, 0, 0), LayoutInfo::new('B', 0, 1, 0)], &a),
        Err(MapError::Overlap(_))
    ));
    assert_eq!(HexMap::create_named("nope", &a).unwrap_err(), MapError::UnknownLayout);
    assert_eq!(
        HexMap::create_custom(&[LayoutInfo::new('A', 0, i32::MAX - 1, 0)], &a).unwrap_err(),
        MapError::OutOfRange,
    );
    let many = vec![LayoutInfo::new('A', 0, 0, 0); 257];
    assert_eq!(HexMap::create_custom(&many, &a).unwrap_err(), MapError::TooManyBoards);
}

#[test]
fn finish_lookup_and_terrain_filter() {
    let map = HexMap::create_named("easy1", &assets()).unwrap();
    assert_eq!(map.finish_idx, 2);
    assert!(map.is_finish(AxialCoord { q: 6, r: -14 }));
    assert!(!map.is_finish(AxialCoord { q: 0, r: 0 }));
    assert!(!map.is_finish(AxialCoord { q: 100, r: 100 }));
    assert!(map.with_terrain(AxialCoord { q: 6, r: -14 }, Terrain::Desert).is_some());
    assert!(map.with_terrain(AxialCoord { q: 6, r: -14 }, Terrain::Jungle).is_none());
    assert_eq!(map.all_nodes().len(), 111);
}

#[test]
fn distances_to_finish() {
    let mut a = assets();
    // Put a wall of impassable hexes on board A.
    a.boards[0].nodes[0].cost = 10;
    let map = HexMap::create_named("easy1", &a).unwrap();
    let graph = HexGraph::new(&map);
    let mut max = 0;
    for i in 0..map.len() {
        let node = map.node_at_idx(i).unwrap();
        let d = graph.dists[i];
        if node.board_idx == map.finish_idx {
            assert_eq!(d, 0);
        } else if node.cost >= 10 {
            assert_eq!(d, UNREACHABLE);
        } else {
            assert!(d > 0 && d < UNREACHABLE);
            assert!(graph.neighbor_indices(i).iter().any(|&(n, _)| graph.dists[n] == d - 1));
            max = max.max(d);
        }
    }
    assert_eq!(graph.max_dist, max);
    // Board A's origin is seven steps from board B's edge, and that edge is
    // seven steps from the finish board's edge: 3 + 1 + 6 + 1 + 3.
    let origin = map.node_idx(AxialCoord { q: 0, r: 0 }).unwrap();
    assert_eq!(graph.dists[origin], 11);
}

#[test]
fn node_packing_round_trips() {
    let n = Node { terrain: Terrain::Cave, cost: 9, board_idx: 200 };
    let raw = n.to_u16();
    assert_eq!(raw, (6 << 12) | (9 << 8) | 200);
    assert_eq!(Node::from_u16(raw), Some(n));
    assert_eq!(Node::from_u16(7 << 12), None);
}

#[test]
fn directions() {
    let c = AxialCoord { q: 2, r: -1 };
    for i in 0..6 {
        let d = HexDirection::from_index(i);
        assert_eq!(d.index(), i);
        let n = d.neighbor_coord(c);
        assert!(c.is_adjacent(n));
        assert_eq!(d.reverse().neighbor_coord(n), c);
    }
    assert!(!c.is_adjacent(c));
    assert!(!c.is_adjacent(AxialCoord { q: 4, r: -1 }));
    assert_eq!(HexDirection::East.neighbor_coord(c), AxialCoord { q: 3, r: -1 });
    assert_eq!(Terrain::from_u8(Terrain::Swamp.as_u8()), Some(Terrain::Swamp));
    assert_eq!(Terrain::from_u8(7), None);
}

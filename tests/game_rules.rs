use durango::cards::{BuyableCard, Card, CardAction};
use durango::game::{ActionError, ActionOutcome, BuyCardAction, BuyIndex, DrawAction, GameState, MoveAction, PlayerAction};
use durango::hex::{AxialCoord, Barrier, BoardNode, BonusToken, HexDirection, LayoutInfo, Terrain};
use durango::map::{Assets, BoardTemplate, HexMap, Preset};
use durango::player::Player;
use durango::setup::GameError;
use rand::rngs::StdRng;
use rand::SeedableRng;

/// A board of radius three: 37 hexes around its origin.
fn hex_board(letter: char, terrain: Terrain, cost: u8) -> BoardTemplate {
    let mut nodes = Vec::new();
    for q in -3i32..=3 {
        for r in (-3i32).max(-q - 3)..=3i32.min(-q + 3) {
            nodes.push(BoardNode { terrain, cost, coord: AxialCoord { q, r } });
        }
    }
    BoardTemplate { letter, nodes }
}

fn assets() -> Assets {
    let mut cave_board = hex_board('K', Terrain::Jungle, 1);
    cave_board.nodes[18].terrain = Terrain::Cave;
    Assets {
        boards: vec![
            hex_board('A', Terrain::Jungle, 1),
            hex_board('B', Terrain::Jungle, 1),
            hex_board('C', Terrain::Desert, 1),
            cave_board,
        ],
        presets: vec![
            Preset { name: "first".to_string(), layout: vec![LayoutInfo::new('A', 0, 0, 0), LayoutInfo::new('B', 0, 3, -7)] },
            Preset {
                name: "easy1".to_string(),
                layout: vec![LayoutInfo::new('K', 0, 0, 0), LayoutInfo::new('B', 0, 3, -7), LayoutInfo::new('C', 0, 6, -14)],
            },
        ],
    }
}

fn plain(movement: [u8; 3]) -> Card {
    Card { movement, single_use: false, action: None }
}

/// A two-player game on the two-board preset with hand-made players.
fn small_game(p0: Player, p1: Player) -> GameState {
    let map = HexMap::create_named("first", &assets()).unwrap();
    GameState::from_parts(map, vec![p0, p1], 0).unwrap()
}

fn player_at(q: i32, r: i32, hand: Vec<Card>) -> Player {
    let mut p = Player::from_parts(AxialCoord { q, r }, vec![], vec![]);
    p.hand = hand;
    p
}

fn dist_at(g: &GameState, c: AxialCoord) -> i32 {
    g.graph.dists[g.map.node_idx(c).unwrap()]
}

#[test]
fn game_initialization() {
    let game = GameState::new(4, "easy1", &assets(), &mut StdRng::seed_from_u64(12)).unwrap();
    assert_eq!(game.players.len(), 4);
    assert_eq!(game.shop.len(), 6);
    assert_eq!(game.storage.len(), 12);
}

#[test]
fn player_initialization() {
    let p = Player::new(AxialCoord { q: 3, r: -2 }, &mut StdRng::seed_from_u64(7));
    assert_eq!(p.position, AxialCoord { q: 3, r: -2 });
    assert_eq!(p.hand.len(), 4);
    assert_eq!(p.deck_size(), 4);
    assert_eq!(p.played.len(), 0);
    assert_eq!(p.discard.len(), 0);
    assert_eq!(p.trashes, 0);
    assert!(p.can_buy);
    assert_eq!(p.visited_caves.len(), 0);
    assert_eq!(p.num_cards(), 8);
    assert_eq!(p.sum_movement(), [3, 4, 1]);
}

#[test]
fn setup_errors() {
    let a = assets();
    let mut rng = StdRng::seed_from_u64(1);
    assert!(matches!(GameState::new(1, "easy1", &a, &mut rng), Err(GameError::InvalidPlayerCount)));
    assert!(matches!(GameState::new(5, "easy1", &a, &mut rng), Err(GameError::InvalidPlayerCount)));
    assert!(matches!(GameState::new(2, "nowhere", &a, &mut rng), Err(GameError::Layout(_))));
}

#[test]
fn seeded_setup_is_reproducible() {
    let a = assets();
    let g1 = GameState::new(3, "easy1", &a, &mut StdRng::seed_from_u64(99)).unwrap();
    let g2 = GameState::new(3, "easy1", &a, &mut StdRng::seed_from_u64(99)).unwrap();
    assert_eq!(g1.player_positions(), g2.player_positions());
    for i in 0..3 {
        assert_eq!(g1.players[i].hand, g2.players[i].hand);
        assert_eq!(g1.players[i].deck, g2.players[i].deck);
    }
    assert_eq!(g1.bonus_counts(), g2.bonus_counts());
    for (b1, b2) in g1.bonuses.iter().zip(g2.bonuses.iter()) {
        assert_eq!(b1.1, b2.1);
    }
    for (b1, b2) in g1.barriers.iter().zip(g2.barriers.iter()) {
        assert_eq!((b1.terrain, b1.cost), (b2.terrain, b2.cost));
    }
}

#[test]
fn setup_places_players_barriers_and_caves() {
    let g = GameState::new(2, "easy1", &assets(), &mut StdRng::seed_from_u64(5)).unwrap();
    let pos = g.player_positions();
    assert_ne!(pos[0], pos[1]);
    for p in &pos {
        assert_eq!(dist_at(&g, *p), g.graph.max_dist);
    }
    // Two boundaries before the finish board: one barrier on the first.
    assert_eq!(g.barriers.len(), 1);
    assert_eq!((g.barriers[0].from_board, g.barriers[0].to_board), (0, 1));
    assert!(!g.barriers[0].edges.is_empty());
    assert_eq!(g.bonus_counts(), vec![(AxialCoord { q: 0, r: 0 }, 4)]);
    assert!(g.can_visit_cave(AxialCoord { q: 0, r: 0 }));
    assert_eq!(g.barrier_index(1, 0), Some(0));
    assert_eq!(g.barrier_index(1, 2), None);
}

#[test]
fn explorer_step_gets_one_closer() {
    let game = GameState::new(2, "first", &assets(), &mut StdRng::seed_from_u64(3)).unwrap();
    let mut g = game.clone();
    assert!(g.barriers.is_empty());
    let me = g.curr_player().clone();
    let start = dist_at(&g, me.position);
    assert_eq!(start, g.graph.max_dist);
    let explorer = Card::explorer();
    let card = match me.hand.iter().position(|c| *c == explorer) {
        Some(i) => i,
        None => {
            g.players[0].hand[0] = explorer;
            0
        }
    };
    let (dir, target, _) = g
        .neighbors_of(me.position)
        .into_iter()
        .find(|(_, c, n)| n.terrain == Terrain::Jungle && n.cost == 1 && dist_at(&g, *c) == start - 1 && !g.is_occupied(*c))
        .unwrap();
    let out = g.process_action(&PlayerAction::Move(MoveAction::single_card(card, vec![dir])), &mut StdRng::seed_from_u64(0));
    assert_eq!(out, Ok(ActionOutcome::Continue));
    assert_eq!(g.curr_player().position, target);
    assert_eq!(dist_at(&g, target), start - 1);
}

#[test]
fn too_expensive_purchase_changes_nothing() {
    let mut g = GameState::new(2, "easy1", &assets(), &mut StdRng::seed_from_u64(8)).unwrap();
    let before_hand = g.curr_player().hand.clone();
    let before_shop = g.shop.clone();
    // Index 5 is the transmitter, which costs eight.
    let buy = BuyCardAction { cards: vec![0], tokens: vec![], index: BuyIndex::Shop(5) };
    let out = g.process_action(&PlayerAction::BuyCard(buy), &mut StdRng::seed_from_u64(0));
    assert_eq!(out, Err(ActionError::NotEnoughGold));
    assert_eq!(g.curr_player().hand, before_hand);
    assert_eq!(g.shop, before_shop);
}

#[test]
fn purchase_pays_and_takes_a_copy() {
    let p0 = player_at(0, 0, vec![plain([0, 1, 0]), plain([0, 1, 0]), plain([0, 1, 0])]);
    let p1 = player_at(1, 0, vec![]);
    let mut g = small_game(p0, p1);
    g.shop = vec![BuyableCard::regular(2, [2, 0, 0]), BuyableCard::regular(4, [1, 1, 1])];
    g.storage = vec![BuyableCard::regular(3, [0, 0, 3])];
    let mut rng = StdRng::seed_from_u64(0);
    let buy = BuyCardAction { cards: vec![0, 1], tokens: vec![], index: BuyIndex::Shop(1) };
    assert_eq!(g.process_action(&PlayerAction::BuyCard(buy), &mut rng), Ok(ActionOutcome::Continue));
    let me = g.curr_player();
    assert_eq!(me.hand, vec![plain([0, 1, 0])]);
    assert_eq!(me.played.len(), 2);
    assert_eq!(me.discard, vec![plain([1, 1, 1])]);
    assert!(!me.can_buy);
    assert_eq!(g.shop[1].quantity, 2);
    // A second paid purchase in the same turn is refused.
    let again = BuyCardAction { cards: vec![0], tokens: vec![], index: BuyIndex::Shop(0) };
    assert_eq!(g.process_action(&PlayerAction::BuyCard(again), &mut rng), Err(ActionError::AlreadyBought));
}

#[test]
fn storage_purchase_moves_into_shop_in_cost_order() {
    let p0 = player_at(0, 0, vec![plain([0, 2, 0])]);
    let p1 = player_at(1, 0, vec![]);
    let mut g = small_game(p0, p1);
    g.shop = vec![BuyableCard::regular(2, [2, 0, 0]), BuyableCard::regular(4, [1, 1, 1])];
    g.storage = vec![BuyableCard::regular(3, [0, 0, 3])];
    let buy = BuyCardAction { cards: vec![0], tokens: vec![], index: BuyIndex::Storage(0) };
    assert_eq!(g.process_action(&PlayerAction::BuyCard(buy), &mut StdRng::seed_from_u64(0)), Ok(ActionOutcome::Continue));
    assert!(g.storage.is_empty());
    let costs: Vec<u8> = g.shop.iter().map(|c| c.cost).collect();
    assert_eq!(costs, vec![2, 3, 4]);
    assert_eq!(g.shop[1].quantity, 2);
    assert_eq!(g.all_buyable_cards().len(), 3);
}

#[test]
fn free_buy_and_out_of_stock() {
    let transmitter = Card { movement: [0, 0, 0], single_use: true, action: Some(CardAction::FreeBuy) };
    let p0 = player_at(0, 0, vec![transmitter]);
    let p1 = player_at(1, 0, vec![]);
    let mut g = small_game(p0, p1);
    let mut last = BuyableCard::regular(10, [5, 0, 0]);
    last.quantity = 1;
    g.shop = vec![last, BuyableCard { quantity: 0, ..BuyableCard::regular(12, [0, 0, 0]) }];
    let mut rng = StdRng::seed_from_u64(0);
    let sold_out = BuyCardAction { cards: vec![0], tokens: vec![], index: BuyIndex::Shop(1) };
    assert_eq!(g.process_action(&PlayerAction::BuyCard(sold_out), &mut rng), Err(ActionError::OutOfStock));
    let buy = BuyCardAction { cards: vec![0], tokens: vec![], index: BuyIndex::Shop(0) };
    assert_eq!(g.process_action(&PlayerAction::BuyCard(buy), &mut rng), Ok(ActionOutcome::Continue));
    let me = g.curr_player();
    // The single-use transmitter is gone for good, the buy allowance stays.
    assert_eq!(me.num_cards(), 1);
    assert!(me.can_buy);
    assert_eq!(g.shop.len(), 1);
}

#[test]
fn finish_turn_with_nothing_to_draw() {
    let p0 = player_at(0, 0, vec![plain([1, 0, 0]), plain([0, 1, 0])]);
    let p1 = player_at(1, 0, vec![]);
    let mut g = small_game(p0, p1);
    let out = g.process_action(&PlayerAction::FinishTurn, &mut StdRng::seed_from_u64(0));
    assert_eq!(out, Ok(ActionOutcome::Continue));
    assert_eq!(g.players[0].hand.len(), 2);
    assert_eq!(g.curr_player_idx, 1);
    assert_eq!(g.round_idx, 0);
    let out = g.process_action(&PlayerAction::FinishTurn, &mut StdRng::seed_from_u64(0));
    assert_eq!(out, Ok(ActionOutcome::Continue));
    assert_eq!(g.curr_player_idx, 0);
    assert_eq!(g.round_idx, 1);
}

#[test]
fn finish_turn_refills_and_ends_game_on_finish() {
    let mut p0 = player_at(0, 0, vec![plain([1, 0, 0])]);
    p0.played = vec![plain([0, 1, 0]), plain([0, 0, 1])];
    p0.deck = vec![plain([2, 0, 0])];
    p0.trashes = 2;
    p0.can_buy = false;
    // Player 1 stands on the finish board.
    let p1 = player_at(3, -7, vec![]);
    let mut g = small_game(p0, p1);
    assert_eq!(g.players_at_finish(), vec![1]);
    assert!(g.any_finished_player());
    let mut rng = StdRng::seed_from_u64(4);
    assert_eq!(g.process_action(&PlayerAction::FinishTurn, &mut rng), Ok(ActionOutcome::Continue));
    let p = &g.players[0];
    assert_eq!(p.hand.len(), 4);
    assert_eq!(p.num_cards(), 4);
    assert_eq!(p.trashes, 0);
    assert!(p.can_buy);
    assert_eq!(g.process_action(&PlayerAction::FinishTurn, &mut rng), Ok(ActionOutcome::GameOver));
}

#[test]
fn restored_game_keeps_positions() {
    let g = GameState::new(3, "easy1", &assets(), &mut StdRng::seed_from_u64(21)).unwrap();
    let map = HexMap::from_parts(g.map.coords.clone(), g.map.nodes.clone(), g.map.finish_idx).unwrap();
    let players = g
        .players
        .iter()
        .map(|p| Player::from_parts(p.position, p.tokens.clone(), p.broken_barriers.clone()))
        .collect();
    let restored = GameState::from_parts(map, players, g.round_idx).unwrap();
    assert_eq!(restored.player_positions(), g.player_positions());
    assert_eq!(restored.num_players(), 3);
}

#[test]
fn move_errors() {
    let p0 = player_at(0, 0, vec![plain([1, 0, 0]), plain([0, 1, 0])]);
    let p1 = player_at(1, 0, vec![]);
    let mut g = small_game(p0, p1);
    let mut rng = StdRng::seed_from_u64(0);
    let mv = |cards: Vec<usize>, path: Vec<HexDirection>| PlayerAction::Move(MoveAction { cards, tokens: vec![], path });
    // Two jungle steps need two jungle movement.
    assert_eq!(
        g.process_action(&mv(vec![0], vec![HexDirection::West, HexDirection::West]), &mut rng),
        Err(ActionError::NotEnoughMovement)
    );
    // A desert card cannot pay for jungle.
    assert_eq!(g.process_action(&mv(vec![1], vec![HexDirection::West]), &mut rng), Err(ActionError::NotEnoughMovement));
    // Player 1 stands east.
    assert_eq!(g.process_action(&mv(vec![0], vec![HexDirection::East]), &mut rng), Err(ActionError::Occupied));
    assert_eq!(g.process_action(&mv(vec![], vec![]), &mut rng), Err(ActionError::EmptyPath));
    assert_eq!(g.process_action(&mv(vec![5], vec![HexDirection::West]), &mut rng), Err(ActionError::BadIndices));
    assert_eq!(g.process_action(&mv(vec![1, 0], vec![HexDirection::West]), &mut rng), Err(ActionError::BadIndices));
    assert_eq!(g.process_action(&mv(vec![0, 1], vec![HexDirection::West]), &mut rng), Err(ActionError::SingleCard));
    assert_eq!(g.process_action(&mv(vec![], vec![HexDirection::West]), &mut rng), Err(ActionError::NoPayment));
    let far: Vec<HexDirection> = vec![HexDirection::West; 4];
    assert_eq!(g.process_action(&mv(vec![0], far), &mut rng), Err(ActionError::NoNode));
    assert_eq!(g.players[0].hand.len(), 2);
    assert_eq!(g.players[0].position, AxialCoord { q: 0, r: 0 });
    // Exactly enough movement succeeds.
    assert_eq!(g.process_action(&mv(vec![0], vec![HexDirection::West]), &mut rng), Ok(ActionOutcome::Continue));
    assert_eq!(g.players[0].position, AxialCoord { q: -1, r: 0 });
    assert_eq!(g.players[0].played, vec![plain([1, 0, 0])]);
    assert_eq!(g.players[0].hand, vec![plain([0, 1, 0])]);
}

#[test]
fn broken_barrier_is_gone_for_everyone() {
    // Player 0 at the edge of board 0, player 1 beside them.
    let p0 = player_at(0, -3, vec![plain([2, 0, 0])]);
    let p1 = player_at(1, -3, vec![plain([1, 0, 0])]);
    let mut g = small_game(p0, p1);
    let edges = durango::setup::edges_between_boards(&g.map, &g.graph, 0, 1);
    g.barriers.push(Barrier { from_board: 0, to_board: 1, terrain: Terrain::Jungle, cost: 1, edges });
    let mut rng = StdRng::seed_from_u64(0);
    // North-west of (0, -3) is (0, -4), on board 1.
    let cross = PlayerAction::Move(MoveAction::single_card(0, vec![HexDirection::NorthWest, HexDirection::NorthWest]));
    assert_eq!(g.process_action(&cross, &mut rng), Ok(ActionOutcome::IgnoreMoveIdx(0)));
    assert_eq!(g.players[0].position, AxialCoord { q: 0, r: -4 });
    assert!(g.barriers.is_empty());
    assert_eq!(g.players[0].broken_barriers.len(), 1);
    assert_eq!(g.process_action(&PlayerAction::FinishTurn, &mut rng), Ok(ActionOutcome::Continue));
    // Player 1 crosses the same boundary paying only for the hex.
    let step = PlayerAction::Move(MoveAction::single_card(0, vec![HexDirection::NorthWest]));
    assert_eq!(g.process_action(&step, &mut rng), Ok(ActionOutcome::Continue));
    assert_eq!(g.players[1].position, AxialCoord { q: 1, r: -4 });
}

#[test]
fn cave_visit_hands_out_a_token_once() {
    let mut g = GameState::new(2, "easy1", &assets(), &mut StdRng::seed_from_u64(2)).unwrap();
    g.players[0].position = AxialCoord { q: 1, r: 0 };
    g.players[1].position = AxialCoord { q: 2, r: 0 };
    let mut rng = StdRng::seed_from_u64(0);
    let visit = PlayerAction::Move(MoveAction::cave(HexDirection::West));
    assert_eq!(g.process_action(&visit, &mut rng), Ok(ActionOutcome::IgnoreMoveIdx(0)));
    assert_eq!(g.players[0].tokens.len(), 1);
    assert_eq!(g.players[0].position, AxialCoord { q: 1, r: 0 });
    assert_eq!(g.bonus_counts(), vec![(AxialCoord { q: 0, r: 0 }, 3)]);
    assert!(!g.can_visit_cave(AxialCoord { q: 0, r: 0 }));
    assert_eq!(g.process_action(&visit, &mut rng), Err(ActionError::CaveVisited));
}

#[test]
fn trash_and_discard() {
    let mut p0 = player_at(0, 0, vec![plain([1, 0, 0]), plain([0, 1, 0]), plain([0, 0, 1])]);
    p0.trashes = 1;
    let p1 = player_at(1, 0, vec![]);
    let mut g = small_game(p0, p1);
    let mut rng = StdRng::seed_from_u64(0);
    assert_eq!(g.process_action(&PlayerAction::Trash(vec![0, 1]), &mut rng), Err(ActionError::TooManyTrashes));
    assert_eq!(g.process_action(&PlayerAction::Trash(vec![1]), &mut rng), Ok(ActionOutcome::Continue));
    assert_eq!(g.players[0].num_cards(), 2);
    assert_eq!(g.players[0].trashes, 0);
    assert_eq!(g.process_action(&PlayerAction::Discard(vec![0]), &mut rng), Ok(ActionOutcome::Continue));
    assert_eq!(g.players[0].discard, vec![plain([1, 0, 0])]);
    assert_eq!(g.players[0].hand, vec![plain([0, 0, 1])]);
    assert_eq!(g.players[0].num_cards(), 2);
    assert_eq!(g.process_action(&PlayerAction::Discard(vec![3]), &mut rng), Err(ActionError::BadIndices));
}

#[test]
fn draw_actions() {
    let compass = Card { movement: [0, 0, 0], single_use: true, action: Some(CardAction::Draw(3)) };
    let log = Card { movement: [0, 0, 0], single_use: false, action: Some(CardAction::DrawAndTrash(2)) };
    let mut p0 = player_at(0, 0, vec![compass, log, plain([1, 0, 0])]);
    p0.deck = vec![plain([0, 1, 0]); 5];
    p0.tokens = vec![BonusToken::TrashCard, BonusToken::Jungle(1)];
    let p1 = player_at(1, 0, vec![]);
    let mut g = small_game(p0, p1);
    let mut rng = StdRng::seed_from_u64(0);
    let draw = |card: Option<usize>, token: Option<usize>| PlayerAction::Draw(DrawAction { card, token });
    assert_eq!(g.process_action(&draw(Some(2), None), &mut rng), Err(ActionError::CannotDraw));
    assert_eq!(g.process_action(&draw(None, Some(1)), &mut rng), Err(ActionError::CannotDraw));
    assert_eq!(g.process_action(&draw(None, None), &mut rng), Err(ActionError::NothingToDraw));
    // The compass draws three and is trashed.
    assert_eq!(g.process_action(&draw(Some(0), None), &mut rng), Ok(ActionOutcome::Continue));
    assert_eq!(g.players[0].hand.len(), 5);
    assert_eq!(g.players[0].num_cards(), 7);
    // The travel log draws two more, allows two trashes and is played.
    assert_eq!(g.process_action(&draw(Some(0), None), &mut rng), Ok(ActionOutcome::Continue));
    assert_eq!(g.players[0].hand.len(), 6);
    assert_eq!(g.players[0].trashes, 2);
    assert_eq!(g.players[0].played, vec![log]);
    // The trash token adds one more allowance and is used up.
    assert_eq!(g.process_action(&draw(None, Some(0)), &mut rng), Ok(ActionOutcome::Continue));
    assert_eq!(g.players[0].trashes, 3);
    assert_eq!(g.players[0].tokens, vec![BonusToken::Jungle(1)]);
}

#[test]
fn token_moves() {
    let mut p0 = player_at(0, 0, vec![]);
    p0.tokens = vec![BonusToken::Jungle(2), BonusToken::ShareHex, BonusToken::SwapSymbol];
    let p1 = player_at(1, 0, vec![]);
    let mut g = small_game(p0, p1);
    let mut rng = StdRng::seed_from_u64(0);
    let swap_only = PlayerAction::Move(MoveAction::single_token(2, vec![HexDirection::West]));
    assert_eq!(g.process_action(&swap_only, &mut rng), Err(ActionError::SwapNeedsCard));
    // Share the hex with player 1, paying with the jungle token.
    let share = PlayerAction::Move(MoveAction { cards: vec![], tokens: vec![0, 1], path: vec![HexDirection::East] });
    assert_eq!(g.process_action(&share, &mut rng), Ok(ActionOutcome::Continue));
    assert_eq!(g.players[0].position, AxialCoord { q: 1, r: 0 });
    assert_eq!(g.players[0].tokens, vec![BonusToken::SwapSymbol]);
}

#[test]
fn scores_rank_progress() {
    let p0 = player_at(0, 0, vec![]);
    let mut p1 = player_at(3, -7, vec![]);
    p1.broken_barriers = vec![durango::hex::BrokenBarrier { terrain: Terrain::Water, cost: 1 }];
    let g = small_game(p0, p1);
    let scores = g.player_scores();
    let d0 = dist_at(&g, AxialCoord { q: 0, r: 0 }) as i64;
    let max = g.graph.max_dist as i64;
    assert_eq!(scores, vec![max - d0, max + 1 + 1000]);
}

#[test]
fn starting_hands_are_shuffled() {
    // Unshuffled, the hand would be the last four starting cards.
    let unshuffled = vec![plain([0, 1, 0]), plain([0, 1, 0]), plain([0, 1, 0]), plain([0, 0, 1])];
    let differs = (0..20u64).any(|seed| {
        let p = Player::new(AxialCoord { q: 0, r: 0 }, &mut StdRng::seed_from_u64(seed));
        p.hand != unshuffled
    });
    assert!(differs);
}

#[test]
fn village_trashes_and_swamp_discards() {
    let p0 = player_at(0, 0, vec![plain([1, 0, 0]), plain([0, 1, 0]), plain([0, 0, 1])]);
    let p1 = player_at(3, -7, vec![]);
    let mut g = small_game(p0, p1);
    let village = g.map.node_idx(AxialCoord { q: -1, r: 0 }).unwrap();
    g.map.nodes[village].terrain = Terrain::Village;
    g.map.nodes[village].cost = 2;
    let swamp = g.map.node_idx(AxialCoord { q: -1, r: 1 }).unwrap();
    g.map.nodes[swamp].terrain = Terrain::Swamp;
    let mut rng = StdRng::seed_from_u64(0);
    // Two cards are owed on the village; one is not enough.
    let short = PlayerAction::Move(MoveAction::multi_card(vec![0], HexDirection::West));
    assert_eq!(g.process_action(&short, &mut rng), Err(ActionError::WrongCardCount));
    let two_steps = PlayerAction::Move(MoveAction { cards: vec![0, 1], tokens: vec![], path: vec![HexDirection::West, HexDirection::SouthEast] });
    assert_eq!(g.process_action(&two_steps, &mut rng), Err(ActionError::CardCostOneStep));
    let enter = PlayerAction::Move(MoveAction::multi_card(vec![0, 1], HexDirection::West));
    assert_eq!(g.process_action(&enter, &mut rng), Ok(ActionOutcome::Continue));
    assert_eq!(g.players[0].num_cards(), 1);
    assert!(g.players[0].played.is_empty());
    // The swamp lies south-west of (0, 0).
    g.players[0].position = AxialCoord { q: 0, r: 0 };
    let wade = PlayerAction::Move(MoveAction::multi_card(vec![0], HexDirection::SouthWest));
    assert_eq!(g.process_action(&wade, &mut rng), Ok(ActionOutcome::Continue));
    assert_eq!(g.players[0].position, AxialCoord { q: -1, r: 1 });
    assert_eq!(g.players[0].played, vec![plain([0, 0, 1])]);
    assert_eq!(g.players[0].num_cards(), 1);
}

#[test]
fn free_move_and_double_use() {
    let native = Card { movement: [0, 0, 0], single_use: false, action: Some(CardAction::FreeMove) };
    let machete = Card { movement: [6, 0, 0], single_use: true, action: None };
    let mut p0 = player_at(0, 0, vec![native, machete]);
    p0.tokens = vec![BonusToken::DoubleUse];
    let p1 = player_at(3, -7, vec![]);
    let mut g = small_game(p0, p1);
    let desert = g.map.node_idx(AxialCoord { q: -1, r: 0 }).unwrap();
    g.map.nodes[desert].terrain = Terrain::Desert;
    g.map.nodes[desert].cost = 3;
    let mut rng = StdRng::seed_from_u64(0);
    let m = MoveAction::single_card(0, vec![HexDirection::West]);
    assert!(m.is_free_move(&g.players[0]));
    let far = PlayerAction::Move(MoveAction::single_card(0, vec![HexDirection::West, HexDirection::West]));
    assert_eq!(g.process_action(&far, &mut rng), Err(ActionError::FreeMoveOneStep));
    assert_eq!(g.process_action(&PlayerAction::Move(m), &mut rng), Ok(ActionOutcome::Continue));
    assert_eq!(g.players[0].position, AxialCoord { q: -1, r: 0 });
    // The single-use machete is kept by the double-use token.
    let back = PlayerAction::Move(MoveAction { cards: vec![0], tokens: vec![0], path: vec![HexDirection::East] });
    assert_eq!(g.process_action(&back, &mut rng), Ok(ActionOutcome::Continue));
    assert_eq!(g.players[0].played, vec![native, machete]);
    assert!(g.players[0].tokens.is_empty());
}

#[test]
fn corrupt_map_parts_are_refused() {
    let c = |q, r| AxialCoord { q, r };
    let n = durango::hex::Node { terrain: Terrain::Jungle, cost: 1, board_idx: 0 };
    assert!(HexMap::from_parts(vec![c(1, 0), c(0, 0)], vec![n, n], 0).is_err());
    assert!(HexMap::from_parts(vec![c(0, 0), c(0, 0)], vec![n, n], 0).is_err());
    assert!(HexMap::from_parts(vec![c(0, 0)], vec![n, n], 0).is_err());
    assert!(HexMap::from_parts(vec![c(0, 0), c(0, 1)], vec![n, n], 0).is_ok());
}

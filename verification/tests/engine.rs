use rust_mines::{
    signal_for_key, signals_for_pointer, ConfigError, Face, Game, Key, Outcome, Pointer, Reaction,
    Signal, SignalType, Tile, TileType, TileVisibility,
};

const S: TileType = TileType::Safe;
const M: TileType = TileType::Mine;
const H: TileVisibility = TileVisibility::Hidden;
const K: TileVisibility = TileVisibility::Marked;
const V: TileVisibility = TileVisibility::Visible;

fn tile_at(x: usize, y: usize) -> Tile {
    Tile { x, y, tile_type: S, tile_visibility: TileVisibility::Hidden, mine_count: 0 }
}

fn visibilities(game: &Game) -> Vec<TileVisibility> {
    game.tiles.iter().map(|t| t.tile_visibility).collect()
}

fn brute_force_count(game: &Game, x: usize, y: usize) -> u8 {
    let mut count = 0;
    for t in game.tiles.iter() {
        let dx = t.x as i64 - x as i64;
        let dy = t.y as i64 - y as i64;
        if (dx, dy) != (0, 0) && dx.abs() <= 1 && dy.abs() <= 1 && t.tile_type == M {
            count += 1;
        }
    }
    count
}

#[test]
fn interior_tile_has_eight_neighbors_in_listing_order() {
    let around = tile_at(1, 1).neighbors(3, 3);
    assert_eq!(
        around,
        vec![(0, 1), (1, 0), (2, 1), (1, 2), (0, 0), (0, 2), (2, 0), (2, 2)]
    );
}

#[test]
fn corner_tiles_have_three_neighbors() {
    assert_eq!(tile_at(0, 0).neighbors(3, 3), vec![(1, 0), (0, 1), (1, 1)]);
    assert_eq!(tile_at(2, 0).neighbors(3, 3), vec![(1, 0), (2, 1), (1, 1)]);
    assert_eq!(tile_at(0, 2).neighbors(3, 3), vec![(0, 1), (1, 2), (1, 1)]);
    assert_eq!(tile_at(2, 2).neighbors(3, 3), vec![(1, 2), (2, 1), (1, 1)]);
}

#[test]
fn edge_tiles_have_five_neighbors() {
    assert_eq!(
        tile_at(1, 0).neighbors(3, 3),
        vec![(0, 0), (2, 0), (1, 1), (0, 1), (2, 1)]
    );
    assert_eq!(tile_at(0, 1).neighbors(3, 3).len(), 5);
    assert_eq!(tile_at(2, 1).neighbors(3, 3).len(), 5);
    assert_eq!(tile_at(1, 2).neighbors(3, 3).len(), 5);
}

#[test]
fn single_cell_grid_has_no_neighbors() {
    assert_eq!(tile_at(0, 0).neighbors(1, 1), vec![]);
}

#[test]
fn narrow_grid_has_fewer_neighbors() {
    assert_eq!(tile_at(0, 0).neighbors(1, 3), vec![(0, 1)]);
    assert_eq!(tile_at(0, 1).neighbors(1, 3), vec![(0, 0), (0, 2)]);
    assert_eq!(tile_at(1, 0).neighbors(3, 1), vec![(0, 0), (2, 0)]);
}

#[test]
fn neighbor_counts_over_a_whole_grid() {
    let (width, height) = (5, 4);
    for y in 0..height {
        for x in 0..width {
            let on_x_edge = x == 0 || x == width - 1;
            let on_y_edge = y == 0 || y == height - 1;
            let expected = match (on_x_edge, on_y_edge) {
                (true, true) => 3,
                (false, false) => 8,
                _ => 5,
            };
            let around = tile_at(x, y).neighbors(width, height);
            assert_eq!(around.len(), expected);
            for (a, b) in around {
                assert!(a < width && b < height);
            }
        }
    }
}

#[test]
fn draws_map_nine_to_one() {
    for draw in 0..=8 {
        assert_eq!(TileType::from_draw(draw), S);
    }
    assert_eq!(TileType::from_draw(9), M);
    assert_eq!(TileType::from_draw(-1), M);
    assert_eq!(TileType::from_draw(10), M);
}

#[test]
fn zero_sized_boards_are_rejected() {
    assert_eq!(Game::new(0, 5).err(), Some(ConfigError::EmptyGrid));
    assert_eq!(Game::new(5, 0).err(), Some(ConfigError::EmptyGrid));
    assert_eq!(Game::new(0, 0).err(), Some(ConfigError::EmptyGrid));
    assert_eq!(Game::from_types(0, 1, vec![]).err(), Some(ConfigError::EmptyGrid));
}

#[test]
fn oversized_boards_are_rejected() {
    assert_eq!(Game::new(usize::MAX, 2).err(), Some(ConfigError::TooLarge));
    assert_eq!(Game::from_types(usize::MAX, usize::MAX, vec![S]).err(), Some(ConfigError::TooLarge));
}

#[test]
fn wrong_number_of_kinds_is_rejected() {
    assert_eq!(Game::from_types(2, 2, vec![S]).err(), Some(ConfigError::WrongTileCount));
    assert_eq!(Game::from_types(1, 1, vec![S, M]).err(), Some(ConfigError::WrongTileCount));
}

#[test]
fn new_board_is_laid_out_row_by_row_and_hidden() {
    let game = Game::new(7, 5).unwrap();
    assert_eq!(game.width, 7);
    assert_eq!(game.height, 5);
    assert_eq!(game.selected, (0, 0));
    assert_eq!(game.tiles.len(), 35);
    for (i, t) in game.tiles.iter().enumerate() {
        assert_eq!(t.x, i % 7);
        assert_eq!(t.y, i / 7);
        assert_eq!(t.tile_visibility, TileVisibility::Hidden);
    }
}

#[test]
fn new_board_counts_match_brute_force() {
    let game = Game::new(12, 12).unwrap();
    for t in game.tiles.iter() {
        assert_eq!(t.mine_count, brute_force_count(&game, t.x, t.y));
        assert!(t.mine_count <= 8);
    }
}

#[test]
fn new_board_mixes_safe_tiles_and_mines() {
    let game = Game::new(100, 100).unwrap();
    let mines = game.tiles.iter().filter(|t| t.tile_type == M).count();
    assert!(mines > 0);
    assert!(mines < 10_000);
    assert!(mines < 5_000);
}

#[test]
fn given_kinds_give_exact_counts() {
    let game = Game::from_types(3, 3, vec![M, S, S, S, S, S, S, S, M]).unwrap();
    let counts: Vec<u8> = game.tiles.iter().map(|t| t.mine_count).collect();
    assert_eq!(counts, vec![0, 1, 0, 1, 2, 1, 0, 1, 0]);
    let kinds: Vec<TileType> = game.tiles.iter().map(|t| t.tile_type).collect();
    assert_eq!(kinds, vec![M, S, S, S, S, S, S, S, M]);
    for t in game.tiles.iter() {
        assert_eq!(t.mine_count, brute_force_count(&game, t.x, t.y));
    }
}

#[test]
fn tile_ringed_by_mines_counts_eight() {
    let game = Game::from_types(3, 3, vec![M, M, M, M, S, M, M, M, M]).unwrap();
    assert_eq!(game.tiles[4].mine_count, 8);
    assert_eq!(game.tiles[0].mine_count, 2);
    assert_eq!(game.tiles[1].mine_count, 4);
}

#[test]
fn flood_opens_the_region_and_its_rim() {
    let mut kinds = vec![S; 16];
    kinds[15] = M;
    let mut game = Game::from_types(4, 4, kinds).unwrap();
    game.flood_reveal(0, 0);
    assert_eq!(visibilities(&game), vec![V, V, V, V, V, V, V, V, V, V, V, V, V, V, V, H]);
    assert!(game.check_game_won());
}

#[test]
fn flood_halts_at_the_first_counted_tile() {
    let mut game = Game::from_types(5, 1, vec![S, S, M, S, S]).unwrap();
    let counts: Vec<u8> = game.tiles.iter().map(|t| t.mine_count).collect();
    assert_eq!(counts, vec![0, 1, 0, 1, 0]);
    let outcome = game.click_tile();
    assert_eq!(outcome, Outcome { lost: false, won: false });
    assert_eq!(visibilities(&game), vec![V, V, H, H, H]);
    game.set_selected((4, 0));
    let outcome = game.click_tile();
    assert_eq!(outcome, Outcome { lost: false, won: true });
    assert_eq!(visibilities(&game), vec![V, V, H, V, V]);
}

#[test]
fn flood_from_a_counted_tile_turns_it_alone() {
    let mut game = Game::from_types(4, 1, vec![S, S, S, M]).unwrap();
    game.flood_reveal(2, 0);
    assert_eq!(visibilities(&game), vec![H, H, V, H]);
    assert!(!game.check_game_won());
}

#[test]
fn flood_does_not_cross_a_wall_of_counted_tiles() {
    let kinds = vec![
        S, S, S, S, S, //
        S, S, S, S, S, //
        M, M, M, M, M, //
        S, S, S, S, S, //
        S, S, S, S, S, //
    ];
    let mut game = Game::from_types(5, 5, kinds).unwrap();
    game.flood_reveal(4, 0);
    assert_eq!(
        visibilities(&game),
        vec![
            V, V, V, V, V, //
            V, V, V, V, V, //
            H, H, H, H, H, //
            H, H, H, H, H, //
            H, H, H, H, H, //
        ]
    );
    game.flood_reveal(0, 4);
    assert_eq!(
        visibilities(&game),
        vec![
            V, V, V, V, V, //
            V, V, V, V, V, //
            H, H, H, H, H, //
            V, V, V, V, V, //
            V, V, V, V, V, //
        ]
    );
    assert!(game.check_game_won());
}

#[test]
fn flood_skips_marked_tiles() {
    let mut game = Game::from_types(3, 1, vec![S, S, S]).unwrap();
    game.set_selected((1, 0));
    assert!(!game.toggle_mark());
    game.set_selected((0, 0));
    let outcome = game.click_tile();
    assert_eq!(visibilities(&game), vec![V, K, H]);
    assert_eq!(outcome, Outcome { lost: false, won: false });
}

#[test]
fn flood_reaches_round_a_marked_tile() {
    let mut game = Game::from_types(3, 3, vec![S; 9]).unwrap();
    game.set_selected((1, 1));
    game.toggle_mark();
    game.set_selected((0, 0));
    let outcome = game.click_tile();
    assert_eq!(visibilities(&game), vec![V, V, V, V, K, V, V, V, V]);
    assert_eq!(outcome, Outcome { lost: false, won: true });
}

#[test]
fn flood_on_a_large_open_board_ends() {
    let mut game = Game::from_types(200, 200, vec![S; 40_000]).unwrap();
    let outcome = game.click_tile();
    assert_eq!(outcome, Outcome { lost: false, won: true });
    assert!(game.tiles.iter().all(|t| t.tile_visibility == TileVisibility::Visible));
}

#[test]
fn flood_keeps_kinds_counts_and_places() {
    let kinds = vec![S, S, S, S, S, M, S, S, S, S, S, S];
    let mut game = Game::from_types(4, 3, kinds.clone()).unwrap();
    let before = game.tiles.clone();
    game.flood_reveal(3, 2);
    for (old, new) in before.iter().zip(game.tiles.iter()) {
        assert_eq!((old.x, old.y, old.tile_type, old.mine_count), (new.x, new.y, new.tile_type, new.mine_count));
    }
    assert_eq!(game.selected, (0, 0));
    assert_eq!((game.width, game.height), (4, 3));
}

#[test]
fn marked_tile_blocks_reveal() {
    let mut game = Game::from_types(2, 2, vec![S, M, S, S]).unwrap();
    game.set_selected((1, 0));
    game.toggle_mark();
    assert_eq!(game.tiles[1].tile_visibility, TileVisibility::Marked);
    let outcome = game.click_tile();
    assert_eq!(outcome, Outcome { lost: false, won: false });
    assert_eq!(game.tiles[1].tile_visibility, TileVisibility::Marked);
    assert!(game.tiles.iter().all(|t| t.tile_visibility != TileVisibility::Visible));
}

#[test]
fn marked_last_safe_tile_blocks_reveal_without_a_signal() {
    let mut game = Game::from_types(1, 2, vec![S, M]).unwrap();
    assert!(game.toggle_mark());
    let outcome = game.click_tile();
    assert_eq!(outcome, Outcome { lost: false, won: false });
    assert_eq!(game.tiles[0].tile_visibility, TileVisibility::Marked);
}

#[test]
fn revealing_the_only_safe_tile_wins() {
    let mut game = Game::from_types(1, 2, vec![S, M]).unwrap();
    assert_eq!(game.tiles[0].mine_count, 1);
    assert!(!game.check_game_won());
    let outcome = game.click_tile();
    assert_eq!(outcome, Outcome { lost: false, won: true });
    assert_eq!(game.tiles[0].tile_visibility, TileVisibility::Visible);
    assert_eq!(game.tiles[1].tile_visibility, TileVisibility::Hidden);
    assert!(game.check_game_won());
}

#[test]
fn revealing_a_mine_loses() {
    let mut game = Game::from_types(3, 1, vec![M, S, S]).unwrap();
    let outcome = game.click_tile();
    assert_eq!(outcome, Outcome { lost: true, won: false });
    assert_eq!(
        visibilities(&game),
        vec![TileVisibility::Visible, TileVisibility::Hidden, TileVisibility::Hidden]
    );
}

#[test]
fn revealing_a_mine_with_no_count_nearby_opens_nothing_else() {
    let mut kinds = vec![S; 9];
    kinds[4] = M;
    let mut game = Game::from_types(3, 3, vec![M, M, M, M, M, M, M, M, S]).unwrap();
    assert_eq!(game.tiles[0].mine_count, 3);
    let outcome = game.click_tile();
    assert!(outcome.lost);
    let seen = game.tiles.iter().filter(|t| t.tile_visibility == TileVisibility::Visible).count();
    assert_eq!(seen, 1);
    let mut lone = Game::from_types(3, 3, kinds).unwrap();
    lone.set_selected((1, 1));
    assert_eq!(lone.tiles[4].mine_count, 0);
    let outcome = lone.click_tile();
    assert_eq!(outcome, Outcome { lost: true, won: false });
    let seen = lone.tiles.iter().filter(|t| t.tile_visibility == TileVisibility::Visible).count();
    assert_eq!(seen, 1);
}

#[test]
fn revealing_the_only_tile_as_a_mine_signals_both() {
    let mut game = Game::from_types(1, 1, vec![M]).unwrap();
    let outcome = game.click_tile();
    assert_eq!(outcome, Outcome { lost: true, won: true });
}

#[test]
fn moves_outside_the_grid_are_ignored() {
    let mut game = Game::from_types(3, 2, vec![S; 6]).unwrap();
    game.set_selected((2, 1));
    assert_eq!(game.selected, (2, 1));
    for pos in [(-1, 0), (0, -1), (-1, -1), (3, 0), (0, 2), (3, 2), (i32::MAX, 0), (i32::MIN, i32::MIN), (2, 2), (3, 1)] {
        game.set_selected(pos);
        assert_eq!(game.selected, (2, 1));
    }
    game.set_selected((0, 0));
    assert_eq!(game.selected, (0, 0));
    game.set_selected((1, 1));
    assert_eq!(game.selected, (1, 1));
}

#[test]
fn toggling_twice_restores_a_hidden_tile() {
    let mut game = Game::from_types(2, 2, vec![S, M, S, S]).unwrap();
    game.set_selected((1, 1));
    let before = game.tiles.clone();
    game.toggle_mark();
    assert_eq!(game.tiles[3].tile_visibility, TileVisibility::Marked);
    assert_eq!(game.tiles[0], before[0]);
    game.toggle_mark();
    assert_eq!(game.tiles, before);
}

#[test]
fn toggling_a_visible_tile_changes_nothing() {
    let mut game = Game::from_types(2, 1, vec![S, M]).unwrap();
    game.click_tile();
    let before = game.tiles.clone();
    let won = game.toggle_mark();
    assert_eq!(game.tiles, before);
    assert!(won);
}

#[test]
fn marking_the_last_hidden_safe_tile_signals_a_win() {
    let mut game = Game::from_types(2, 1, vec![S, M]).unwrap();
    assert!(game.toggle_mark());
    assert!(!game.toggle_mark());
}

#[test]
fn marking_a_mine_does_not_win() {
    let mut game = Game::from_types(2, 1, vec![S, M]).unwrap();
    game.set_selected((1, 0));
    assert!(!game.toggle_mark());
    assert_eq!(game.tiles[1].tile_visibility, TileVisibility::Marked);
}

#[test]
fn commands_are_dispatched() {
    let mut game = Game::from_types(2, 1, vec![S, M]).unwrap();
    let quiet = Outcome { lost: false, won: false };
    let moved = game.apply(&Signal { pos: Some((1, 0)), signal_type: SignalType::Move });
    assert_eq!(moved, Reaction { quit: false, outcome: quiet });
    assert_eq!(game.selected, (1, 0));
    let stray = game.apply(&Signal { pos: Some((2, 0)), signal_type: SignalType::Move });
    assert_eq!(stray, Reaction { quit: false, outcome: quiet });
    assert_eq!(game.selected, (1, 0));
    let nowhere = game.apply(&Signal { pos: None, signal_type: SignalType::Move });
    assert_eq!(nowhere, Reaction { quit: false, outcome: quiet });
    assert_eq!(game.selected, (1, 0));
    let marked = game.apply(&Signal { pos: None, signal_type: SignalType::Mark });
    assert_eq!(marked, Reaction { quit: false, outcome: quiet });
    assert_eq!(game.tiles[1].tile_visibility, TileVisibility::Marked);
    let blocked = game.apply(&Signal { pos: None, signal_type: SignalType::Click });
    assert_eq!(blocked, Reaction { quit: false, outcome: quiet });
    let unmarked = game.apply(&Signal { pos: None, signal_type: SignalType::Mark });
    assert_eq!(unmarked, Reaction { quit: false, outcome: quiet });
    let lost = game.apply(&Signal { pos: None, signal_type: SignalType::Click });
    assert_eq!(lost, Reaction { quit: false, outcome: Outcome { lost: true, won: false } });
    let quit = game.apply(&Signal { pos: None, signal_type: SignalType::Quit });
    assert_eq!(quit, Reaction { quit: true, outcome: quiet });
    assert_eq!(game.tiles[1].tile_visibility, TileVisibility::Visible);
    assert_eq!(game.tiles[0].tile_visibility, TileVisibility::Hidden);
}

#[test]
fn index_of_is_row_major() {
    let game = Game::from_types(4, 3, vec![S; 12]).unwrap();
    assert_eq!(game.index_of(0, 0), 0);
    assert_eq!(game.index_of(3, 0), 3);
    assert_eq!(game.index_of(1, 2), 9);
    assert_eq!(game.index_of(3, 2), 11);
}

#[test]
fn faces_show_content_only_when_visible() {
    let mut game = Game::from_types(3, 1, vec![M, S, S]).unwrap();
    assert_eq!(game.tiles[0].face(), Face::Hidden);
    assert_eq!(game.tiles[1].face(), Face::Hidden);
    game.toggle_mark();
    assert_eq!(game.tiles[0].face(), Face::Marked);
    game.toggle_mark();
    game.click_tile();
    assert_eq!(game.tiles[0].face(), Face::Mine);
    game.set_selected((2, 0));
    game.click_tile();
    assert_eq!(game.tiles[1].face(), Face::Count(1));
    assert_eq!(game.tiles[2].face(), Face::Count(0));
}

fn parts(signal: &Signal) -> (SignalType, Option<(i32, i32)>) {
    (signal.signal_type, signal.pos)
}

fn key_parts(selected: (usize, usize), key: Key) -> Option<(SignalType, Option<(i32, i32)>)> {
    signal_for_key(selected, key).map(|s| parts(&s))
}

#[test]
fn keys_are_bound_to_commands() {
    let at = (3, 5);
    assert_eq!(key_parts(at, Key::Esc), Some((SignalType::Quit, None)));
    assert_eq!(key_parts(at, Key::Char('q')), Some((SignalType::Quit, None)));
    assert_eq!(key_parts(at, Key::Char('f')), Some((SignalType::Mark, None)));
    assert_eq!(key_parts(at, Key::Char(' ')), Some((SignalType::Click, None)));
    assert_eq!(key_parts(at, Key::Left), Some((SignalType::Move, Some((2, 5)))));
    assert_eq!(key_parts(at, Key::Char('h')), Some((SignalType::Move, Some((2, 5)))));
    assert_eq!(key_parts(at, Key::Right), Some((SignalType::Move, Some((4, 5)))));
    assert_eq!(key_parts(at, Key::Char('l')), Some((SignalType::Move, Some((4, 5)))));
    assert_eq!(key_parts(at, Key::Up), Some((SignalType::Move, Some((3, 4)))));
    assert_eq!(key_parts(at, Key::Char('k')), Some((SignalType::Move, Some((3, 4)))));
    assert_eq!(key_parts(at, Key::Down), Some((SignalType::Move, Some((3, 6)))));
    assert_eq!(key_parts(at, Key::Char('j')), Some((SignalType::Move, Some((3, 6)))));
    assert_eq!(key_parts(at, Key::Char('x')), None);
    assert_eq!(key_parts(at, Key::Other), None);
}

#[test]
fn steps_off_the_first_cell_aim_outside() {
    assert_eq!(key_parts((0, 0), Key::Left), Some((SignalType::Move, Some((-1, 0)))));
    assert_eq!(key_parts((0, 0), Key::Up), Some((SignalType::Move, Some((0, -1)))));
}

#[test]
fn steps_beyond_what_a_command_carries_aim_nowhere() {
    let far = i32::MAX as usize;
    assert_eq!(key_parts((far, 0), Key::Right), Some((SignalType::Move, None)));
    assert_eq!(key_parts((0, far), Key::Down), Some((SignalType::Move, None)));
    assert_eq!(key_parts((far, 0), Key::Left), Some((SignalType::Move, Some((i32::MAX - 1, 0)))));
    assert_eq!(key_parts((far + 1, 0), Key::Left), Some((SignalType::Move, None)));
}

#[test]
fn pointer_events_are_bound_to_commands() {
    let moved: Vec<_> = signals_for_pointer(7, 3, Pointer::Other).iter().map(parts).collect();
    assert_eq!(moved, vec![(SignalType::Move, Some((2, 2)))]);
    let left: Vec<_> = signals_for_pointer(0, 0, Pointer::LeftReleased).iter().map(parts).collect();
    assert_eq!(left, vec![(SignalType::Move, Some((0, -1))), (SignalType::Click, None)]);
    let right: Vec<_> =
        signals_for_pointer(65535, 65535, Pointer::RightReleased).iter().map(parts).collect();
    assert_eq!(right, vec![(SignalType::Move, Some((21845, 65534))), (SignalType::Mark, None)]);
}

#[test]
fn key_steps_move_the_selection_inside_the_grid_only() {
    let mut game = Game::from_types(2, 2, vec![S; 4]).unwrap();
    for (key, expected) in [
        (Key::Left, (0, 0)),
        (Key::Up, (0, 0)),
        (Key::Right, (1, 0)),
        (Key::Right, (1, 0)),
        (Key::Down, (1, 1)),
        (Key::Down, (1, 1)),
        (Key::Left, (0, 1)),
        (Key::Up, (0, 0)),
    ] {
        let signal = signal_for_key(game.selected, key).unwrap();
        game.apply(&signal);
        assert_eq!(game.selected, expected);
    }
}

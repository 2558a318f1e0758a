use tetris_server::board::{
    can_move_down, gravity_tick, gravity_tick_floor_only, live_tick, owner_has_active_piece,
    spawn_missing_pieces, spawn_random_pieces, step_piece, GamePiece, GRID_HEIGHT, GRID_WIDTH,
};
use tetris_server::shapes::{get_random_tetris_shape, shape_from_index, TetrisShapes};

const ALL: [TetrisShapes; 7] = [
    TetrisShapes::I,
    TetrisShapes::O,
    TetrisShapes::T,
    TetrisShapes::S,
    TetrisShapes::Z,
    TetrisShapes::J,
    TetrisShapes::L,
];

fn piece(owner: u128, shape: TetrisShapes, x_halves: u32, y_halves: u32, is_placed: bool) -> GamePiece {
    GamePiece { owner, shape, x_halves, y_halves, is_placed }
}

#[test]
fn shape_names() {
    let names: Vec<&str> = ALL.iter().map(|s| s.as_str()).collect();
    assert_eq!(names, vec!["I", "O", "T", "S", "Z", "J", "L"]);
}

#[test]
fn shape_coords() {
    assert_eq!(TetrisShapes::I.get_shape_coords(), [[0, 0], [1, 0], [2, 0], [3, 0]]);
    assert_eq!(TetrisShapes::O.get_shape_coords(), [[0, 0], [1, 0], [0, 1], [1, 1]]);
    assert_eq!(TetrisShapes::T.get_shape_coords(), [[1, 0], [0, 1], [1, 1], [2, 1]]);
    assert_eq!(TetrisShapes::S.get_shape_coords(), [[1, 0], [2, 0], [0, 1], [1, 1]]);
    assert_eq!(TetrisShapes::Z.get_shape_coords(), [[0, 0], [1, 0], [1, 1], [2, 1]]);
    assert_eq!(TetrisShapes::J.get_shape_coords(), [[0, 0], [0, 1], [1, 1], [2, 1]]);
    assert_eq!(TetrisShapes::L.get_shape_coords(), [[2, 0], [0, 1], [1, 1], [2, 1]]);
}

#[test]
fn every_shape_fits_its_box_and_touches_its_top_row() {
    for shape in ALL {
        let coords = shape.get_shape_coords();
        assert!(coords.iter().all(|c| (0..=3).contains(&c[0]) && (0..=1).contains(&c[1])));
        assert!(coords.iter().any(|c| c[1] == 0));
        for a in 0..4 {
            for b in (a + 1)..4 {
                assert_ne!(coords[a], coords[b]);
            }
        }
    }
}

#[test]
fn shapes_by_index() {
    for (i, shape) in ALL.iter().enumerate() {
        assert_eq!(shape_from_index(i as u32), *shape);
    }
}

#[test]
fn random_shapes_are_shapes() {
    for _ in 0..200 {
        assert!(ALL.contains(&get_random_tetris_shape()));
    }
}

#[test]
fn grid_size() {
    assert_eq!(GRID_WIDTH, 20);
    assert_eq!(GRID_HEIGHT, 24);
}

#[test]
fn free_piece_falls_half_a_cell() {
    let mut pieces = vec![piece(1, TetrisShapes::T, 0, 0, false)];
    gravity_tick(&mut pieces);
    assert_eq!(pieces, vec![piece(1, TetrisShapes::T, 0, 1, false)]);
}

#[test]
fn piece_stops_at_the_floor() {
    // An I piece covers one row: at row 23 (46 halves) the row below is the floor.
    let mut pieces = vec![piece(1, TetrisShapes::I, 0, 46, false), piece(2, TetrisShapes::I, 20, 45, false)];
    gravity_tick(&mut pieces);
    assert_eq!(pieces, vec![piece(1, TetrisShapes::I, 0, 46, true), piece(2, TetrisShapes::I, 20, 46, false)]);
    // An O piece covers two rows.
    let mut pieces = vec![piece(1, TetrisShapes::O, 0, 44, false)];
    gravity_tick(&mut pieces);
    assert_eq!(pieces, vec![piece(1, TetrisShapes::O, 0, 44, true)]);
}

#[test]
fn piece_stops_on_a_placed_piece() {
    let floor_piece = piece(9, TetrisShapes::I, 0, 10, true);
    let falling = piece(1, TetrisShapes::O, 0, 6, false);
    let mut pieces = vec![floor_piece, falling];
    gravity_tick(&mut pieces);
    // The placed piece is not blocked by anything below it, so it falls on.
    assert_eq!(pieces, vec![piece(9, TetrisShapes::I, 0, 11, true), piece(1, TetrisShapes::O, 0, 6, true)]);
}

#[test]
fn piece_between_rows_passes_a_placed_piece() {
    // Collisions are checked one whole row down: at a half row they never match.
    let floor_piece = piece(9, TetrisShapes::I, 0, 10, true);
    let falling = piece(1, TetrisShapes::O, 0, 7, false);
    let snapshot = vec![floor_piece, falling];
    assert!(can_move_down(&falling, &snapshot));
    assert_eq!(step_piece(&falling, &snapshot), piece(1, TetrisShapes::O, 0, 8, false));
}

#[test]
fn unplaced_pieces_do_not_stop_others() {
    let other = piece(9, TetrisShapes::I, 0, 10, false);
    let falling = piece(1, TetrisShapes::O, 0, 6, false);
    let mut pieces = vec![other, falling];
    gravity_tick(&mut pieces);
    assert_eq!(pieces, vec![piece(9, TetrisShapes::I, 0, 11, false), piece(1, TetrisShapes::O, 0, 7, false)]);
}

#[test]
fn floor_only_tick_ignores_placed_pieces() {
    let floor_piece = piece(9, TetrisShapes::I, 0, 10, true);
    let falling = piece(1, TetrisShapes::O, 0, 6, false);
    let mut pieces = vec![floor_piece, falling];
    gravity_tick_floor_only(&mut pieces);
    assert_eq!(pieces, vec![piece(9, TetrisShapes::I, 0, 11, true), piece(1, TetrisShapes::O, 0, 7, false)]);
}

#[test]
fn ticks_agree_without_placed_pieces() {
    let start = vec![
        piece(1, TetrisShapes::L, 0, 3, false),
        piece(2, TetrisShapes::S, 2, 44, false),
        piece(3, TetrisShapes::J, 4, 5, false),
    ];
    let mut a = start.clone();
    let mut b = start.clone();
    gravity_tick(&mut a);
    gravity_tick_floor_only(&mut b);
    assert_eq!(a, b);
}

#[test]
fn piece_falls_until_it_rests_on_the_floor() {
    let mut pieces = vec![piece(1, TetrisShapes::Z, 0, 0, false)];
    let mut ticks = 0;
    while !pieces[0].is_placed {
        gravity_tick(&mut pieces);
        ticks += 1;
        assert!(ticks < 200);
    }
    // Z covers two rows: it rests with its lower row on row 23.
    assert_eq!(pieces[0].y_halves, 44);
    assert_eq!(ticks, 45);
    gravity_tick(&mut pieces);
    assert_eq!(pieces[0], piece(1, TetrisShapes::Z, 0, 44, true));
}

#[test]
fn spawn_gives_pieces_to_players_without_one() {
    let mut pieces = vec![piece(7, TetrisShapes::I, 0, 40, true), piece(8, TetrisShapes::O, 20, 3, false)];
    let players = vec![7u128, 8, 9];
    let shapes = vec![TetrisShapes::T, TetrisShapes::S, TetrisShapes::L];
    spawn_missing_pieces(&mut pieces, &players, &shapes);
    assert_eq!(
        pieces,
        vec![
            piece(7, TetrisShapes::I, 0, 40, true),
            piece(8, TetrisShapes::O, 20, 3, false),
            piece(7, TetrisShapes::T, 0, 0, false),
            piece(9, TetrisShapes::L, 0, 0, false),
        ]
    );
    for p in &players {
        assert!(owner_has_active_piece(&pieces, *p));
    }
}

#[test]
fn spawn_alternates_columns() {
    let mut pieces = Vec::new();
    let players = vec![1u128, 2];
    let shapes = vec![TetrisShapes::I, TetrisShapes::O];
    spawn_missing_pieces(&mut pieces, &players, &shapes);
    assert_eq!(pieces, vec![piece(1, TetrisShapes::I, 0, 0, false), piece(2, TetrisShapes::O, 20, 0, false)]);
    // A second round gives nothing: both still have falling pieces.
    spawn_missing_pieces(&mut pieces, &players, &shapes);
    assert_eq!(pieces.len(), 2);
}

#[test]
fn random_spawn_gives_one_piece_each() {
    let mut pieces = Vec::new();
    let players = vec![5u128, 6];
    spawn_random_pieces(&mut pieces, &players);
    assert_eq!(pieces.len(), 2);
    assert_eq!(pieces[0].owner, 5);
    assert_eq!(pieces[1].owner, 6);
    assert!(pieces.iter().all(|p| !p.is_placed && p.y_halves == 0));
}

#[test]
fn live_tick_moves_then_spawns() {
    let mut pieces = vec![piece(1, TetrisShapes::I, 0, 46, false)];
    let players = vec![1u128, 2];
    let shapes = vec![TetrisShapes::J, TetrisShapes::T];
    live_tick(&mut pieces, &players, &shapes);
    assert_eq!(
        pieces,
        vec![
            piece(1, TetrisShapes::I, 0, 46, true),
            piece(1, TetrisShapes::J, 0, 0, false),
            piece(2, TetrisShapes::T, 20, 0, false),
        ]
    );
}

#[test]
fn every_player_keeps_exactly_one_falling_piece() {
    let mut pieces: Vec<GamePiece> = Vec::new();
    let players = vec![11u128, 22];
    for tick in 0..400 {
        let shapes = vec![get_random_tetris_shape(), get_random_tetris_shape()];
        live_tick(&mut pieces, &players, &shapes);
        for p in &players {
            let falling = pieces.iter().filter(|q| q.owner == *p && !q.is_placed).count();
            assert_eq!(falling, 1, "player {} at tick {}", p, tick);
        }
        for q in &pieces {
            let coords = q.shape.get_shape_coords();
            assert!(coords.iter().all(|c| q.y_halves as i64 + 2 * c[1] as i64 <= 2 * GRID_HEIGHT as i64 - 2));
        }
    }
}

#[test]
fn pieces_stay_inside_the_board_over_a_long_match() {
    let mut pieces: Vec<GamePiece> = Vec::new();
    let players = vec![5u128, 6, 7];
    for tick in 0..600 {
        let shapes = vec![ALL[tick % 7], ALL[(tick * 3 + 1) % 7], ALL[(tick * 5 + 2) % 7]];
        live_tick(&mut pieces, &players, &shapes);
        for q in &pieces {
            for c in q.shape.get_shape_coords().iter() {
                let x = q.x_halves as i64 + 2 * c[0] as i64;
                let y = q.y_halves as i64 + 2 * c[1] as i64;
                assert!(0 <= x && x < 2 * GRID_WIDTH as i64, "column out of the board at tick {}", tick);
                assert!(0 <= y && y <= 2 * (GRID_HEIGHT as i64 - 1), "row out of the board at tick {}", tick);
            }
        }
        for p in &players {
            assert_eq!(pieces.iter().filter(|q| q.owner == *p && !q.is_placed).count(), 1);
        }
    }
}

#[test]
fn floor_only_match_keeps_pieces_inside_the_board() {
    let mut pieces: Vec<GamePiece> = Vec::new();
    let players = vec![8u128, 9];
    for tick in 0..300 {
        gravity_tick_floor_only(&mut pieces);
        let shapes = vec![ALL[tick % 7], ALL[(tick + 4) % 7]];
        spawn_missing_pieces(&mut pieces, &players, &shapes);
        for q in &pieces {
            for c in q.shape.get_shape_coords().iter() {
                let x = q.x_halves as i64 + 2 * c[0] as i64;
                let y = q.y_halves as i64 + 2 * c[1] as i64;
                assert!(0 <= x && x < 2 * GRID_WIDTH as i64);
                assert!(0 <= y && y <= 2 * (GRID_HEIGHT as i64 - 1));
            }
        }
        for p in &players {
            assert_eq!(pieces.iter().filter(|q| q.owner == *p && !q.is_placed).count(), 1);
        }
    }
}

#[test]
fn shapes_have_distinct_cell_sets() {
    for (i, a) in ALL.iter().enumerate() {
        for (j, b) in ALL.iter().enumerate() {
            let mut ca: Vec<[i32; 2]> = a.get_shape_coords().to_vec();
            let mut cb: Vec<[i32; 2]> = b.get_shape_coords().to_vec();
            ca.sort();
            cb.sort();
            assert_eq!(i == j, ca == cb);
        }
    }
}

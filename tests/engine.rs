use tetris::{
    drop_position, rotate_offset_exec, shape_cell, Board, GameEngine, GameState, GravityResult,
    Intent, Piece, BOARD_HEIGHT, BOARD_WIDTH, SHAPE_COUNT,
};

fn sorted(mut v: Vec<(i16, i16)>) -> Vec<(i16, i16)> {
    v.sort();
    v
}

fn tick_until_lock(g: &mut GameEngine, next: usize) -> GravityResult {
    for _ in 0..100 {
        match g.tick(501, next) {
            Some(GravityResult::Fell) => {}
            Some(r) => return r,
            None => panic!("gravity did not fire"),
        }
    }
    panic!("piece never locked");
}

#[test]
fn catalog_offsets() {
    assert_eq!(shape_cell(0, 3), (1, 1));
    assert_eq!(shape_cell(1, 3), (0, 3));
    assert_eq!(shape_cell(4, 0), (1, 0));
    assert_eq!(shape_cell(6, 3), (0, 2));
}

#[test]
fn rotation_transforms() {
    assert_eq!(rotate_offset_exec((1, 2), 0), (1, 2));
    assert_eq!(rotate_offset_exec((1, 2), 1), (2, -1));
    assert_eq!(rotate_offset_exec((1, 2), 2), (-1, -2));
    assert_eq!(rotate_offset_exec((1, 2), 3), (-2, 1));
}

#[test]
fn rotated_shape_of_t() {
    let p = Piece { x: 4, y: 4, shape_index: 2, rotation: 1 };
    assert_eq!(p.rotated_shape(), vec![(0, 0), (0, -1), (0, -2), (1, -1)]);
    assert_eq!(p.absolute_cells(), vec![(4, 4), (4, 3), (4, 2), (5, 3)]);
}

#[test]
fn four_turns_restore_cells() {
    let mut g = GameEngine::new(2);
    g.piece.y = 8;
    let before = sorted(g.piece.absolute_cells());
    let mut seen = Vec::new();
    for _ in 0..4 {
        g.apply_intent(Intent::RotateCw, 0);
        seen.push(g.piece.rotation);
    }
    assert_eq!(seen, vec![1, 2, 3, 0]);
    assert_eq!(sorted(g.piece.absolute_cells()), before);
    assert_eq!(g.piece.x, 5);
}

#[test]
fn spawn_position() {
    let p = Piece::spawn(3);
    assert_eq!(p, Piece { x: 5, y: 0, shape_index: 3, rotation: 0 });
}

#[test]
fn random_pieces_cover_catalog() {
    let mut seen = [false; SHAPE_COUNT];
    for _ in 0..500 {
        let p = Piece::new();
        assert!(p.shape_index < SHAPE_COUNT);
        assert_eq!((p.x, p.y, p.rotation), (5, 0, 0));
        seen[p.shape_index] = true;
    }
    assert!(seen.iter().filter(|s| **s).count() > 1);
}

#[test]
fn collision_walls_floor_and_cells() {
    let mut b = Board::new();
    let o = |x: i8, y: i8| Piece { x, y, shape_index: 0, rotation: 0 };
    assert!(!o(0, 0).check_collision(&b));
    assert!(o(-1, 0).check_collision(&b));
    assert!(o(9, 0).check_collision(&b));
    assert!(!o(8, 18).check_collision(&b));
    assert!(o(8, 19).check_collision(&b));
    // cells above the grid never meet grid contents
    assert!(!o(3, -5).check_collision(&b));
    b.cells[1][4] = 3;
    assert!(o(4, 0).check_collision(&b));
    assert!(o(3, 1).check_collision(&b));
    assert!(!o(5, 0).check_collision(&b));
    assert!(!o(4, -2).check_collision(&b));
    assert!(!o(4, -1).check_collision(&b));
    assert!(o(3, 0).check_collision(&b));
}

#[test]
fn moves_stop_at_walls() {
    let mut g = GameEngine::new(0);
    for _ in 0..10 {
        g.apply_intent(Intent::MoveLeft, 0);
    }
    assert_eq!(g.piece.x, 0);
    for _ in 0..10 {
        g.apply_intent(Intent::MoveRight, 0);
    }
    assert_eq!(g.piece.x, 8);
}

#[test]
fn rotation_kicks_off_the_wall() {
    // Turning the vertical I at column 8 lays it across columns 8..11; the
    // first offset that fits is -2.
    let mut g = GameEngine::new(1);
    g.piece.x = 8;
    g.piece.y = 5;
    g.apply_intent(Intent::RotateCw, 0);
    assert_eq!((g.piece.x, g.piece.rotation), (6, 1));
    g.apply_intent(Intent::RotateCw, 0);
    assert_eq!((g.piece.x, g.piece.rotation), (6, 2));
    // Rotation 3 lays it leftwards from column 1; +2 is the first fit.
    g.piece.x = 1;
    g.apply_intent(Intent::RotateCw, 0);
    assert_eq!((g.piece.x, g.piece.rotation), (3, 3));
    assert_eq!(sorted(g.piece.absolute_cells()), vec![(0, 5), (1, 5), (2, 5), (3, 5)]);
}

#[test]
fn rotation_without_room_is_dropped() {
    let mut g = GameEngine::new(1);
    g.piece.y = 10;
    // wall off everything around the vertical I at column 5
    for y in 0..BOARD_HEIGHT {
        for x in 0..BOARD_WIDTH {
            if x != 5 {
                g.board.cells[y][x] = 4;
            }
        }
    }
    let before = g;
    g.apply_intent(Intent::RotateCw, 0);
    assert_eq!(g, before);
}

#[test]
fn rotation_first_kick_in_order() {
    // T at rotation 0 turning to 1 gives offsets (0,0),(0,-1),(0,-2),(1,-1).
    let mut g = GameEngine::new(2);
    g.piece.x = 4;
    g.piece.y = 10;
    g.board.cells[8][4] = 1; // blocks the unkicked turn at x = 4
    g.apply_intent(Intent::RotateCw, 0);
    // +1 puts (6,9): free, so +1 wins over -1
    assert_eq!((g.piece.x, g.piece.rotation), (5, 1));
}

#[test]
fn clear_lines_without_full_rows_is_identity() {
    let mut b = Board::new();
    b.cells[19][0] = 1;
    b.cells[10][9] = 7;
    let before = b;
    assert_eq!(b.clear_lines(), 0);
    assert_eq!(b, before);
}

#[test]
fn clear_lines_two_rows_shift_down() {
    let mut b = Board::new();
    b.cells[19] = [1; BOARD_WIDTH];
    b.cells[17] = [2; BOARD_WIDTH];
    b.cells[18][3] = 5;
    b.cells[16][0] = 6;
    b.cells[0][9] = 7;
    assert_eq!(b.clear_lines(), 2);
    let mut expect = Board::new();
    expect.cells[19][3] = 5;
    expect.cells[18][0] = 6;
    expect.cells[2][9] = 7;
    assert_eq!(b, expect);
    assert!(!b.is_row_full(19));
}

#[test]
fn clear_lines_adjacent_full_rows() {
    let mut b = Board::new();
    for y in 16..20 {
        b.cells[y] = [3; BOARD_WIDTH];
    }
    b.cells[15][1] = 2;
    assert_eq!(b.clear_lines(), 4);
    let mut expect = Board::new();
    expect.cells[19][1] = 2;
    assert_eq!(b, expect);
}

#[test]
fn clear_lines_twice_changes_nothing_more() {
    let mut b = Board::new();
    b.cells[19] = [1; BOARD_WIDTH];
    b.cells[18][2] = 3;
    b.cells[12] = [2; BOARD_WIDTH];
    assert_eq!(b.clear_lines(), 2);
    let once = b;
    assert_eq!(b.clear_lines(), 0);
    assert_eq!(b, once);
    assert_eq!(b.get(2, 19), 3);
}

#[test]
fn clear_lines_top_row_full() {
    let mut b = Board::new();
    b.cells[0] = [1; BOARD_WIDTH];
    b.cells[5][5] = 2;
    assert_eq!(b.clear_lines(), 1);
    let mut expect = Board::new();
    expect.cells[5][5] = 2;
    assert_eq!(b, expect);
}

#[test]
fn o_piece_locks_on_floor_without_score() {
    let mut g = GameEngine::new(0);
    let r = tick_until_lock(&mut g, 3);
    assert_eq!(r, GravityResult::Locked(0));
    let mut row = [0u8; BOARD_WIDTH];
    row[5] = 1;
    row[6] = 1;
    assert_eq!(g.board.cells[19], row);
    assert_eq!(g.board.cells[18], row);
    for y in 0..18 {
        assert_eq!(g.board.cells[y], [0; BOARD_WIDTH]);
    }
    assert_eq!(g.score, 0);
    assert_eq!(g.state, GameState::Playing);
    assert_eq!(g.piece, Piece::spawn(3));
}

#[test]
fn vertical_i_fills_gap_and_scores_ten() {
    let mut g = GameEngine::new(1);
    g.board.cells[19] = [4; BOARD_WIDTH];
    g.board.cells[19][5] = 0;
    g.board.cells[18][0] = 3;
    g.apply_intent(Intent::HardDrop, 0);
    assert_eq!((g.piece.x, g.piece.y), (5, 16));
    let r = g.tick(501, 0);
    assert_eq!(r, Some(GravityResult::Locked(1)));
    assert_eq!(g.score, 10);
    let mut row19 = [0u8; BOARD_WIDTH];
    row19[0] = 3;
    row19[5] = 2;
    let mut col = [0u8; BOARD_WIDTH];
    col[5] = 2;
    assert_eq!(g.board.cells[19], row19);
    assert_eq!(g.board.cells[18], col);
    assert_eq!(g.board.cells[17], col);
    assert_eq!(g.board.cells[16], [0; BOARD_WIDTH]);
}

#[test]
fn spawn_on_locked_cells_ends_game() {
    let mut g = GameEngine::new(0);
    // a column under the spawn point, no row full
    for y in 2..BOARD_HEIGHT {
        g.board.cells[y][5] = 2;
    }
    let r = g.tick(501, 0);
    assert_eq!(r, Some(GravityResult::Locked(0)));
    assert_eq!(g.state, GameState::GameOver);
    let after_lock = g.board;
    assert_eq!(after_lock.cells[0][5], 1);
    assert_eq!(after_lock.cells[1][6], 1);
    // nothing moves or changes once the game is over
    assert_eq!(g.tick(10_000, 0), None);
    g.apply_intent(Intent::HardDrop, 0);
    g.apply_intent(Intent::MoveLeft, 0);
    assert_eq!(g.board, after_lock);
    assert_eq!(g.snapshot().ghost_cells, None);
}

#[test]
fn lock_above_top_ends_game_without_writing() {
    let mut g = GameEngine::new(1);
    g.piece.rotation = 2; // cells at y, y-1, y-2, y-3
    g.piece.y = 1;
    for y in 2..BOARD_HEIGHT {
        g.board.cells[y][5] = 2;
    }
    let before = g.board;
    let r = g.gravity_step(0);
    assert_eq!(r, GravityResult::ToppedOut);
    assert_eq!(g.state, GameState::GameOver);
    assert_eq!(g.board, before);
}

#[test]
fn hard_drop_rests_and_resets_timer() {
    let mut g = GameEngine::new(2);
    g.board.cells[12][6] = 1;
    g.tick(300, 0);
    assert_eq!(g.elapsed_ms, 300);
    g.apply_intent(Intent::HardDrop, 0);
    assert_eq!(g.elapsed_ms, 0);
    // T cells (0,0),(1,0),(2,0),(1,1): column 6 is blocked at row 12
    assert_eq!((g.piece.x, g.piece.y), (5, 10));
    let mut below = g.piece;
    below.y += 1;
    assert!(below.check_collision(&g.board));
    // the next short tick does not move it again
    assert_eq!(g.tick(100, 0), None);
    assert_eq!(g.piece.y, 10);
}

#[test]
fn ghost_matches_hard_drop() {
    let mut g = GameEngine::new(6);
    g.board.cells[15][5] = 1;
    let snap = g.snapshot();
    let q = drop_position(&g.piece, &g.board);
    assert_eq!(snap.ghost_cells, Some(q.absolute_cells()));
    assert_eq!(snap.piece_cells, g.piece.absolute_cells());
    g.apply_intent(Intent::HardDrop, 0);
    assert_eq!(g.piece, q);
    assert_eq!(snap.shape_index, 6);
    assert_eq!(snap.state, GameState::Playing);
}

#[test]
fn gravity_timing_normal_and_soft() {
    let mut g = GameEngine::new(0);
    assert_eq!(g.tick(500, 0), None);
    assert_eq!(g.piece.y, 0);
    assert_eq!(g.tick(1, 0), Some(GravityResult::Fell));
    assert_eq!((g.piece.y, g.elapsed_ms), (1, 0));
    g.apply_intent(Intent::SoftDrop(true), 0);
    assert_eq!(g.tick(100, 0), None);
    assert_eq!(g.tick(1, 0), Some(GravityResult::Fell));
    assert_eq!(g.piece.y, 2);
    g.apply_intent(Intent::SoftDrop(false), 0);
    assert_eq!(g.tick(200, 0), None);
    assert_eq!(g.tick(u64::MAX, 0), Some(GravityResult::Fell));
}

#[test]
fn pause_resume_and_restart() {
    let mut g = GameEngine::new(0);
    g.score = 40;
    g.board.cells[19][0] = 1;
    g.apply_intent(Intent::Resume, 0);
    assert_eq!(g.state, GameState::Playing);
    g.apply_intent(Intent::Restart, 0);
    assert_eq!(g.score, 40);
    g.apply_intent(Intent::Pause, 0);
    assert_eq!(g.state, GameState::Paused);
    let paused = g;
    assert_eq!(g.tick(10_000, 0), None);
    g.apply_intent(Intent::MoveLeft, 0);
    g.apply_intent(Intent::HardDrop, 0);
    assert_eq!(g, paused);
    g.apply_intent(Intent::Resume, 0);
    assert_eq!(g.state, GameState::Playing);
    g.apply_intent(Intent::Pause, 0);
    g.apply_intent(Intent::Restart, 4);
    assert_eq!(g, GameEngine::new(4));
    assert_eq!(g.score, 0);
}

#[test]
fn restart_after_game_over() {
    let mut g = GameEngine::new(0);
    g.state = GameState::GameOver;
    g.apply_intent(Intent::Resume, 0);
    assert_eq!(g.state, GameState::GameOver);
    g.apply_intent(Intent::Restart, 5);
    assert_eq!(g, GameEngine::new(5));
}

#[test]
fn score_grows_by_ten_per_line() {
    let mut g = GameEngine::new(0);
    for y in 18..20 {
        g.board.cells[y] = [6; BOARD_WIDTH];
        g.board.cells[y][5] = 0;
        g.board.cells[y][6] = 0;
    }
    g.score = 30;
    g.apply_intent(Intent::HardDrop, 0);
    let before = g.score;
    assert_eq!(before, 30);
    assert_eq!(g.tick(600, 1), Some(GravityResult::Locked(2)));
    assert_eq!(g.score, 50);
    assert_eq!(g.board, Board::new());
}

#[test]
fn board_accessors() {
    let mut b = Board::new();
    b.cells[3][7] = 5;
    assert_eq!(b.get(7, 3), 5);
    assert_eq!(b.get(0, 0), 0);
    b.cells[4] = [1; BOARD_WIDTH];
    assert!(b.is_row_full(4));
    assert!(!b.is_row_full(3));
}

#[test]
fn place_writes_one_based_id() {
    let mut b = Board::new();
    let p = Piece { x: 2, y: 3, shape_index: 4, rotation: 0 };
    b.place(&p);
    for &(x, y) in &[(3, 3), (4, 3), (2, 4), (3, 4)] {
        assert_eq!(b.get(x, y), 5);
    }
    assert_eq!(b.get(2, 3), 0);
    assert_eq!(p.shape(), [(1, 0), (2, 0), (0, 1), (1, 1)]);
}

use tron_bot::board::{Board, Cell, ParseError};
use tron_bot::board_distance::BoardDistance;
use tron_bot::types::Move;

/// Builds the comma-separated snapshot text from 16 rows of 16 symbols.
fn text_from_rows(rows: [&str; 16]) -> Vec<u8> {
    let mut cells: Vec<u8> = Vec::new();
    for row in rows.iter() {
        assert_eq!(row.len(), 16);
        for b in row.bytes() {
            cells.push(b);
        }
    }
    let mut out: Vec<u8> = Vec::new();
    for (i, b) in cells.iter().enumerate() {
        if i > 0 {
            out.push(b',' as u8);
        }
        out.push(*b);
    }
    out
}

fn empty_rows() -> [&'static str; 16] {
    [
        "0...............",
        "................",
        "................",
        "................",
        "................",
        "................",
        "................",
        "................",
        "................",
        "................",
        "................",
        "................",
        "................",
        "................",
        "................",
        "...............1",
    ]
}

/// A fully walled board with a short open corridor on the top row:
/// `0 . . 1` at columns 0..=3 and one more empty cell below the corner.
fn corridor_rows() -> [&'static str; 16] {
    [
        "0..1xxxxxxxxxxxx",
        ".xxxxxxxxxxxxxxx",
        "xxxxxxxxxxxxxxxx",
        "xxxxxxxxxxxxxxxx",
        "xxxxxxxxxxxxxxxx",
        "xxxxxxxxxxxxxxxx",
        "xxxxxxxxxxxxxxxx",
        "xxxxxxxxxxxxxxxx",
        "xxxxxxxxxxxxxxxx",
        "xxxxxxxxxxxxxxxx",
        "xxxxxxxxxxxxxxxx",
        "xxxxxxxxxxxxxxxx",
        "xxxxxxxxxxxxxxxx",
        "xxxxxxxxxxxxxxxx",
        "xxxxxxxxxxxxxxxx",
        "xxxxxxxxxxxxxxxx",
    ]
}

#[test]
fn rebuild_accepts_a_valid_snapshot() {
    let text = text_from_rows(empty_rows());
    let board = Board::rebuild(&text).unwrap();
    assert_eq!(board.get_player_position(0), (0, 0));
    assert_eq!(board.get_player_position(1), (15, 15));
    assert_eq!(board.cell_at(0, 0), Cell::Player0);
    assert_eq!(board.cell_at(15, 15), Cell::Player1);
    assert_eq!(board.cell_at(7, 7), Cell::Empty);
}

#[test]
fn rebuild_rejects_wrong_length() {
    assert!(matches!(Board::rebuild(b".,."), Err(ParseError::WrongLength)));
    assert!(matches!(Board::rebuild(b""), Err(ParseError::WrongLength)));
}

#[test]
fn rebuild_rejects_bad_token() {
    let mut text = text_from_rows(empty_rows());
    text[4] = b'q';
    assert!(matches!(Board::rebuild(&text), Err(ParseError::BadToken)));
    let mut text2 = text_from_rows(empty_rows());
    text2[1] = b';';
    assert!(matches!(Board::rebuild(&text2), Err(ParseError::BadToken)));
}

#[test]
fn rebuild_rejects_bad_player_count() {
    let mut rows = empty_rows();
    rows[3] = "....0...........";
    let text = text_from_rows(rows);
    assert!(matches!(Board::rebuild(&text), Err(ParseError::BadPlayerCount)));

    let mut rows2 = empty_rows();
    rows2[15] = "................";
    let text2 = text_from_rows(rows2);
    assert!(matches!(Board::rebuild(&text2), Err(ParseError::BadPlayerCount)));
}

#[test]
fn legal_moves_are_the_empty_in_bounds_neighbors() {
    let text = text_from_rows(empty_rows());
    let board = Board::rebuild(&text).unwrap();
    // corner player 0: only Right and Down, in enumeration order
    assert_eq!(board.legal_moves(0), vec![Move::Right, Move::Down]);
    // corner player 1: only Left and Up
    assert_eq!(board.legal_moves(1), vec![Move::Left, Move::Up]);
    // an interior empty point has all four, in order Left, Right, Up, Down
    assert_eq!(
        board.legal_moves_point(7, 7),
        vec![Move::Left, Move::Right, Move::Up, Move::Down]
    );
    // off the grid: no moves
    assert_eq!(board.legal_moves_point(16, 0), Vec::<Move>::new());
}

#[test]
fn legal_moves_skip_occupied_cells() {
    let board = Board::rebuild(&text_from_rows(corridor_rows())).unwrap();
    // player 0 at (0,0): right is empty, below is empty; (0,1) empty, (1,0) empty
    assert_eq!(board.legal_moves(0), vec![Move::Right, Move::Down]);
    // player 1 at (0,3): left is empty, all else walls
    assert_eq!(board.legal_moves(1), vec![Move::Left]);
}

#[test]
fn apply_then_reverse_restores_the_board() {
    let text = text_from_rows(empty_rows());
    let mut board = Board::rebuild(&text).unwrap();
    let before: Vec<Cell> = (0..256u32)
        .map(|i| board.cell_at((i / 16) as u8, (i % 16) as u8))
        .collect();
    let pos_before = board.get_player_position(0);
    let adjacent_before = board.get_adjacent((0, 1));

    board.execute_move(Move::Right, 0, false);
    assert_eq!(board.get_player_position(0), (0, 1));
    assert_eq!(board.cell_at(0, 0), Cell::Wall);
    assert_eq!(board.cell_at(0, 1), Cell::Player0);

    board.execute_move(Move::Right, 0, true);
    let after: Vec<Cell> = (0..256u32)
        .map(|i| board.cell_at((i / 16) as u8, (i % 16) as u8))
        .collect();
    assert_eq!(before, after);
    assert_eq!(board.get_player_position(0), pos_before);
    assert_eq!(board.get_adjacent((0, 1)), adjacent_before);
}

#[test]
fn forward_apply_lays_a_permanent_wall() {
    let text = text_from_rows(empty_rows());
    let mut board = Board::rebuild(&text).unwrap();
    board.execute_move(Move::Down, 0, false);
    board.execute_move(Move::Right, 0, false);
    assert_eq!(board.cell_at(0, 0), Cell::Wall);
    assert_eq!(board.cell_at(1, 0), Cell::Wall);
    assert_eq!(board.cell_at(1, 1), Cell::Player0);
}

#[test]
fn get_adjacent_lists_empty_neighbors() {
    let board = Board::rebuild(&text_from_rows(corridor_rows())).unwrap();
    // (0,1) has empty left-of-it? (0,0) is player 0, (0,2) empty, (1,1) wall
    assert_eq!(board.get_adjacent((0, 1)), vec![(0, 2)]);
    // (1,0): (0,0) is a player cell, others walls
    assert_eq!(board.get_adjacent((1, 0)), Vec::<(u8, u8)>::new());
    // off the grid
    assert_eq!(board.get_adjacent((16, 3)), Vec::<(u8, u8)>::new());
}

#[test]
fn territory_scores_the_corridor_exactly() {
    let board = Board::rebuild(&text_from_rows(corridor_rows())).unwrap();
    // hand computation in tenths: +11 for player 0's own cell, +10 for
    // the first corridor cell, +11 for the cell below the corner (which
    // player 1 never reaches), -10 for the second corridor cell, -11 for
    // player 1's cell
    let (score0, can_meet0) = board.get_territory(0);
    assert_eq!(score0, 11);
    assert!(can_meet0);
    let (score1, can_meet1) = board.get_territory(1);
    assert_eq!(score1, -11);
    assert!(can_meet1);
}

#[test]
fn territory_is_antisymmetric_on_an_open_board() {
    let mut rows = empty_rows();
    rows[4] = "..xxxx..........";
    rows[9] = ".......xxx......";
    let board = Board::rebuild(&text_from_rows(rows)).unwrap();
    let (score0, meet0) = board.get_territory(0);
    let (score1, meet1) = board.get_territory(1);
    assert!(meet0 && meet1);
    assert_eq!(score0, -score1);
}

#[test]
fn point_symmetric_board_scores_sum_to_zero() {
    // point-symmetric under 180-degree rotation with player roles swapped
    let mut rows = empty_rows();
    rows[2] = "..xx............";
    rows[13] = "............xx..";
    let board = Board::rebuild(&text_from_rows(rows)).unwrap();
    let (score0, _) = board.get_territory(0);
    let (score1, _) = board.get_territory(1);
    assert_eq!(score0 + score1, 0);
    assert_eq!(score0, 0);
}

fn split_rows() -> [&'static str; 16] {
    // a continuous wall column splits the board, one player per half
    let mut rows = empty_rows();
    rows[0] = "0......x........";
    for i in 1..15 {
        rows[i] = ".......x........";
    }
    rows[15] = ".......x.......1";
    rows
}

#[test]
fn split_board_cannot_meet_and_scores_single_agent() {
    let board = Board::rebuild(&text_from_rows(split_rows())).unwrap();
    let (_, can_meet) = board.get_territory(0);
    assert!(!can_meet);
    // endgame evaluation is the single-agent area count of each player alone
    assert_eq!(board.get_score(0, true), board.area_score(0));
    assert_eq!(board.get_score(1, true), board.area_score(1));
    assert!(board.area_score(0) > 0);
    assert!(board.area_score(1) > 0);
}

#[test]
fn split_halves_are_scored_independently() {
    let board = Board::rebuild(&text_from_rows(split_rows())).unwrap();
    // changing the far half must not change the near player's area score
    let mut changed = split_rows();
    changed[8] = ".......x..xxxx..";
    let board2 = Board::rebuild(&text_from_rows(changed)).unwrap();
    assert_eq!(board.get_score(0, true), board2.get_score(0, true));
    assert_ne!(board.get_score(1, true), board2.get_score(1, true));
}

#[test]
fn sealed_pocket_area_score_is_exact() {
    // player 0 sealed with a single empty cell beside it
    let mut rows = corridor_rows();
    rows[0] = "0.x1xxxxxxxxxxxx";
    rows[1] = "xxxxxxxxxxxxxxxx";
    let board = Board::rebuild(&text_from_rows(rows)).unwrap();
    // reachable: the seed (one empty neighbor, weight 10) and (0,1)
    // (no empty neighbor, weight 10)
    assert_eq!(board.area_score(0), 20);
}

#[test]
fn board_distance_counts_controlled_cells() {
    let board = Board::rebuild(&text_from_rows(corridor_rows())).unwrap();
    let dist = BoardDistance::from_board(&board);
    // player 0 reaches (0,0), (0,1), (1,0) sooner; player 1 its own cell
    // and (0,2)
    assert_eq!(dist.controlled_area(), (3, 2));
}

#[test]
fn update_replaces_the_grid_and_keeps_the_session() {
    let mut board = Board::rebuild(&text_from_rows(empty_rows())).unwrap();
    board.set_desired_depth(11);
    assert!(board.update(&text_from_rows(corridor_rows())));
    assert_eq!(board.get_player_position(1), (0, 3));
    assert!(!board.update(b"nonsense"));
    assert_eq!(board.get_player_position(1), (0, 3));
}

#[test]
fn move_names_follow_the_protocol() {
    assert_eq!(Move::Up.name(), "up");
    assert_eq!(Move::Down.name(), "down");
    assert_eq!(Move::Left.name(), "left");
    assert_eq!(Move::Right.name(), "right");
    assert_eq!(Move::Pass.name(), "pass");
}

#[test]
fn in_bounds_matches_the_grid() {
    assert!(Board::in_bounds(0, 0));
    assert!(Board::in_bounds(15, 15));
    assert!(!Board::in_bounds(16, 0));
    assert!(!Board::in_bounds(0, 16));
}

#[test]
fn move_to_position_steps_and_reverses() {
    let board = Board::rebuild(&text_from_rows(empty_rows())).unwrap();
    assert_eq!(board.move_to_position(Move::Right, 0, false), (0, 1));
    assert_eq!(board.move_to_position(Move::Down, 0, false), (1, 0));
    assert_eq!(board.move_to_position(Move::Up, 1, false), (14, 15));
    assert_eq!(board.move_to_position(Move::Left, 1, false), (15, 14));
    // the reverse direction steps the other way
    assert_eq!(board.move_to_position(Move::Up, 0, true), (1, 0));
    assert_eq!(board.move_to_position(Move::Pass, 0, false), (0, 0));
}

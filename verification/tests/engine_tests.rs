use tron_bot::board::{Board, Cell};
use tron_bot::bot::Bot;
use tron_bot::richard_bot::RichardBot;
use tron_bot::starter_bot::StarterBot;
use tron_bot::transposition::TranspositionTable;
use tron_bot::types::{CacheKeying, Move};

/// Builds the comma-separated snapshot text from 16 rows of 16 symbols.
fn rows_text(rows: [&str; 16]) -> Vec<u8> {
    let mut cells: Vec<u8> = Vec::new();
    for row in rows.iter() {
        assert_eq!(row.len(), 16);
        for b in row.bytes() {
            cells.push(b);
        }
    }
    let mut out: Vec<u8> = Vec::new();
    for (i, b) in cells.iter().enumerate() {
        if i > 0 {
            out.push(b',' as u8);
        }
        out.push(*b);
    }
    out
}

fn open_rows() -> [&'static str; 16] {
    [
        "0...............",
        "................",
        "................",
        "................",
        "................",
        "................",
        "................",
        "................",
        "................",
        "................",
        "................",
        "................",
        "................",
        "................",
        "................",
        "...............1",
    ]
}

/// A 4x4 open pocket in the top-left corner, both players inside, the
/// rest of the board walled.
fn pocket_rows() -> [&'static str; 16] {
    [
        "0...xxxxxxxxxxxx",
        "....xxxxxxxxxxxx",
        "....xxxxxxxxxxxx",
        "...1xxxxxxxxxxxx",
        "xxxxxxxxxxxxxxxx",
        "xxxxxxxxxxxxxxxx",
        "xxxxxxxxxxxxxxxx",
        "xxxxxxxxxxxxxxxx",
        "xxxxxxxxxxxxxxxx",
        "xxxxxxxxxxxxxxxx",
        "xxxxxxxxxxxxxxxx",
        "xxxxxxxxxxxxxxxx",
        "xxxxxxxxxxxxxxxx",
        "xxxxxxxxxxxxxxxx",
        "xxxxxxxxxxxxxxxx",
        "xxxxxxxxxxxxxxxx",
    ]
}

/// Player 0 walled in completely; player 1 has room.
fn sealed_rows() -> [&'static str; 16] {
    [
        "0x..............",
        "xx..............",
        "................",
        "................",
        "................",
        "................",
        "................",
        "................",
        "................",
        "................",
        "................",
        "................",
        "................",
        "................",
        "................",
        "...............1",
    ]
}

#[test]
fn alpha_beta_equals_plain_minimax_on_the_pocket() {
    let mut board = Board::rebuild(&rows_text(pocket_rows())).unwrap();
    board.set_desired_depth(4);
    for player in 0..2u8 {
        for depth in 1..4u8 {
            let plain = board.mini_max(player, depth, false);
            let pruned = board.search_value(player, depth, false);
            assert_eq!(plain, pruned);
        }
    }
    let plain = board.mini_max(0, 4, false);
    let pruned = board.search_value(0, 4, false);
    assert_eq!(plain, pruned);
}

#[test]
fn alpha_beta_equals_plain_minimax_in_endgame_mode() {
    let mut board = Board::rebuild(&rows_text(pocket_rows())).unwrap();
    board.set_desired_depth(3);
    let plain = board.mini_max(0, 3, true);
    let pruned = board.search_value(0, 3, true);
    assert_eq!(plain, pruned);
}

#[test]
fn search_value_includes_the_depth_term() {
    // a walled corridor `0 . . 1` with one extra cell below the corner:
    // player 1's only move leads to a position worth 11 tenths for
    // player 0, and the depth-normalization term adds 10 tenths at the
    // leaf, so player 1's one-ply value is -21
    let rows = [
        "0..1xxxxxxxxxxxx",
        ".xxxxxxxxxxxxxxx",
        "xxxxxxxxxxxxxxxx",
        "xxxxxxxxxxxxxxxx",
        "xxxxxxxxxxxxxxxx",
        "xxxxxxxxxxxxxxxx",
        "xxxxxxxxxxxxxxxx",
        "xxxxxxxxxxxxxxxx",
        "xxxxxxxxxxxxxxxx",
        "xxxxxxxxxxxxxxxx",
        "xxxxxxxxxxxxxxxx",
        "xxxxxxxxxxxxxxxx",
        "xxxxxxxxxxxxxxxx",
        "xxxxxxxxxxxxxxxx",
        "xxxxxxxxxxxxxxxx",
        "xxxxxxxxxxxxxxxx",
    ];
    let mut board = Board::rebuild(&rows_text(rows)).unwrap();
    board.set_desired_depth(1);
    assert_eq!(board.mini_max(1, 1, false), -21);
    assert_eq!(board.search_value(1, 1, false), -21);
}

#[test]
fn mini_max_records_best_turn_and_score_options() {
    let mut board = Board::rebuild(&rows_text(pocket_rows())).unwrap();
    board.set_desired_depth(3);
    board.set_best_turn(Move::Pass);
    board.reset_score_options();
    let value = board.mini_max(0, 3, false);
    let options = board.get_score_options();
    assert_eq!(options.len(), board.legal_moves(0).len());
    let max = options.iter().map(|(_, v)| *v).max().unwrap();
    assert_eq!(value, max);
    let best = board.get_best_turn();
    // the recorded best turn is the first move attaining the maximum
    let first_max = options.iter().find(|(_, v)| *v == max).unwrap().0;
    assert_eq!(best, first_max);
}

#[test]
fn search_leaves_the_board_unchanged() {
    let mut board = Board::rebuild(&rows_text(pocket_rows())).unwrap();
    board.set_desired_depth(3);
    let before: Vec<Cell> = (0..256u32)
        .map(|i| board.cell_at((i / 16) as u8, (i % 16) as u8))
        .collect();
    board.mini_max(0, 3, false);
    board.search_value(1, 3, false);
    let after: Vec<Cell> = (0..256u32)
        .map(|i| board.cell_at((i / 16) as u8, (i % 16) as u8))
        .collect();
    assert_eq!(before, after);
    assert_eq!(board.get_player_position(0), (0, 0));
    assert_eq!(board.get_player_position(1), (3, 3));
}

#[test]
fn walled_in_player_evaluates_with_the_terminal_penalty() {
    let mut board = Board::rebuild(&rows_text(sealed_rows())).unwrap();
    assert_eq!(board.legal_moves(0).len(), 0);
    let (_, can_meet) = board.get_territory(0);
    assert!(!can_meet);
    board.set_desired_depth(5);
    let value = board.mini_max(0, 5, true);
    // terminal at the root: static evaluation less the loss penalty
    assert_eq!(value, board.get_score(0, true) - 10000);
}

#[test]
fn walled_in_player_passes() {
    let mut bot = RichardBot::new();
    assert!(bot.update_board(&rows_text(sealed_rows())));
    bot.update_round(7);
    let m = bot.get_move(10000);
    assert_eq!(m, Move::Pass);
}

#[test]
fn opening_move_approaches_the_center() {
    let mut bot = RichardBot::new();
    assert!(bot.update_board(&rows_text(open_rows())));
    // round 1: greedy centering, no search
    let m = bot.get_move(10000);
    assert_eq!(m, Move::Right);
    // the move strictly decreases the Manhattan distance to the center
    let from_dist = (8i32 - 0).abs() + (8i32 - 0).abs();
    let target = bot.board.move_to_position(m, 0, false);
    // the bot has not executed the move, so measure from the target
    let to_dist = (8i32 - target.0 as i32).abs() + (8i32 - target.1 as i32).abs();
    assert!(to_dist < from_dist);
}

#[test]
fn opening_move_centers_for_player_one_as_well() {
    let mut bot = RichardBot::new();
    bot.set_setting(tron_bot::types::Setting::BotId(1));
    assert!(bot.update_board(&rows_text(open_rows())));
    let m = bot.get_move(10000);
    assert_eq!(m, Move::Left);
}

#[test]
fn searched_move_is_played_after_the_opening() {
    let mut bot = RichardBot::new();
    assert!(bot.update_board(&rows_text(pocket_rows())));
    bot.update_round(6);
    bot.current_depth = 3;
    let m = bot.get_move(10000);
    // the move the search recorded is the move returned
    assert_eq!(m, bot.board.get_best_turn());
    assert_ne!(m, Move::Pass);
    let legal = bot.board.legal_moves(0);
    assert!(legal.contains(&m));
}

#[test]
fn depth_controller_follows_the_budget() {
    let mut bot = RichardBot::new();
    assert_eq!(bot.current_depth, 8);
    // fast search, comfortable bank: one deeper
    bot.timebank_ms = 10000;
    bot.record_search_time(100);
    assert_eq!(bot.current_depth, 9);
    // mild overrun: one shallower
    bot.record_search_time(500);
    assert_eq!(bot.current_depth, 8);
    // severe overrun: four shallower
    bot.record_search_time(2000);
    assert_eq!(bot.current_depth, 4);
    // at or below the minimum: unchanged
    bot.record_search_time(2000);
    assert_eq!(bot.current_depth, 4);
    // capped at the maximum
    bot.current_depth = 20;
    bot.record_search_time(100);
    assert_eq!(bot.current_depth, 20);
    // fast search with a thin bank does not deepen
    bot.timebank_ms = 1000;
    bot.current_depth = 8;
    bot.record_search_time(100);
    assert_eq!(bot.current_depth, 7);
}

#[test]
fn transposition_table_hits_only_bit_identical_grids() {
    let mut table = TranspositionTable::new();
    let g: Vec<Cell> = vec![Cell::Empty; 256];
    let mut g2 = g.clone();
    g2[17] = Cell::Wall;
    table.insert(g.clone(), 42);
    assert_eq!(table.lookup(&g), Some(42));
    assert_eq!(table.lookup(&g2), None);
    table.insert(g2.clone(), 7);
    assert_eq!(table.lookup(&g), Some(42));
    assert_eq!(table.lookup(&g2), Some(7));
    // replacing a stored key overwrites its score and nothing else
    table.insert(g.clone(), 1);
    assert_eq!(table.lookup(&g), Some(1));
    assert_eq!(table.lookup(&g2), Some(7));
    assert_eq!(table.len(), 2);
}

#[test]
fn every_searched_node_is_cached() {
    let mut board = Board::rebuild(&rows_text(pocket_rows())).unwrap();
    board.set_desired_depth(2);
    assert_eq!(board.probe_position(0), None);
    let value = board.mini_max(0, 2, false);
    assert_eq!(board.probe_position(0), Some(value));
    // the child position reached by the first root move was cached too
    board.execute_move(Move::Right, 0, false);
    assert!(board.probe_position(0).is_some());
    // grid-only keying does not separate sides: both players probe the
    // same entry, the documented collision risk of that keying
    assert_eq!(board.probe_position(0), board.probe_position(1));
}

#[test]
fn grid_and_player_keying_separates_sides() {
    let mut board = Board::rebuild(&rows_text(pocket_rows())).unwrap();
    board.keying = CacheKeying::GridAndPlayer;
    board.set_desired_depth(2);
    let value = board.mini_max(0, 2, false);
    assert_eq!(board.probe_position(0), Some(value));
    // the same grid with the other side to move misses
    assert_eq!(board.probe_position(1), None);
    // the child position was cached with player 1 to move
    board.execute_move(Move::Right, 0, false);
    assert_eq!(board.probe_position(0), None);
    assert!(board.probe_position(1).is_some());
}

#[test]
fn starter_bot_plays_a_legal_move_from_its_generator() {
    let mut bot = StarterBot::new(0);
    // without a board the fallback move is Up
    assert_eq!(bot.get_move(500), Move::Up);
    assert_eq!(bot.rng_state, 1013904223);
    assert!(bot.update_board(&rows_text(open_rows())));
    let m = bot.get_move(500);
    // state advances by the generator; the move indexes the legal list
    assert_eq!(bot.rng_state, (1664525u64 * 1013904223 + 1013904223) % 4294967296);
    let legal = match &bot.board {
        Some(b) => b.legal_moves(0),
        None => Vec::new(),
    };
    let expected = legal[(bot.rng_state % legal.len() as u64) as usize];
    assert_eq!(m, expected);
}

#[test]
fn starter_bot_rejects_bad_snapshots() {
    let mut bot = StarterBot::new(1);
    assert!(!bot.update_board(b"?,?"));
    assert_eq!(bot.get_move(500), Move::Up);
}

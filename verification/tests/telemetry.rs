use move_telemetry::player_data::{PlayerDataRecorder, Direction, board_to_string, move_to_string};
use move_telemetry::analysis::{analyze_player_data, analyze_sessions};
use move_telemetry::codec::{encode_moves_csv, parse_moves_csv, encode_session_rows, parse_session_rows, ledger_header_to_bytes};

fn record(rec: &mut PlayerDataRecorder, scores: [i64; 4], dir: Direction, n: u32, bad_time: u64) {
    let board: Vec<u64> = vec![2, 0, 0, 0, 0, 2, 0, 0, 0, 0, 4, 0, 0, 0, 0, 8];
    rec.record_move(board, dir, bad_time, scores, 100, n);
}

#[test]
fn best_and_chosen_derivation() {
    let mut rec = PlayerDataRecorder::new();
    record(&mut rec, [10, 20, 5, -1], Direction::Left, 1, 500);
    let m = &rec.moves()[0];
    assert_eq!(m.best_score, 20);
    assert_eq!(m.chosen_score, 5);
    assert!(m.is_bad_move); // (20 - 5) / 20 = 0.75 > 0.1
}

#[test]
fn all_blocked_is_never_bad() {
    for dir in [Direction::Up, Direction::Down, Direction::Left, Direction::Right] {
        let mut rec = PlayerDataRecorder::new();
        record(&mut rec, [-1, -1, -1, -1], dir, 1, 10);
        let m = &rec.moves()[0];
        assert_eq!(m.best_score, -1);
        assert!(!m.is_bad_move);
    }
}

#[test]
fn moves_log_round_trip() {
    let mut rec = PlayerDataRecorder::new();
    record(&mut rec, [10, 20, 5, -1], Direction::Left, 1, 500);
    record(&mut rec, [7, 7, 7, 7], Direction::Up, 2, 250);
    record(&mut rec, [-1, 3, -1, 2], Direction::Down, 3, 1000);
    let bytes = encode_moves_csv(rec.moves());
    let back = parse_moves_csv(&bytes).expect("own log must parse");
    assert_eq!(back.len(), 3);
    for (a, b) in rec.moves().iter().zip(back.iter()) {
        assert_eq!(a.board_state, b.board_state);
        assert_eq!(a.move_chosen, b.move_chosen);
        assert_eq!(a.time_taken_ms, b.time_taken_ms);
        assert_eq!(a.up_score, b.up_score);
        assert_eq!(a.down_score, b.down_score);
        assert_eq!(a.left_score, b.left_score);
        assert_eq!(a.right_score, b.right_score);
        assert_eq!(a.best_score, b.best_score);
        assert_eq!(a.chosen_score, b.chosen_score);
        assert_eq!(a.variation_milli, b.variation_milli);
        assert_eq!(a.is_bad_move, b.is_bad_move);
        assert_eq!(a.game_score, b.game_score);
        assert_eq!(a.move_number, b.move_number);
        assert_eq!(a.timestamp, b.timestamp);
    }
}

#[test]
fn dispersion_exact_value() {
    // scores 10, 20, 5, -1: mean 8.5, variance 59.25, std dev ~7.697
    let mut rec = PlayerDataRecorder::new();
    record(&mut rec, [10, 20, 5, -1], Direction::Up, 1, 1);
    let m = &rec.moves()[0];
    assert_eq!(m.variation_milli, 7697); // floor(1000 * sqrt(59.25))
}

#[test]
fn monthly_append_keeps_prior_entries() {
    let mut rec = PlayerDataRecorder::new();
    record(&mut rec, [10, 20, 5, -1], Direction::Left, 1, 500);
    let first = rec.save_session_data(300, 64, None).expect("fresh month");
    assert_eq!(first.summary.total_moves, 1);
    assert_eq!(first.summary.bad_moves, 1);
    let second = rec
        .save_session_data(400, 128, Some(&first.monthly))
        .expect("append to existing month");
    let all = parse_session_rows(&second.monthly).expect("rewritten month parses");
    assert_eq!(all.len(), 2);
    assert_eq!(all[0].final_score, 300);
    assert_eq!(all[0].highest_tile, 64);
    assert_eq!(all[1].final_score, 400);
    assert_eq!(all[1].highest_tile, 128);
}

#[test]
fn malformed_monthly_is_rejected() {
    let mut rec = PlayerDataRecorder::new();
    record(&mut rec, [1, 2, 3, 4], Direction::Right, 1, 5);
    let garbage: Vec<u8> = b"not a collection".to_vec();
    assert!(rec.save_session_data(1, 2, Some(&garbage)).is_err());
}

#[test]
fn mean_bad_move_rate_averages_per_session_ratios() {
    // (bad=1,total=10) and (bad=1,total=2): mean of ratios is 0.3,
    // ratio of sums would be 2/12.
    let mut rec1 = PlayerDataRecorder::new();
    for n in 0..10u32 {
        let scores = if n == 0 { [100, 0, 0, 0] } else { [0, 0, 0, 0] };
        record(&mut rec1, scores, Direction::Down, n + 1, 10);
    }
    let a1 = rec1.save_session_data(10, 4, None).unwrap();
    let mut rec2 = PlayerDataRecorder::new();
    for n in 0..2u32 {
        let scores = if n == 0 { [100, 0, 0, 0] } else { [0, 0, 0, 0] };
        record(&mut rec2, scores, Direction::Down, n + 1, 10);
    }
    let a2 = rec2.save_session_data(20, 8, None).unwrap();
    let mut ledger = ledger_header_to_bytes();
    ledger.extend_from_slice(&a1.ledger_row);
    ledger.extend_from_slice(&a2.ledger_row);
    let stats = analyze_sessions(Some(&ledger)).unwrap().unwrap();
    assert_eq!(stats.count, 2);
    assert_eq!(stats.mean_bad_rate_micro, 300000); // 0.3, not 166666
    assert_eq!(stats.max_final_score, 20);
    assert_eq!(stats.max_highest_tile, 8);
}

#[test]
fn progression_split_five_events() {
    let mut rec = PlayerDataRecorder::new();
    // events 1 and 3 are bad; early half is indices [0,2), late is [2,5)
    for n in 0..5u32 {
        let scores = if n == 1 || n == 3 { [100, 0, 0, 0] } else { [0, 0, 0, 0] };
        record(&mut rec, scores, Direction::Down, n + 1, 100 * (n as u64 + 1));
    }
    let bytes = encode_moves_csv(rec.moves());
    let stats = analyze_player_data(&bytes).unwrap().unwrap();
    assert_eq!(stats.count, 5);
    assert_eq!(stats.mid, 2);
    assert_eq!(stats.early_bad_moves, 1);
    assert_eq!(stats.late_bad_moves, 1);
    assert_eq!(stats.early_time_ms, 300); // 100 + 200
    assert_eq!(stats.late_time_ms, 1200); // 300 + 400 + 500
    assert_eq!(stats.min_time_ms, 100);
    assert_eq!(stats.max_time_ms, 500);
    assert_eq!(stats.down_moves, 5);
    assert_eq!(stats.up_moves, 0);
}

#[test]
fn analyzer_benign_missing_and_empty() {
    assert!(analyze_sessions(None).unwrap().is_none());
    let rec = PlayerDataRecorder::new();
    let bytes = encode_moves_csv(rec.moves());
    assert!(analyze_player_data(&bytes).unwrap().is_none());
    assert!(analyze_player_data(&b"garbage".to_vec()).is_err());
}

#[test]
fn bad_moves_never_exceed_total() {
    let mut rec = PlayerDataRecorder::new();
    for n in 0..7u32 {
        record(&mut rec, [100, 0, 0, 0], Direction::Up, n + 1, 10);
    }
    let a = rec.save_session_data(5, 2, None).unwrap();
    assert!(a.summary.bad_moves <= a.summary.total_moves);
    assert_eq!(a.summary.bad_moves, 0); // chosen is always the best
}

#[test]
fn board_and_move_strings() {
    let board: Vec<u64> = (0..16u64).collect();
    assert_eq!(
        board_to_string(&board),
        "0,1,2,3,4,5,6,7,8,9,10,11,12,13,14,15"
    );
    assert_eq!(move_to_string(Direction::Left), "Left");
    let rec = PlayerDataRecorder::new();
    assert_eq!(rec.get_session_id().len(), 15);
}

use vstd::prelude::*;
use vstd::seq_lib::lemma_concat_associative;
use crate::num::{
    dec_digits, idec_digits, dec_list_bytes, spec_parse_u64, spec_parse_i64, spec_parse_dec_list,
    spec_expect, spec_expect_lit, lemma_parse_dec, lemma_parse_idec, lemma_parse_dec_list,
    lemma_expect_lit, u64_to_dec, i64_to_dec, u64s_to_dec_list, parse_u64, parse_i64,
    parse_dec_list, expect_byte, expect_lit, is_digit, pad_digits, u64_to_pad, spec_parse_fixed,
    parse_fixed, lemma_parse_pad,
};
use crate::text::{bytes_of_chars, str_to_bytes};
use crate::time::{Timestamp, ts_bytes, spec_parse_ts, lemma_parse_ts, ts_to_bytes, parse_ts, id_bytes, id_chars, id_to_bytes, id_string, spec_parse_id, lemma_parse_id, parse_id};
use crate::player_data::{Direction, dir_chars, MoveModel, MoveData, SessionModel, GameSession};

verus! {

pub open spec fn dir_bytes(d: Direction) -> Seq<u8> {
    bytes_of_chars(dir_chars(d))
}

pub fn dir_to_bytes(d: Direction) -> (r: Vec<u8>)
    ensures
        r@ == dir_bytes(d),
{
    proof {
        reveal_strlit("Up");
        reveal_strlit("Down");
        reveal_strlit("Left");
        reveal_strlit("Right");
    }
    match d {
        Direction::Up => str_to_bytes("Up"),
        Direction::Down => str_to_bytes("Down"),
        Direction::Left => str_to_bytes("Left"),
        Direction::Right => str_to_bytes("Right"),
    }
}

pub open spec fn bool_bytes(b: bool) -> Seq<u8> {
    if b {
        bytes_of_chars("true"@)
    } else {
        bytes_of_chars("false"@)
    }
}

pub fn bool_to_bytes(b: bool) -> (r: Vec<u8>)
    ensures
        r@ == bool_bytes(b),
{
    proof {
        reveal_strlit("true");
        reveal_strlit("false");
    }
    if b {
        str_to_bytes("true")
    } else {
        str_to_bytes("false")
    }
}

/// The column names of the detailed per-session log, in field order.
pub open spec fn moves_header_chars() -> Seq<char> {
    "timestamp,board_state,move_chosen,time_taken_ms,up_score,down_score,left_score,right_score,best_score,chosen_score,variation_score,is_bad_move,game_score,move_number"@
}

pub open spec fn moves_header_line() -> Seq<u8> {
    bytes_of_chars(moves_header_chars()) + seq![10u8]
}

pub fn moves_header_to_bytes() -> (r: Vec<u8>)
    ensures
        r@ == moves_header_line(),
{
    proof {
        reveal_strlit(
            "timestamp,board_state,move_chosen,time_taken_ms,up_score,down_score,left_score,right_score,best_score,chosen_score,variation_score,is_bad_move,game_score,move_number",
        );
    }
    let mut v = str_to_bytes(
        "timestamp,board_state,move_chosen,time_taken_ms,up_score,down_score,left_score,right_score,best_score,chosen_score,variation_score,is_bad_move,game_score,move_number",
    );
    v.push(10);
    proof {
        assert(v@ =~= moves_header_line());
    }
    v
}

/// A bare numeric field with its separating comma.
pub open spec fn fld_u64(v: u64) -> Seq<u8> {
    dec_digits(v as nat) + seq![44u8]
}

pub open spec fn fld_i64(v: i64) -> Seq<u8> {
    idec_digits(v as int) + seq![44u8]
}

pub open spec fn row_head(e: MoveModel) -> Seq<u8> {
    (ts_bytes(e.timestamp) + seq![44u8, 34u8]) + (dec_list_bytes(e.board) + seq![34u8, 44u8]) + (
    dir_bytes(e.move_chosen) + seq![44u8])
}

pub open spec fn row_scores(e: MoveModel) -> Seq<u8> {
    fld_u64(e.time_taken_ms) + fld_i64(e.up_score) + fld_i64(e.down_score) + fld_i64(e.left_score)
        + fld_i64(e.right_score)
}

pub open spec fn row_tail(e: MoveModel) -> Seq<u8> {
    fld_i64(e.best_score) + (fld_i64(e.chosen_score) + (fld_u64(e.variation_milli) + ((bool_bytes(
        e.is_bad_move,
    ) + seq![44u8]) + (fld_u64(e.game_score) + (dec_digits(e.move_number as nat) + seq![10u8])))))
}

/// One detailed-log row: the board snapshot is quoted because it holds
/// commas; every other field is bare. The dispersion column holds the value
/// in thousandths; the row ends with a newline.
#[verifier::opaque]
pub open spec fn spec_move_row(e: MoveModel) -> Seq<u8> {
    row_head(e) + row_scores(e) + row_tail(e)
}

pub proof fn lemma_move_row_len(e: MoveModel)
    ensures
        spec_move_row(e).len() >= 1,
{
    reveal(spec_move_row);
    assert(row_tail(e).len() >= 1);
}

pub open spec fn spec_move_rows(es: Seq<MoveModel>) -> Seq<u8>
    decreases es.len(),
{
    if es.len() == 0 {
        Seq::<u8>::empty()
    } else {
        spec_move_row(es[0]) + spec_move_rows(es.skip(1))
    }
}

/// The whole detailed log: header line, then one row per move, in order.
pub open spec fn spec_moves_csv(es: Seq<MoveModel>) -> Seq<u8> {
    moves_header_line() + spec_move_rows(es)
}

pub proof fn lemma_move_rows_snoc(es: Seq<MoveModel>, e: MoveModel)
    ensures
        spec_move_rows(es.push(e)) == spec_move_rows(es) + spec_move_row(e),
    decreases es.len(),
{
    if es.len() == 0 {
        assert(es.push(e) =~= seq![e]);
        assert(spec_move_rows(seq![e].skip(1)) == Seq::<u8>::empty()) by {
            assert(seq![e].skip(1) =~= Seq::<MoveModel>::empty());
        }
        assert(spec_move_rows(es.push(e)) =~= spec_move_rows(es) + spec_move_row(e));
    } else {
        lemma_move_rows_snoc(es.skip(1), e);
        assert(es.push(e).skip(1) =~= es.skip(1).push(e));
        assert(es.push(e)[0] == es[0]);
        assert(spec_move_row(es[0]) + (spec_move_rows(es.skip(1)) + spec_move_row(e))
            =~= spec_move_rows(es) + spec_move_row(e));
    }
}

#[verifier::rlimit(100)]
pub fn encode_move_row(e: &MoveData) -> (r: Vec<u8>)
    requires
        e@.wf(),
    ensures
        r@ == spec_move_row(e@),
{
    let mut head = ts_to_bytes(e.timestamp);
    head.push(44);
    head.push(34);
    let mut p = u64s_to_dec_list(&e.board_state);
    head.append(&mut p);
    head.push(34);
    head.push(44);
    let mut p = dir_to_bytes(e.move_chosen);
    head.append(&mut p);
    head.push(44);
    proof {
        assert(head@ =~= row_head(e@));
    }
    let mut scores = u64_to_dec(e.time_taken_ms);
    scores.push(44);
    let mut p = i64_to_dec(e.up_score);
    scores.append(&mut p);
    scores.push(44);
    let mut p = i64_to_dec(e.down_score);
    scores.append(&mut p);
    scores.push(44);
    let mut p = i64_to_dec(e.left_score);
    scores.append(&mut p);
    scores.push(44);
    let mut p = i64_to_dec(e.right_score);
    scores.append(&mut p);
    scores.push(44);
    proof {
        assert(scores@ =~= row_scores(e@));
    }
    let mut tail = i64_to_dec(e.best_score);
    tail.push(44);
    let mut p = i64_to_dec(e.chosen_score);
    tail.append(&mut p);
    tail.push(44);
    let mut p = u64_to_dec(e.variation_milli);
    tail.append(&mut p);
    tail.push(44);
    let mut p = bool_to_bytes(e.is_bad_move);
    tail.append(&mut p);
    tail.push(44);
    let mut p = u64_to_dec(e.game_score);
    tail.append(&mut p);
    tail.push(44);
    let mut p = u64_to_dec(e.move_number as u64);
    tail.append(&mut p);
    tail.push(10);
    proof {
        let f1 = fld_i64(e@.best_score);
        let f2 = fld_i64(e@.chosen_score);
        let f3 = fld_u64(e@.variation_milli);
        let f4 = bool_bytes(e@.is_bad_move) + seq![44u8];
        let f5 = fld_u64(e@.game_score);
        let f6 = dec_digits(e@.move_number as nat) + seq![10u8];
        assert(tail@ =~= f1 + f2 + f3 + f4 + f5 + f6);
        lemma_concat_associative(f1 + f2 + f3 + f4, f5, f6);
        lemma_concat_associative(f1 + f2 + f3, f4, f5 + f6);
        lemma_concat_associative(f1 + f2, f3, f4 + (f5 + f6));
        lemma_concat_associative(f1, f2, f3 + (f4 + (f5 + f6)));
        assert(tail@ == row_tail(e@));
    }
    head.append(&mut scores);
    head.append(&mut tail);
    proof {
        reveal(spec_move_row);
    }
    head
}

/// Serialize the full ordered event sequence to the detailed-log format.
pub fn encode_moves_csv(events: &Vec<MoveData>) -> (r: Vec<u8>)
    requires
        forall|i: int| 0 <= i < events@.len() ==> (#[trigger] events@[i])@.wf(),
    ensures
        r@ == spec_moves_csv(events@.map_values(|m: MoveData| m@)),
{
    let ghost models = events@.map_values(|m: MoveData| m@);
    let mut out = moves_header_to_bytes();
    let mut i: usize = 0;
    while i < events.len()
        invariant
            i <= events@.len(),
            models == events@.map_values(|m: MoveData| m@),
            forall|k: int| 0 <= k < events@.len() ==> (#[trigger] events@[k])@.wf(),
            out@ == moves_header_line() + spec_move_rows(models.take(i as int)),
        decreases events@.len() - i,
    {
        let mut row = encode_move_row(&events[i]);
        out.append(&mut row);
        proof {
            lemma_move_rows_snoc(models.take(i as int), models[i as int]);
            assert(models.take(i + 1) =~= models.take(i as int).push(models[i as int]));
            assert(out@ =~= moves_header_line() + spec_move_rows(models.take(i + 1)));
        }
        i = i + 1;
    }
    proof {
        assert(models.take(models.len() as int) =~= models);
    }
    out
}

/// Parse a direction name: the first of the four names that matches.
pub open spec fn spec_parse_dir(s: Seq<u8>) -> Option<(Direction, Seq<u8>)> {
    if spec_expect_lit(s, dir_bytes(Direction::Up)) is Some {
        Some((Direction::Up, spec_expect_lit(s, dir_bytes(Direction::Up))->Some_0))
    } else if spec_expect_lit(s, dir_bytes(Direction::Down)) is Some {
        Some((Direction::Down, spec_expect_lit(s, dir_bytes(Direction::Down))->Some_0))
    } else if spec_expect_lit(s, dir_bytes(Direction::Left)) is Some {
        Some((Direction::Left, spec_expect_lit(s, dir_bytes(Direction::Left))->Some_0))
    } else if spec_expect_lit(s, dir_bytes(Direction::Right)) is Some {
        Some((Direction::Right, spec_expect_lit(s, dir_bytes(Direction::Right))->Some_0))
    } else {
        None
    }
}

pub fn parse_dir(data: &Vec<u8>, pos: usize) -> (r: Option<(Direction, usize)>)
    requires
        pos <= data@.len(),
    ensures
        match r {
            Some(p) => pos <= p.1 <= data@.len() && spec_parse_dir(data@.skip(pos as int)) == Some(
                (p.0, data@.skip(p.1 as int)),
            ),
            None => spec_parse_dir(data@.skip(pos as int)) is None,
        },
{
    proof {
        reveal_strlit("Up");
        reveal_strlit("Down");
        reveal_strlit("Left");
        reveal_strlit("Right");
    }
    let up = str_to_bytes("Up");
    let down = str_to_bytes("Down");
    let left = str_to_bytes("Left");
    let right = str_to_bytes("Right");
    if let Some(np) = expect_lit(data, pos, &up) {
        Some((Direction::Up, np))
    } else if let Some(np) = expect_lit(data, pos, &down) {
        Some((Direction::Down, np))
    } else if let Some(np) = expect_lit(data, pos, &left) {
        Some((Direction::Left, np))
    } else if let Some(np) = expect_lit(data, pos, &right) {
        Some((Direction::Right, np))
    } else {
        None
    }
}

/// The four direction names begin with four different bytes, so a stream
/// that starts with one of them parses as exactly that direction.
pub proof fn lemma_parse_dir(d: Direction, rest: Seq<u8>)
    ensures
        spec_parse_dir(dir_bytes(d) + rest) == Some((d, rest)),
{
    reveal_strlit("Up");
    reveal_strlit("Down");
    reveal_strlit("Left");
    reveal_strlit("Right");
    lemma_expect_lit(dir_bytes(d), rest);
    let s = dir_bytes(d) + rest;
    match d {
        Direction::Up => {
        },
        Direction::Down => {
            assert(spec_expect_lit(s, dir_bytes(Direction::Up)) is None) by {
                if spec_expect_lit(s, dir_bytes(Direction::Up)) is Some {
                    assert(s.take(2)[0] == 'D' as u8);
                }
            }
        },
        Direction::Left => {
            assert(spec_expect_lit(s, dir_bytes(Direction::Up)) is None) by {
                if spec_expect_lit(s, dir_bytes(Direction::Up)) is Some {
                    assert(s.take(2)[0] == 'L' as u8);
                }
            }
            assert(spec_expect_lit(s, dir_bytes(Direction::Down)) is None) by {
                if spec_expect_lit(s, dir_bytes(Direction::Down)) is Some {
                    assert(s.take(4)[0] == 'L' as u8);
                }
            }
        },
        Direction::Right => {
            assert(spec_expect_lit(s, dir_bytes(Direction::Up)) is None) by {
                if spec_expect_lit(s, dir_bytes(Direction::Up)) is Some {
                    assert(s.take(2)[0] == 'R' as u8);
                }
            }
            assert(spec_expect_lit(s, dir_bytes(Direction::Down)) is None) by {
                if spec_expect_lit(s, dir_bytes(Direction::Down)) is Some {
                    assert(s.take(4)[0] == 'R' as u8);
                }
            }
            assert(spec_expect_lit(s, dir_bytes(Direction::Left)) is None) by {
                if spec_expect_lit(s, dir_bytes(Direction::Left)) is Some {
                    assert(s.take(4)[0] == 'R' as u8);
                }
            }
        },
    }
}

/// Parse a bad-move flag.
pub open spec fn spec_parse_bool(s: Seq<u8>) -> Option<(bool, Seq<u8>)> {
    if spec_expect_lit(s, bool_bytes(true)) is Some {
        Some((true, spec_expect_lit(s, bool_bytes(true))->Some_0))
    } else if spec_expect_lit(s, bool_bytes(false)) is Some {
        Some((false, spec_expect_lit(s, bool_bytes(false))->Some_0))
    } else {
        None
    }
}

pub fn parse_bool(data: &Vec<u8>, pos: usize) -> (r: Option<(bool, usize)>)
    requires
        pos <= data@.len(),
    ensures
        match r {
            Some(p) => pos <= p.1 <= data@.len() && spec_parse_bool(data@.skip(pos as int))
                == Some((p.0, data@.skip(p.1 as int))),
            None => spec_parse_bool(data@.skip(pos as int)) is None,
        },
{
    proof {
        reveal_strlit("true");
        reveal_strlit("false");
    }
    let t = str_to_bytes("true");
    let f = str_to_bytes("false");
    if let Some(np) = expect_lit(data, pos, &t) {
        Some((true, np))
    } else if let Some(np) = expect_lit(data, pos, &f) {
        Some((false, np))
    } else {
        None
    }
}

pub proof fn lemma_parse_bool(b: bool, rest: Seq<u8>)
    ensures
        spec_parse_bool(bool_bytes(b) + rest) == Some((b, rest)),
{
    reveal_strlit("true");
    reveal_strlit("false");
    lemma_expect_lit(bool_bytes(b), rest);
    if !b {
        let s = bool_bytes(false) + rest;
        assert(spec_expect_lit(s, bool_bytes(true)) is None) by {
            if spec_expect_lit(s, bool_bytes(true)) is Some {
                assert(s.take(4)[0] == 'f' as u8);
            }
        }
    }
}

/// The head of a row: timestamp, quoted sixteen-tile board, direction.
pub open spec fn spec_parse_row_head(s: Seq<u8>) -> Option<((Timestamp, Seq<u64>, Direction), Seq<
    u8,
>)> {
    match spec_parse_ts(s) {
        None => None,
        Some((t, r)) => match spec_expect(r, 44) {
            None => None,
            Some(r) => match spec_expect(r, 34) {
                None => None,
                Some(r) => match spec_parse_dec_list(r, 16) {
                    None => None,
                    Some((board, r)) => match spec_expect(r, 34) {
                        None => None,
                        Some(r) => match spec_expect(r, 44) {
                            None => None,
                            Some(r) => match spec_parse_dir(r) {
                                None => None,
                                Some((d, r)) => match spec_expect(r, 44) {
                                    None => None,
                                    Some(r) => Some(((t, board, d), r)),
                                },
                            },
                        },
                    },
                },
            },
        },
    }
}

/// The middle of a row: decision time and the four candidate scores.
pub open spec fn spec_parse_row_scores(s: Seq<u8>) -> Option<((u64, i64, i64, i64, i64), Seq<u8>)> {
    match spec_parse_u64(s) {
        None => None,
        Some((time, r)) => match spec_expect(r, 44) {
            None => None,
            Some(r) => match spec_parse_i64(r) {
                None => None,
                Some((u, r)) => match spec_expect(r, 44) {
                    None => None,
                    Some(r) => match spec_parse_i64(r) {
                        None => None,
                        Some((d, r)) => match spec_expect(r, 44) {
                            None => None,
                            Some(r) => match spec_parse_i64(r) {
                                None => None,
                                Some((l, r)) => match spec_expect(r, 44) {
                                    None => None,
                                    Some(r) => match spec_parse_i64(r) {
                                        None => None,
                                        Some((rt, r)) => match spec_expect(r, 44) {
                                            None => None,
                                            Some(r) => Some(((time, u, d, l, rt), r)),
                                        },
                                    },
                                },
                            },
                        },
                    },
                },
            },
        },
    }
}

/// The tail of a row: derived fields, game score and move index, then the
/// closing newline.
pub open spec fn spec_parse_row_tail(s: Seq<u8>) -> Option<((i64, i64, u64, bool, u64, u64), Seq<
    u8,
>)> {
    match spec_parse_i64(s) {
        None => None,
        Some((best, r)) => match spec_expect(r, 44) {
            None => None,
            Some(r) => match spec_parse_i64(r) {
                None => None,
                Some((chosen, r)) => match spec_expect(r, 44) {
                    None => None,
                    Some(r) => match spec_parse_u64(r) {
                        None => None,
                        Some((var, r)) => match spec_expect(r, 44) {
                            None => None,
                            Some(r) => match spec_parse_bool(r) {
                                None => None,
                                Some((bad, r)) => match spec_expect(r, 44) {
                                    None => None,
                                    Some(r) => match spec_parse_u64(r) {
                                        None => None,
                                        Some((game, r)) => match spec_expect(r, 44) {
                                            None => None,
                                            Some(r) => match spec_parse_u64(r) {
                                                None => None,
                                                Some((mn, r)) => match spec_expect(r, 10) {
                                                    None => None,
                                                    Some(r) => Some(
                                                        ((best, chosen, var, bad, game, mn), r),
                                                    ),
                                                },
                                            },
                                        },
                                    },
                                },
                            },
                        },
                    },
                },
            },
        },
    }
}

#[verifier::opaque]
pub open spec fn spec_parse_move_row(s: Seq<u8>) -> Option<(MoveModel, Seq<u8>)> {
    match spec_parse_row_head(s) {
        None => None,
        Some(((t, board, dir), r)) => match spec_parse_row_scores(r) {
            None => None,
            Some(((time, u, d, l, rt), r)) => match spec_parse_row_tail(r) {
                None => None,
                Some(((best, chosen, var, bad, game, mn), r)) => if mn <= u32::MAX as u64 {
                    Some(
                        (
                            MoveModel {
                                timestamp: t,
                                board: board,
                                move_chosen: dir,
                                time_taken_ms: time,
                                up_score: u,
                                down_score: d,
                                left_score: l,
                                right_score: rt,
                                best_score: best,
                                chosen_score: chosen,
                                variation_milli: var,
                                is_bad_move: bad,
                                game_score: game,
                                move_number: mn as u32,
                            },
                            r,
                        ),
                    )
                } else {
                    None
                },
            },
        },
    }
}

proof fn step_u64(v: u64, tail: Seq<u8>)
    ensures
        spec_parse_u64(fld_u64(v) + tail) == Some((v, seq![44u8] + tail)),
        spec_expect(seq![44u8] + tail, 44) == Some(tail),
{
    assert(fld_u64(v) + tail =~= dec_digits(v as nat) + (seq![44u8] + tail));
    lemma_parse_dec(v, seq![44u8] + tail);
    assert((seq![44u8] + tail)[0] == 44);
    assert((seq![44u8] + tail).skip(1) =~= tail);
}

proof fn step_i64(v: i64, tail: Seq<u8>)
    requires
        v > i64::MIN,
    ensures
        spec_parse_i64(fld_i64(v) + tail) == Some((v, seq![44u8] + tail)),
        spec_expect(seq![44u8] + tail, 44) == Some(tail),
{
    assert(fld_i64(v) + tail =~= idec_digits(v as int) + (seq![44u8] + tail));
    lemma_parse_idec(v, seq![44u8] + tail);
    assert((seq![44u8] + tail)[0] == 44);
    assert((seq![44u8] + tail).skip(1) =~= tail);
}

proof fn step_bool(b: bool, tail: Seq<u8>)
    ensures
        spec_parse_bool((bool_bytes(b) + seq![44u8]) + tail) == Some((b, seq![44u8] + tail)),
        spec_expect(seq![44u8] + tail, 44) == Some(tail),
{
    assert((bool_bytes(b) + seq![44u8]) + tail =~= bool_bytes(b) + (seq![44u8] + tail));
    lemma_parse_bool(b, seq![44u8] + tail);
    assert((seq![44u8] + tail)[0] == 44);
    assert((seq![44u8] + tail).skip(1) =~= tail);
}

proof fn step_u64_nl(v: u64, tail: Seq<u8>)
    ensures
        spec_parse_u64((dec_digits(v as nat) + seq![10u8]) + tail) == Some((v, seq![10u8] + tail)),
        spec_expect(seq![10u8] + tail, 10) == Some(tail),
{
    assert((dec_digits(v as nat) + seq![10u8]) + tail =~= dec_digits(v as nat) + (seq![10u8]
        + tail));
    lemma_parse_dec(v, seq![10u8] + tail);
    assert((seq![10u8] + tail)[0] == 10);
    assert((seq![10u8] + tail).skip(1) =~= tail);
}

#[verifier::rlimit(100)]
#[verifier::spinoff_prover]
pub proof fn lemma_parse_row_head(e: MoveModel, rest: Seq<u8>)
    requires
        e.timestamp.valid(),
        e.board.len() == 16,
    ensures
        spec_parse_row_head(row_head(e) + rest) == Some(((e.timestamp, e.board, e.move_chosen),
        rest)),
{
    let r1 = seq![44u8, 34u8] + ((dec_list_bytes(e.board) + seq![34u8, 44u8]) + ((dir_bytes(
        e.move_chosen,
    ) + seq![44u8]) + rest));
    assert(row_head(e) + rest =~= ts_bytes(e.timestamp) + r1);
    lemma_parse_ts(e.timestamp, r1);
    assert(r1[0] == 44);
    assert(r1.skip(1)[0] == 34);
    let r2 = dec_list_bytes(e.board) + (seq![34u8, 44u8] + ((dir_bytes(e.move_chosen)
        + seq![44u8]) + rest));
    assert(r1.skip(1).skip(1) =~= r2);
    let after_board = seq![34u8, 44u8] + ((dir_bytes(e.move_chosen) + seq![44u8]) + rest);
    assert(after_board[0] == 34);
    assert(!is_digit(34u8));
    lemma_parse_dec_list(e.board, after_board);
    assert(after_board.skip(1)[0] == 44);
    let r3 = dir_bytes(e.move_chosen) + (seq![44u8] + rest);
    assert(after_board.skip(1).skip(1) =~= r3);
    lemma_parse_dir(e.move_chosen, seq![44u8] + rest);
    assert((seq![44u8] + rest)[0] == 44);
    assert((seq![44u8] + rest).skip(1) =~= rest);
}

#[verifier::rlimit(100)]
#[verifier::spinoff_prover]
pub proof fn lemma_parse_row_scores(e: MoveModel, rest: Seq<u8>)
    requires
        e.up_score > i64::MIN,
        e.down_score > i64::MIN,
        e.left_score > i64::MIN,
        e.right_score > i64::MIN,
    ensures
        spec_parse_row_scores(row_scores(e) + rest) == Some(
            ((e.time_taken_ms, e.up_score, e.down_score, e.left_score, e.right_score), rest),
        ),
{
    let r1 = fld_i64(e.up_score) + fld_i64(e.down_score) + fld_i64(e.left_score) + fld_i64(
        e.right_score,
    ) + rest;
    assert(row_scores(e) + rest =~= fld_u64(e.time_taken_ms) + r1);
    step_u64(e.time_taken_ms, r1);
    let r2 = fld_i64(e.down_score) + fld_i64(e.left_score) + fld_i64(e.right_score) + rest;
    assert(r1 =~= fld_i64(e.up_score) + r2);
    step_i64(e.up_score, r2);
    let r3 = fld_i64(e.left_score) + fld_i64(e.right_score) + rest;
    assert(r2 =~= fld_i64(e.down_score) + r3);
    step_i64(e.down_score, r3);
    let r4 = fld_i64(e.right_score) + rest;
    assert(r3 =~= fld_i64(e.left_score) + r4);
    step_i64(e.left_score, r4);
    step_i64(e.right_score, rest);
}

#[verifier::rlimit(100)]
#[verifier::spinoff_prover]
pub proof fn lemma_parse_row_tail(e: MoveModel, rest: Seq<u8>)
    requires
        e.best_score > i64::MIN,
        e.chosen_score > i64::MIN,
    ensures
        spec_parse_row_tail(row_tail(e) + rest) == Some(
            (
                (
                    e.best_score,
                    e.chosen_score,
                    e.variation_milli,
                    e.is_bad_move,
                    e.game_score,
                    e.move_number as u64,
                ),
                rest,
            ),
        ),
{
    let f1 = fld_i64(e.best_score);
    let f2 = fld_i64(e.chosen_score);
    let f3 = fld_u64(e.variation_milli);
    let f4 = bool_bytes(e.is_bad_move) + seq![44u8];
    let f5 = fld_u64(e.game_score);
    let f6 = dec_digits(e.move_number as nat) + seq![10u8];
    let t5 = f5 + f6;
    let t4 = f4 + t5;
    let t3 = f3 + t4;
    let t2 = f2 + t3;
    lemma_concat_associative(f1, t2, rest);
    step_i64(e.best_score, t2 + rest);
    lemma_concat_associative(f2, t3, rest);
    step_i64(e.chosen_score, t3 + rest);
    lemma_concat_associative(f3, t4, rest);
    step_u64(e.variation_milli, t4 + rest);
    lemma_concat_associative(f4, t5, rest);
    step_bool(e.is_bad_move, t5 + rest);
    lemma_concat_associative(f5, f6, rest);
    step_u64(e.game_score, f6 + rest);
    assert(dec_digits(e.move_number as u64 as nat) == dec_digits(e.move_number as nat));
    step_u64_nl(e.move_number as u64, rest);
}

/// A well-formed record's own row reads back as the record, whatever
/// follows the newline.
#[verifier::rlimit(100)]
#[verifier::spinoff_prover]
pub proof fn lemma_parse_move_row(e: MoveModel, rest: Seq<u8>)
    requires
        e.wf(),
    ensures
        spec_parse_move_row(spec_move_row(e) + rest) == Some((e, rest)),
{
    reveal(spec_move_row);
    reveal(spec_parse_move_row);
    let s = spec_move_row(e) + rest;
    assert(s =~= row_head(e) + (row_scores(e) + (row_tail(e) + rest)));
    lemma_parse_row_head(e, row_scores(e) + (row_tail(e) + rest));
    let tail_rest = row_tail(e) + rest;
    lemma_parse_row_scores(e, tail_rest);
    lemma_parse_row_tail(e, rest);
    assert(e.move_number as u64 <= u32::MAX as u64);
}

/// Read the head fields of a row at `pos`.
#[verifier::rlimit(100)]
fn parse_row_head(data: &Vec<u8>, pos: usize) -> (r: Option<((Timestamp, Vec<u64>, Direction), usize)>)
    requires
        pos <= data@.len(),
    ensures
        match r {
            Some(p) => pos < p.1 <= data@.len() && spec_parse_row_head(data@.skip(pos as int))
                == Some(((p.0.0, p.0.1@, p.0.2), data@.skip(p.1 as int))),
            None => spec_parse_row_head(data@.skip(pos as int)) is None,
        },
{
    let (t, p) = match parse_ts(data, pos) {
        Some(v) => v,
        None => {
            return None;
        },
    };
    let p = match expect_byte(data, p, 44) {
        Some(v) => v,
        None => {
            return None;
        },
    };
    let p = match expect_byte(data, p, 34) {
        Some(v) => v,
        None => {
            return None;
        },
    };
    let (board, p) = match parse_dec_list(data, p, 16) {
        Some(v) => v,
        None => {
            return None;
        },
    };
    let p = match expect_byte(data, p, 34) {
        Some(v) => v,
        None => {
            return None;
        },
    };
    let p = match expect_byte(data, p, 44) {
        Some(v) => v,
        None => {
            return None;
        },
    };
    let (dir, p) = match parse_dir(data, p) {
        Some(v) => v,
        None => {
            return None;
        },
    };
    let p = match expect_byte(data, p, 44) {
        Some(v) => v,
        None => {
            return None;
        },
    };
    Some(((t, board, dir), p))
}

/// Read the decision time and candidate scores of a row at `pos`.
#[verifier::rlimit(100)]
fn parse_row_scores(data: &Vec<u8>, pos: usize) -> (r: Option<((u64, i64, i64, i64, i64), usize)>)
    requires
        pos <= data@.len(),
    ensures
        match r {
            Some(p) => pos < p.1 <= data@.len() && spec_parse_row_scores(data@.skip(pos as int))
                == Some((p.0, data@.skip(p.1 as int))),
            None => spec_parse_row_scores(data@.skip(pos as int)) is None,
        },
{
    let (time, p) = match parse_u64(data, pos) {
        Some(v) => v,
        None => {
            return None;
        },
    };
    let p = match expect_byte(data, p, 44) {
        Some(v) => v,
        None => {
            return None;
        },
    };
    let (up, p) = match parse_i64(data, p) {
        Some(v) => v,
        None => {
            return None;
        },
    };
    let p = match expect_byte(data, p, 44) {
        Some(v) => v,
        None => {
            return None;
        },
    };
    let (down, p) = match parse_i64(data, p) {
        Some(v) => v,
        None => {
            return None;
        },
    };
    let p = match expect_byte(data, p, 44) {
        Some(v) => v,
        None => {
            return None;
        },
    };
    let (left, p) = match parse_i64(data, p) {
        Some(v) => v,
        None => {
            return None;
        },
    };
    let p = match expect_byte(data, p, 44) {
        Some(v) => v,
        None => {
            return None;
        },
    };
    let (right, p) = match parse_i64(data, p) {
        Some(v) => v,
        None => {
            return None;
        },
    };
    let p = match expect_byte(data, p, 44) {
        Some(v) => v,
        None => {
            return None;
        },
    };
    Some(((time, up, down, left, right), p))
}

/// Read the derived fields and the closing newline of a row at `pos`.
#[verifier::rlimit(100)]
fn parse_row_tail(data: &Vec<u8>, pos: usize) -> (r: Option<((i64, i64, u64, bool, u64, u64), usize)>)
    requires
        pos <= data@.len(),
    ensures
        match r {
            Some(p) => pos < p.1 <= data@.len() && spec_parse_row_tail(data@.skip(pos as int))
                == Some((p.0, data@.skip(p.1 as int))),
            None => spec_parse_row_tail(data@.skip(pos as int)) is None,
        },
{
    let (best, p) = match parse_i64(data, pos) {
        Some(v) => v,
        None => {
            return None;
        },
    };
    let p = match expect_byte(data, p, 44) {
        Some(v) => v,
        None => {
            return None;
        },
    };
    let (chosen, p) = match parse_i64(data, p) {
        Some(v) => v,
        None => {
            return None;
        },
    };
    let p = match expect_byte(data, p, 44) {
        Some(v) => v,
        None => {
            return None;
        },
    };
    let (var, p) = match parse_u64(data, p) {
        Some(v) => v,
        None => {
            return None;
        },
    };
    let p = match expect_byte(data, p, 44) {
        Some(v) => v,
        None => {
            return None;
        },
    };
    let (bad, p) = match parse_bool(data, p) {
        Some(v) => v,
        None => {
            return None;
        },
    };
    let p = match expect_byte(data, p, 44) {
        Some(v) => v,
        None => {
            return None;
        },
    };
    let (game, p) = match parse_u64(data, p) {
        Some(v) => v,
        None => {
            return None;
        },
    };
    let p = match expect_byte(data, p, 44) {
        Some(v) => v,
        None => {
            return None;
        },
    };
    let (mn, p) = match parse_u64(data, p) {
        Some(v) => v,
        None => {
            return None;
        },
    };
    let p = match expect_byte(data, p, 10) {
        Some(v) => v,
        None => {
            return None;
        },
    };
    Some(((best, chosen, var, bad, game, mn), p))
}

/// Read one row at `pos`.
#[verifier::rlimit(100)]
pub fn parse_move_row(data: &Vec<u8>, pos: usize) -> (r: Option<(MoveData, usize)>)
    requires
        pos <= data@.len(),
    ensures
        match r {
            Some(p) => pos < p.1 <= data@.len() && spec_parse_move_row(data@.skip(pos as int))
                == Some((p.0@, data@.skip(p.1 as int))),
            None => spec_parse_move_row(data@.skip(pos as int)) is None,
        },
{
    proof {
        reveal(spec_parse_move_row);
    }
    let ((t, board, dir), p) = match parse_row_head(data, pos) {
        Some(v) => v,
        None => {
            return None;
        },
    };
    let ((time, up, down, left, right), p) = match parse_row_scores(data, p) {
        Some(v) => v,
        None => {
            return None;
        },
    };
    let ((best, chosen, var, bad, game, mn), p) = match parse_row_tail(data, p) {
        Some(v) => v,
        None => {
            return None;
        },
    };
    if mn > u32::MAX as u64 {
        return None;
    }
    let md = MoveData {
        timestamp: t,
        board_state: board,
        move_chosen: dir,
        time_taken_ms: time,
        up_score: up,
        down_score: down,
        left_score: left,
        right_score: right,
        best_score: best,
        chosen_score: chosen,
        variation_milli: var,
        is_bad_move: bad,
        game_score: game,
        move_number: mn as u32,
    };
    Some((md, p))
}

/// Parse rows until the input is exhausted; the fuel bounds the recursion
/// and is in practice the remaining length, since every row takes at least
/// one byte.
pub open spec fn spec_parse_move_rows(s: Seq<u8>, fuel: nat) -> Option<Seq<MoveModel>>
    decreases fuel,
{
    if s.len() == 0 {
        Some(Seq::<MoveModel>::empty())
    } else if fuel == 0 {
        None
    } else {
        match spec_parse_move_row(s) {
            None => None,
            Some((m, r)) => match spec_parse_move_rows(r, (fuel - 1) as nat) {
                None => None,
                Some(ms) => Some(seq![m] + ms),
            },
        }
    }
}

/// The whole detailed log: header, then rows to the end of the input.
pub open spec fn spec_parse_moves_csv(s: Seq<u8>) -> Option<Seq<MoveModel>> {
    match spec_expect_lit(s, moves_header_line()) {
        None => None,
        Some(r) => spec_parse_move_rows(r, r.len()),
    }
}

pub proof fn lemma_move_rows_len(es: Seq<MoveModel>)
    ensures
        spec_move_rows(es).len() >= es.len(),
    decreases es.len(),
{
    if es.len() > 0 {
        lemma_move_rows_len(es.skip(1));
        lemma_move_row_len(es[0]);
    }
}

#[verifier::rlimit(100)]
#[verifier::spinoff_prover]
pub proof fn lemma_parse_move_rows(es: Seq<MoveModel>, fuel: nat)
    requires
        forall|i: int| 0 <= i < es.len() ==> (#[trigger] es[i]).wf(),
        fuel >= es.len(),
    ensures
        spec_parse_move_rows(spec_move_rows(es), fuel) == Some(es),
    decreases es.len(),
{
    if es.len() == 0 {
        assert(spec_move_rows(es).len() == 0);
        assert(Seq::<MoveModel>::empty() =~= es);
    } else {
        lemma_parse_move_row(es[0], spec_move_rows(es.skip(1)));
        lemma_move_row_len(es[0]);
        assert(spec_move_rows(es).len() > 0);
        assert(forall|i: int| 0 <= i < es.skip(1).len() ==> (#[trigger] es.skip(1)[i]).wf());
        lemma_parse_move_rows(es.skip(1), (fuel - 1) as nat);
        assert(seq![es[0]] + es.skip(1) =~= es);
    }
}

/// Reading a detailed log written from a well-formed event sequence gives
/// back the same records, in the same order.
pub proof fn lemma_moves_csv_roundtrip(es: Seq<MoveModel>)
    requires
        forall|i: int| 0 <= i < es.len() ==> (#[trigger] es[i]).wf(),
    ensures
        spec_parse_moves_csv(spec_moves_csv(es)) == Some(es),
{
    lemma_expect_lit(moves_header_line(), spec_move_rows(es));
    lemma_move_rows_len(es);
    lemma_parse_move_rows(es, spec_move_rows(es).len());
}

/// Load the ordered move sequence from detailed-log bytes. `None` exactly
/// when the bytes are not a well-formed log.
#[verifier::rlimit(100)]
pub fn parse_moves_csv(data: &Vec<u8>) -> (r: Option<Vec<MoveData>>)
    ensures
        match r {
            Some(v) => spec_parse_moves_csv(data@) == Some(v@.map_values(|m: MoveData| m@)),
            None => spec_parse_moves_csv(data@) is None,
        },
{
    proof {
        reveal_strlit(
            "timestamp,board_state,move_chosen,time_taken_ms,up_score,down_score,left_score,right_score,best_score,chosen_score,variation_score,is_bad_move,game_score,move_number",
        );
        assert(data@.skip(0) =~= data@);
    }
    let header = moves_header_to_bytes();
    let mut pos = match expect_lit(data, 0, &header) {
        Some(v) => v,
        None => {
            return None;
        },
    };
    let ghost f0 = data@.skip(pos as int).len();
    let ghost mut fuel: nat = f0;
    let mut out: Vec<MoveData> = Vec::new();
    while pos < data.len()
        invariant
            pos <= data@.len(),
            fuel >= data@.len() - pos,
            spec_parse_moves_csv(data@) == (match spec_parse_move_rows(
                data@.skip(pos as int),
                fuel,
            ) {
                None => None::<Seq<MoveModel>>,
                Some(ms) => Some(out@.map_values(|m: MoveData| m@) + ms),
            }),
        decreases data@.len() - pos,
    {
        proof {
            assert(data@.skip(pos as int).len() > 0);
        }
        let (md, np) = match parse_move_row(data, pos) {
            Some(v) => v,
            None => {
                return None;
            },
        };
        let ghost prev = out@.map_values(|m: MoveData| m@);
        out.push(md);
        proof {
            assert(out@.map_values(|m: MoveData| m@) =~= prev.push(md@));
            assert forall|ms: Seq<MoveModel>|
                prev + (seq![md@] + ms) =~= prev.push(md@) + ms by {}
            fuel = (fuel - 1) as nat;
        }
        pos = np;
    }
    proof {
        assert(data@.skip(pos as int).len() == 0);
        assert(out@.map_values(|m: MoveData| m@) + Seq::<MoveModel>::empty() =~= out@.map_values(
            |m: MoveData| m@,
        ));
    }
    Some(out)
}

/// The fixed header of the cumulative ledger.
pub open spec fn ledger_header_chars() -> Seq<char> {
    "session_id,start_time,end_time,final_score,highest_tile,total_moves,bad_moves,average_time_per_move_ms"@
}

pub open spec fn ledger_header_line() -> Seq<u8> {
    bytes_of_chars(ledger_header_chars()) + seq![10u8]
}

pub fn ledger_header_to_bytes() -> (r: Vec<u8>)
    ensures
        r@ == ledger_header_line(),
{
    proof {
        reveal_strlit(
            "session_id,start_time,end_time,final_score,highest_tile,total_moves,bad_moves,average_time_per_move_ms",
        );
    }
    let mut v = str_to_bytes(
        "session_id,start_time,end_time,final_score,highest_tile,total_moves,bad_moves,average_time_per_move_ms",
    );
    v.push(10);
    proof {
        assert(v@ =~= ledger_header_line());
    }
    v
}

/// The end-time column: the fixed-width form, or empty for a session that
/// was never finalized.
pub open spec fn end_fld(e: Option<Timestamp>) -> Seq<u8> {
    match e {
        Some(t) => ts_bytes(t) + seq![44u8],
        None => seq![44u8],
    }
}

/// The average decision time, in milliseconds with two decimal places.
pub open spec fn avg_fld(c: u64) -> Seq<u8> {
    dec_digits((c / 100) as nat) + (seq![46u8] + (pad_digits((c % 100) as nat, 2) + seq![10u8]))
}

/// One session row, in the ledger's column order; the identifier column
/// repeats the identifier that the start time yields.
#[verifier::opaque]
pub open spec fn spec_session_row(s: SessionModel) -> Seq<u8> {
    (id_bytes(s.start_time) + seq![44u8]) + ((ts_bytes(s.start_time) + seq![44u8]) + (end_fld(
        s.end_time,
    ) + (fld_u64(s.final_score) + (fld_u64(s.highest_tile) + (fld_u64(s.total_moves as u64) + (
    fld_u64(s.bad_moves as u64) + avg_fld(s.average_time_centi_ms)))))))
}

#[verifier::rlimit(100)]
pub fn encode_session_row(s: &GameSession) -> (r: Vec<u8>)
    requires
        s@.wf(),
    ensures
        r@ == spec_session_row(s@),
{
    proof {
        crate::time::lemma_pow10_small();
    }
    let mut out = id_to_bytes(s.start_time);
    out.push(44);
    let mut p = ts_to_bytes(s.start_time);
    out.append(&mut p);
    out.push(44);
    match &s.end_time {
        Some(t) => {
            let mut p = ts_to_bytes(*t);
            out.append(&mut p);
            out.push(44);
        },
        None => {
            out.push(44);
        },
    }
    let mut p = u64_to_dec(s.final_score);
    out.append(&mut p);
    out.push(44);
    let mut p = u64_to_dec(s.highest_tile);
    out.append(&mut p);
    out.push(44);
    let mut p = u64_to_dec(s.total_moves as u64);
    out.append(&mut p);
    out.push(44);
    let mut p = u64_to_dec(s.bad_moves as u64);
    out.append(&mut p);
    out.push(44);
    let mut p = u64_to_dec(s.average_time_centi_ms / 100);
    out.append(&mut p);
    out.push(46);
    let mut p = u64_to_pad(s.average_time_centi_ms % 100, 2);
    out.append(&mut p);
    out.push(10);
    proof {
        let m = s@;
        let f1 = id_bytes(m.start_time) + seq![44u8];
        let f2 = ts_bytes(m.start_time) + seq![44u8];
        let f3 = end_fld(m.end_time);
        let f4 = fld_u64(m.final_score);
        let f5 = fld_u64(m.highest_tile);
        let f6 = fld_u64(m.total_moves as u64);
        let f7 = fld_u64(m.bad_moves as u64);
        let f8 = avg_fld(m.average_time_centi_ms);
        assert(out@ =~= f1 + f2 + f3 + f4 + f5 + f6 + f7 + f8);
        lemma_concat_associative(f1 + f2 + f3 + f4 + f5 + f6, f7, f8);
        lemma_concat_associative(f1 + f2 + f3 + f4 + f5, f6, f7 + f8);
        lemma_concat_associative(f1 + f2 + f3 + f4, f5, f6 + (f7 + f8));
        lemma_concat_associative(f1 + f2 + f3, f4, f5 + (f6 + (f7 + f8)));
        lemma_concat_associative(f1 + f2, f3, f4 + (f5 + (f6 + (f7 + f8))));
        lemma_concat_associative(f1, f2, f3 + (f4 + (f5 + (f6 + (f7 + f8)))));
        reveal(spec_session_row);
        assert(out@ == spec_session_row(m));
    }
    out
}

/// Parse one session row; the identifier column must agree with the start
/// time, the bad-move count must not exceed the move count, and the counts
/// must fit their fields.
#[verifier::opaque]
pub open spec fn spec_parse_session_row(s: Seq<u8>) -> Option<(SessionModel, Seq<u8>)> {
    match spec_parse_id(s) {
        None => None,
        Some((tid, r)) => match spec_expect(r, 44) {
            None => None,
            Some(r) => match spec_parse_ts(r) {
                None => None,
                Some((start, r)) => if start != tid {
                    None
                } else {
                    match spec_expect(r, 44) {
                        None => None,
                        Some(r) => {
                            let (end, r2) = if spec_expect(r, 44) is Some {
                                (None::<Timestamp>, spec_expect(r, 44)->Some_0)
                            } else {
                                match spec_parse_ts(r) {
                                    None => (None::<Timestamp>, r),
                                    Some((e, r3)) => match spec_expect(r3, 44) {
                                        None => (None::<Timestamp>, r),
                                        Some(r4) => (Some(e), r4),
                                    },
                                }
                            };
                            if end is None && !(spec_expect(r, 44) is Some) {
                                None
                            } else {
                                spec_parse_session_fields(start, end, r2)
                            }
                        },
                    }
                },
            },
        },
    }
}

pub open spec fn spec_parse_session_fields(start: Timestamp, end: Option<Timestamp>, s: Seq<u8>) -> Option<
    (SessionModel, Seq<u8>),
> {
    match spec_parse_u64(s) {
        None => None,
        Some((final_score, r)) => match spec_expect(r, 44) {
            None => None,
            Some(r) => match spec_parse_u64(r) {
                None => None,
                Some((tile, r)) => match spec_expect(r, 44) {
                    None => None,
                    Some(r) => match spec_parse_u64(r) {
                        None => None,
                        Some((total, r)) => match spec_expect(r, 44) {
                            None => None,
                            Some(r) => match spec_parse_u64(r) {
                                None => None,
                                Some((bad, r)) => match spec_expect(r, 44) {
                                    None => None,
                                    Some(r) => match spec_parse_u64(r) {
                                        None => None,
                                        Some((a, r)) => match spec_expect(r, 46) {
                                            None => None,
                                            Some(r) => match spec_parse_fixed(r, 2) {
                                                None => None,
                                                Some((b, r)) => match spec_expect(r, 10) {
                                                    None => None,
                                                    Some(r) => {
                                                        if total <= u32::MAX as u64 && bad <= total
                                                            && 100 * (a as int) + b
                                                            <= u64::MAX as int {
                                                            Some(
                                                                (
                                                                    SessionModel {
                                                                        session_id: id_chars(start),
                                                                        start_time: start,
                                                                        end_time: end,
                                                                        final_score: final_score,
                                                                        highest_tile: tile,
                                                                        total_moves: total as u32,
                                                                        bad_moves: bad as u32,
                                                                        average_time_centi_ms: (100
                                                                            * a + b) as u64,
                                                                    },
                                                                    r,
                                                                ),
                                                            )
                                                        } else {
                                                            None
                                                        }
                                                    },
                                                },
                                            },
                                        },
                                    },
                                },
                            },
                        },
                    },
                },
            },
        },
    }
}

/// The numeric half of a session row reads back as its fields.
#[verifier::rlimit(100)]
#[verifier::spinoff_prover]
pub proof fn lemma_parse_session_fields(s: SessionModel, rest: Seq<u8>)
    requires
        s.wf(),
    ensures
        spec_parse_session_fields(
            s.start_time,
            s.end_time,
            fld_u64(s.final_score) + (fld_u64(s.highest_tile) + (fld_u64(s.total_moves as u64) + (
            fld_u64(s.bad_moves as u64) + avg_fld(s.average_time_centi_ms)))) + rest,
        ) == Some((s, rest)),
{
    crate::time::lemma_pow10_small();
    let f4 = fld_u64(s.final_score);
    let f5 = fld_u64(s.highest_tile);
    let f6 = fld_u64(s.total_moves as u64);
    let f7 = fld_u64(s.bad_moves as u64);
    let f8 = avg_fld(s.average_time_centi_ms);
    let t5 = f5 + (f6 + (f7 + f8));
    let t6 = f6 + (f7 + f8);
    let t7 = f7 + f8;
    lemma_concat_associative(f4, t5, rest);
    step_u64(s.final_score, t5 + rest);
    lemma_concat_associative(f5, t6, rest);
    step_u64(s.highest_tile, t6 + rest);
    lemma_concat_associative(f6, t7, rest);
    step_u64(s.total_moves as u64, t7 + rest);
    lemma_concat_associative(f7, f8, rest);
    step_u64(s.bad_moves as u64, f8 + rest);
    let c = s.average_time_centi_ms;
    let bseq = pad_digits((c % 100) as nat, 2) + seq![10u8];
    assert(f8 + rest =~= dec_digits((c / 100) as nat) + ((seq![46u8] + (bseq + rest))));
    lemma_parse_dec(c / 100, seq![46u8] + (bseq + rest));
    assert((seq![46u8] + (bseq + rest))[0] == 46);
    assert((seq![46u8] + (bseq + rest)).skip(1) =~= bseq + rest);
    assert(bseq + rest =~= pad_digits((c % 100) as nat, 2) + (seq![10u8] + rest));
    lemma_parse_pad(c % 100, 2, seq![10u8] + rest);
    assert((seq![10u8] + rest)[0] == 10);
    assert((seq![10u8] + rest).skip(1) =~= rest);
    vstd::arithmetic::div_mod::lemma_fundamental_div_mod(c as int, 100);
}

/// A well-formed summary's own row reads back as the summary.
#[verifier::rlimit(100)]
#[verifier::spinoff_prover]
pub proof fn lemma_parse_session_row(s: SessionModel, rest: Seq<u8>)
    requires
        s.wf(),
    ensures
        spec_parse_session_row(spec_session_row(s) + rest) == Some((s, rest)),
{
    reveal(spec_session_row);
    reveal(spec_parse_session_row);
    crate::time::lemma_pow10_small();
    let f1 = id_bytes(s.start_time) + seq![44u8];
    let f2 = ts_bytes(s.start_time) + seq![44u8];
    let f3 = end_fld(s.end_time);
    let f4 = fld_u64(s.final_score);
    let f5 = fld_u64(s.highest_tile);
    let f6 = fld_u64(s.total_moves as u64);
    let f7 = fld_u64(s.bad_moves as u64);
    let f8 = avg_fld(s.average_time_centi_ms);
    let t2 = f2 + (f3 + (f4 + (f5 + (f6 + (f7 + f8)))));
    let t3 = f3 + (f4 + (f5 + (f6 + (f7 + f8))));
    let t4 = f4 + (f5 + (f6 + (f7 + f8)));
    lemma_concat_associative(f1, t2, rest);
    assert(f1 + (t2 + rest) =~= id_bytes(s.start_time) + (seq![44u8] + (t2 + rest)));
    lemma_parse_id(s.start_time, seq![44u8] + (t2 + rest));
    assert((seq![44u8] + (t2 + rest))[0] == 44);
    assert((seq![44u8] + (t2 + rest)).skip(1) =~= t2 + rest);
    lemma_concat_associative(f2, t3, rest);
    assert(f2 + (t3 + rest) =~= ts_bytes(s.start_time) + (seq![44u8] + (t3 + rest)));
    lemma_parse_ts(s.start_time, seq![44u8] + (t3 + rest));
    assert((seq![44u8] + (t3 + rest))[0] == 44);
    assert((seq![44u8] + (t3 + rest)).skip(1) =~= t3 + rest);
    lemma_concat_associative(f3, t4, rest);
    let after_end = t4 + rest;
    match s.end_time {
        Some(e) => {
            assert(f3 + after_end =~= ts_bytes(e) + (seq![44u8] + after_end));
            lemma_parse_ts(e, seq![44u8] + after_end);
            crate::num::lemma_pad_digits_props(e.year as nat, 4);
            assert((ts_bytes(e) + (seq![44u8] + after_end))[0] == pad_digits(e.year as nat, 4)[0]) by {
                assert(ts_bytes(e)[0] == pad_digits(e.year as nat, 4)[0]);
            }
            assert(is_digit(pad_digits(e.year as nat, 4)[0]));
            assert(spec_expect(f3 + after_end, 44) is None);
            assert((seq![44u8] + after_end)[0] == 44);
            assert((seq![44u8] + after_end).skip(1) =~= after_end);
        },
        None => {
            assert(f3 + after_end =~= seq![44u8] + after_end);
            assert((f3 + after_end)[0] == 44);
            assert((f3 + after_end).skip(1) =~= after_end);
        },
    }
    lemma_parse_session_fields(s, rest);
}

/// Read one session row at `pos`.
#[verifier::rlimit(100)]
pub fn parse_session_row(data: &Vec<u8>, pos: usize) -> (r: Option<(GameSession, usize)>)
    requires
        pos <= data@.len(),
    ensures
        match r {
            Some(p) => pos < p.1 <= data@.len() && p.0@.wf() && spec_parse_session_row(
                data@.skip(pos as int),
            ) == Some((p.0@, data@.skip(p.1 as int))),
            None => spec_parse_session_row(data@.skip(pos as int)) is None,
        },
{
    proof {
        reveal(spec_parse_session_row);
    }
    let (tid, p) = match parse_id(data, pos) {
        Some(v) => v,
        None => {
            return None;
        },
    };
    let p = match expect_byte(data, p, 44) {
        Some(v) => v,
        None => {
            return None;
        },
    };
    let (start, p) = match parse_ts(data, p) {
        Some(v) => v,
        None => {
            return None;
        },
    };
    if !(start.year == tid.year && start.month == tid.month && start.day == tid.day && start.hour
        == tid.hour && start.minute == tid.minute && start.second == tid.second) {
        proof {
            assert(start != tid);
        }
        return None;
    }
    proof {
        assert(start == tid);
    }
    let p = match expect_byte(data, p, 44) {
        Some(v) => v,
        None => {
            return None;
        },
    };
    let (end, p): (Option<Timestamp>, usize) = match expect_byte(data, p, 44) {
        Some(np) => (None, np),
        None => {
            let (e, p2) = match parse_ts(data, p) {
                Some(v) => v,
                None => {
                    return None;
                },
            };
            let p3 = match expect_byte(data, p2, 44) {
                Some(v) => v,
                None => {
                    return None;
                },
            };
            (Some(e), p3)
        },
    };
    let (final_score, p) = match parse_u64(data, p) {
        Some(v) => v,
        None => {
            return None;
        },
    };
    let p = match expect_byte(data, p, 44) {
        Some(v) => v,
        None => {
            return None;
        },
    };
    let (tile, p) = match parse_u64(data, p) {
        Some(v) => v,
        None => {
            return None;
        },
    };
    let p = match expect_byte(data, p, 44) {
        Some(v) => v,
        None => {
            return None;
        },
    };
    let (total, p) = match parse_u64(data, p) {
        Some(v) => v,
        None => {
            return None;
        },
    };
    let p = match expect_byte(data, p, 44) {
        Some(v) => v,
        None => {
            return None;
        },
    };
    let (bad, p) = match parse_u64(data, p) {
        Some(v) => v,
        None => {
            return None;
        },
    };
    let p = match expect_byte(data, p, 44) {
        Some(v) => v,
        None => {
            return None;
        },
    };
    let (a, p) = match parse_u64(data, p) {
        Some(v) => v,
        None => {
            return None;
        },
    };
    let p = match expect_byte(data, p, 46) {
        Some(v) => v,
        None => {
            return None;
        },
    };
    let (b, p) = match parse_fixed(data, p, 2) {
        Some(v) => v,
        None => {
            return None;
        },
    };
    let p = match expect_byte(data, p, 10) {
        Some(v) => v,
        None => {
            return None;
        },
    };
    proof {
        crate::time::lemma_pow10_small();
    }
    if !(total <= u32::MAX as u64 && bad <= total && (b <= u64::MAX - 99) && a <= (u64::MAX - b)
        / 100) {
        proof {
            if total <= u32::MAX as u64 && bad <= total {
                assert(100 * (a as int) + b > u64::MAX as int) by (nonlinear_arith)
                    requires
                        a > ((u64::MAX - b) as u64 / 100u64) as int,
                        b <= 99,
                        ((u64::MAX - b) as u64 / 100u64) as int == ((u64::MAX - b) as int) / 100,
                ;
            }
        }
        return None;
    }
    proof {
        assert(100 * (a as int) + b <= u64::MAX as int) by (nonlinear_arith)
            requires
                a <= ((u64::MAX - b) as u64 / 100u64) as int,
                b <= 99,
                ((u64::MAX - b) as u64 / 100u64) as int == ((u64::MAX - b) as int) / 100,
        ;
    }
    let avg: u64 = 100 * a + b;
    let gs = GameSession {
        session_id: id_string(start),
        start_time: start,
        end_time: end,
        final_score,
        highest_tile: tile,
        total_moves: total as u32,
        bad_moves: bad as u32,
        average_time_centi_ms: avg,
    };
    Some((gs, p))
}

pub open spec fn spec_session_rows(ss: Seq<SessionModel>) -> Seq<u8>
    decreases ss.len(),
{
    if ss.len() == 0 {
        Seq::<u8>::empty()
    } else {
        spec_session_row(ss[0]) + spec_session_rows(ss.skip(1))
    }
}

pub proof fn lemma_session_row_len(s: SessionModel)
    ensures
        spec_session_row(s).len() >= 1,
{
    reveal(spec_session_row);
    assert(avg_fld(s.average_time_centi_ms).len() >= 1);
}

pub proof fn lemma_session_rows_len(ss: Seq<SessionModel>)
    ensures
        spec_session_rows(ss).len() >= ss.len(),
    decreases ss.len(),
{
    if ss.len() > 0 {
        lemma_session_rows_len(ss.skip(1));
        lemma_session_row_len(ss[0]);
    }
}

pub proof fn lemma_session_rows_snoc(ss: Seq<SessionModel>, s: SessionModel)
    ensures
        spec_session_rows(ss.push(s)) == spec_session_rows(ss) + spec_session_row(s),
    decreases ss.len(),
{
    if ss.len() == 0 {
        assert(ss.push(s) =~= seq![s]);
        assert(spec_session_rows(seq![s].skip(1)) == Seq::<u8>::empty()) by {
            assert(seq![s].skip(1) =~= Seq::<SessionModel>::empty());
        }
        assert(spec_session_rows(ss.push(s)) =~= spec_session_rows(ss) + spec_session_row(s));
    } else {
        lemma_session_rows_snoc(ss.skip(1), s);
        assert(ss.push(s).skip(1) =~= ss.skip(1).push(s));
        assert(ss.push(s)[0] == ss[0]);
        assert(spec_session_row(ss[0]) + (spec_session_rows(ss.skip(1)) + spec_session_row(s))
            =~= spec_session_rows(ss) + spec_session_row(s));
    }
}

/// Serialize an ordered collection of summaries, one row each: the monthly
/// aggregate file's whole content.
pub fn encode_session_rows(sessions: &Vec<GameSession>) -> (r: Vec<u8>)
    requires
        forall|i: int| 0 <= i < sessions@.len() ==> (#[trigger] sessions@[i])@.wf(),
    ensures
        r@ == spec_session_rows(sessions@.map_values(|g: GameSession| g@)),
{
    let ghost models = sessions@.map_values(|g: GameSession| g@);
    let mut out: Vec<u8> = Vec::new();
    let mut i: usize = 0;
    while i < sessions.len()
        invariant
            i <= sessions@.len(),
            models == sessions@.map_values(|g: GameSession| g@),
            forall|k: int| 0 <= k < sessions@.len() ==> (#[trigger] sessions@[k])@.wf(),
            out@ == spec_session_rows(models.take(i as int)),
        decreases sessions@.len() - i,
    {
        let mut row = encode_session_row(&sessions[i]);
        out.append(&mut row);
        proof {
            lemma_session_rows_snoc(models.take(i as int), models[i as int]);
            assert(models.take(i + 1) =~= models.take(i as int).push(models[i as int]));
        }
        i = i + 1;
    }
    proof {
        assert(models.take(models.len() as int) =~= models);
    }
    out
}

/// Parse summaries until the input is exhausted.
pub open spec fn spec_parse_session_rows(s: Seq<u8>, fuel: nat) -> Option<Seq<SessionModel>>
    decreases fuel,
{
    if s.len() == 0 {
        Some(Seq::<SessionModel>::empty())
    } else if fuel == 0 {
        None
    } else {
        match spec_parse_session_row(s) {
            None => None,
            Some((m, r)) => match spec_parse_session_rows(r, (fuel - 1) as nat) {
                None => None,
                Some(ms) => Some(seq![m] + ms),
            },
        }
    }
}

#[verifier::rlimit(100)]
#[verifier::spinoff_prover]
pub proof fn lemma_parse_session_rows(ss: Seq<SessionModel>, fuel: nat)
    requires
        forall|i: int| 0 <= i < ss.len() ==> (#[trigger] ss[i]).wf(),
        fuel >= ss.len(),
    ensures
        spec_parse_session_rows(spec_session_rows(ss), fuel) == Some(ss),
    decreases ss.len(),
{
    if ss.len() == 0 {
        assert(spec_session_rows(ss).len() == 0);
        assert(Seq::<SessionModel>::empty() =~= ss);
    } else {
        lemma_parse_session_row(ss[0], spec_session_rows(ss.skip(1)));
        lemma_session_row_len(ss[0]);
        assert(spec_session_rows(ss).len() > 0);
        assert(forall|i: int| 0 <= i < ss.skip(1).len() ==> (#[trigger] ss.skip(1)[i]).wf());
        lemma_parse_session_rows(ss.skip(1), (fuel - 1) as nat);
        assert(seq![ss[0]] + ss.skip(1) =~= ss);
    }
}

/// Appending one summary to a persisted monthly collection of size N, then
/// rewriting it, gives a file that reads back as a collection of size N + 1
/// whose last record is the new summary and whose first N records carry
/// every prior field value unchanged.
pub proof fn lemma_monthly_append_roundtrip(olds: Seq<SessionModel>, s: SessionModel)
    requires
        forall|i: int| 0 <= i < olds.len() ==> (#[trigger] olds[i]).wf(),
        s.wf(),
    ensures
        spec_parse_session_rows(
            spec_session_rows(olds.push(s)),
            spec_session_rows(olds.push(s)).len(),
        ) == Some(olds.push(s)),
        olds.push(s).len() == olds.len() + 1,
        olds.push(s).take(olds.len() as int) == olds,
        olds.push(s).last() == s,
{
    assert(forall|i: int| 0 <= i < olds.push(s).len() ==> (#[trigger] olds.push(s)[i]).wf());
    lemma_session_rows_len(olds.push(s));
    lemma_parse_session_rows(olds.push(s), spec_session_rows(olds.push(s)).len());
    assert(olds.push(s).take(olds.len() as int) =~= olds);
}

/// Load a summary collection from monthly-aggregate bytes. `None` exactly
/// when the bytes are not a well-formed collection.
#[verifier::rlimit(100)]
pub fn parse_session_rows(data: &Vec<u8>) -> (r: Option<Vec<GameSession>>)
    ensures
        match r {
            Some(v) => spec_parse_session_rows(data@, data@.len()) == Some(
                v@.map_values(|g: GameSession| g@),
            ) && (forall|i: int| 0 <= i < v@.len() ==> (#[trigger] v@[i])@.wf()),
            None => spec_parse_session_rows(data@, data@.len()) is None,
        },
{
    proof {
        assert(data@.skip(0) =~= data@);
    }
    let mut pos: usize = 0;
    let ghost mut fuel: nat = data@.len();
    let mut out: Vec<GameSession> = Vec::new();
    while pos < data.len()
        invariant
            pos <= data@.len(),
            fuel >= data@.len() - pos,
            forall|k: int| 0 <= k < out@.len() ==> (#[trigger] out@[k])@.wf(),
            spec_parse_session_rows(data@, data@.len()) == (match spec_parse_session_rows(
                data@.skip(pos as int),
                fuel,
            ) {
                None => None::<Seq<SessionModel>>,
                Some(ms) => Some(out@.map_values(|g: GameSession| g@) + ms),
            }),
        decreases data@.len() - pos,
    {
        proof {
            assert(data@.skip(pos as int).len() > 0);
        }
        let (gs, np) = match parse_session_row(data, pos) {
            Some(v) => v,
            None => {
                return None;
            },
        };
        let ghost prev = out@.map_values(|g: GameSession| g@);
        out.push(gs);
        proof {
            assert(out@.map_values(|g: GameSession| g@) =~= prev.push(gs@));
            assert forall|ms: Seq<SessionModel>|
                prev + (seq![gs@] + ms) =~= prev.push(gs@) + ms by {}
            fuel = (fuel - 1) as nat;
        }
        pos = np;
    }
    proof {
        assert(data@.skip(pos as int).len() == 0);
        assert(out@.map_values(|g: GameSession| g@) + Seq::<SessionModel>::empty()
            =~= out@.map_values(|g: GameSession| g@));
    }
    Some(out)
}

/// The cumulative ledger: the fixed header line, then one row per session.
pub open spec fn spec_parse_ledger(s: Seq<u8>) -> Option<Seq<SessionModel>> {
    match spec_expect_lit(s, ledger_header_line()) {
        None => None,
        Some(r) => spec_parse_session_rows(r, r.len()),
    }
}

/// Load the summaries of the cumulative ledger. `None` exactly when the
/// bytes are not a well-formed ledger.
#[verifier::rlimit(100)]
pub fn parse_ledger(data: &Vec<u8>) -> (r: Option<Vec<GameSession>>)
    ensures
        match r {
            Some(v) => spec_parse_ledger(data@) == Some(v@.map_values(|g: GameSession| g@)) && (
            forall|i: int| 0 <= i < v@.len() ==> (#[trigger] v@[i])@.wf()),
            None => spec_parse_ledger(data@) is None,
        },
{
    proof {
        reveal_strlit(
            "session_id,start_time,end_time,final_score,highest_tile,total_moves,bad_moves,average_time_per_move_ms",
        );
        assert(data@.skip(0) =~= data@);
    }
    let header = ledger_header_to_bytes();
    let mut pos = match expect_lit(data, 0, &header) {
        Some(v) => v,
        None => {
            return None;
        },
    };
    let ghost mut fuel: nat = data@.skip(pos as int).len();
    let mut out: Vec<GameSession> = Vec::new();
    while pos < data.len()
        invariant
            pos <= data@.len(),
            fuel >= data@.len() - pos,
            forall|k: int| 0 <= k < out@.len() ==> (#[trigger] out@[k])@.wf(),
            spec_parse_ledger(data@) == (match spec_parse_session_rows(
                data@.skip(pos as int),
                fuel,
            ) {
                None => None::<Seq<SessionModel>>,
                Some(ms) => Some(out@.map_values(|g: GameSession| g@) + ms),
            }),
        decreases data@.len() - pos,
    {
        proof {
            assert(data@.skip(pos as int).len() > 0);
        }
        let (gs, np) = match parse_session_row(data, pos) {
            Some(v) => v,
            None => {
                return None;
            },
        };
        let ghost prev = out@.map_values(|g: GameSession| g@);
        out.push(gs);
        proof {
            assert(out@.map_values(|g: GameSession| g@) =~= prev.push(gs@));
            assert forall|ms: Seq<SessionModel>|
                prev + (seq![gs@] + ms) =~= prev.push(gs@) + ms by {}
            fuel = (fuel - 1) as nat;
        }
        pos = np;
    }
    proof {
        assert(data@.skip(pos as int).len() == 0);
        assert(out@.map_values(|g: GameSession| g@) + Seq::<SessionModel>::empty()
            =~= out@.map_values(|g: GameSession| g@));
    }
    Some(out)
}

/// Reading a ledger written from well-formed summaries gives back the same
/// summaries, in order.
pub proof fn lemma_ledger_roundtrip(ss: Seq<SessionModel>)
    requires
        forall|i: int| 0 <= i < ss.len() ==> (#[trigger] ss[i]).wf(),
    ensures
        spec_parse_ledger(ledger_header_line() + spec_session_rows(ss)) == Some(ss),
{
    lemma_expect_lit(ledger_header_line(), spec_session_rows(ss));
    lemma_session_rows_len(ss);
    lemma_parse_session_rows(ss, spec_session_rows(ss).len());
}

} // verus!

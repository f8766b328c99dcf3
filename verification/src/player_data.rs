use vstd::prelude::*;
use crate::time::{Timestamp, id_chars, id_string, now_timestamp};
use crate::num::{isqrt, u64s_to_dec_list, dec_list_bytes, is_digit};
use crate::text::{chars_of, text_bytes, text_byte, ascii_string};

verus! {

/// Largest candidate-score magnitude the recorder accepts; keeps every
/// derived statistic exactly representable in machine words.
pub const SCORE_LIMIT: i64 = 0x2000_0000_0000;

/// The score recorded for a direction that would not change the board.
pub const SENTINEL_SCORE: i64 = -1;

pub open spec fn score_ok(s: i64) -> bool {
    -SCORE_LIMIT <= s <= SCORE_LIMIT
}

/// One of the four move directions.
#[derive(Clone, Copy, PartialEq, Eq, Structural, Debug)]
pub enum Direction {
    Up,
    Down,
    Left,
    Right,
}

pub open spec fn dir_chars(d: Direction) -> Seq<char> {
    match d {
        Direction::Up => "Up"@,
        Direction::Down => "Down"@,
        Direction::Left => "Left"@,
        Direction::Right => "Right"@,
    }
}

/// The name of a direction, as stored in the detailed log.
pub fn move_to_string(move_dir: Direction) -> (r: String)
    ensures
        r@ == dir_chars(move_dir),
{
    match move_dir {
        Direction::Up => "Up".to_owned(),
        Direction::Down => "Down".to_owned(),
        Direction::Left => "Left".to_owned(),
        Direction::Right => "Right".to_owned(),
    }
}

/// The flattened 4 by 4 board as comma-joined tile values.
pub open spec fn board_chars(tiles: Seq<u64>) -> Seq<char> {
    chars_of(dec_list_bytes(tiles))
}

pub fn board_to_string(board: &Vec<u64>) -> (r: String)
    ensures
        r@ == board_chars(board@),
{
    let bytes = u64s_to_dec_list(board);
    proof {
        lemma_dec_list_text(board@);
    }
    ascii_string(&bytes)
}

pub proof fn lemma_dec_list_text(ts: Seq<u64>)
    ensures
        text_bytes(dec_list_bytes(ts)),
    decreases ts.len(),
{
    if ts.len() == 0 {
    } else if ts.len() == 1 {
        crate::num::lemma_dec_digits_props(ts[0] as nat);
        assert forall|i: int| 0 <= i < dec_list_bytes(ts).len() implies text_byte(
            #[trigger] dec_list_bytes(ts)[i],
        ) by {
            assert(is_digit(crate::num::dec_digits(ts[0] as nat)[i]));
        }
    } else {
        crate::num::lemma_dec_digits_props(ts[0] as nat);
        lemma_dec_list_text(ts.skip(1));
        let d = crate::num::dec_digits(ts[0] as nat);
        let tail = dec_list_bytes(ts.skip(1));
        assert forall|i: int| 0 <= i < dec_list_bytes(ts).len() implies text_byte(
            #[trigger] dec_list_bytes(ts)[i],
        ) by {
            if i < d.len() {
                assert(dec_list_bytes(ts)[i] == d[i]);
                assert(is_digit(d[i]));
            } else if i == d.len() {
                assert(dec_list_bytes(ts)[i] == 44u8);
            } else {
                assert(dec_list_bytes(ts)[i] == tail[i - d.len() - 1]);
            }
        }
    }
}

pub open spec fn max2(a: int, b: int) -> int {
    if a >= b {
        a
    } else {
        b
    }
}

/// The best candidate score: the maximum over all four directions,
/// sentinel values included.
pub open spec fn best_of(u: int, d: int, l: int, r: int) -> int {
    max2(max2(max2(u, d), l), r)
}

/// The candidate score of the direction actually chosen.
pub open spec fn dir_score(u: int, d: int, l: int, r: int, dir: Direction) -> int {
    match dir {
        Direction::Up => u,
        Direction::Down => d,
        Direction::Left => l,
        Direction::Right => r,
    }
}

/// A move is bad when the best score is positive and the chosen score falls
/// more than a tenth below it: `(best - chosen) / best > 1/10`, written
/// without division.
pub open spec fn is_bad(best: int, chosen: int) -> bool {
    best > 0 && 10 * (best - chosen) > best
}

/// Numerator of the candidate-score dispersion: with `s` the sum of the four
/// scores, the population variance is this value over 64, so the standard
/// deviation is its square root over 8.
pub open spec fn dispersion_sq(u: int, d: int, l: int, r: int) -> int {
    let s = u + d + l + r;
    (4 * u - s) * (4 * u - s) + (4 * d - s) * (4 * d - s) + (4 * l - s) * (4 * l - s) + (4 * r - s)
        * (4 * r - s)
}

pub open spec fn is_floor_sqrt(v: int, n: int) -> bool {
    0 <= v && v * v <= n && (v + 1) * (v + 1) > n
}

/// One recorded move, as the ghost model of `MoveData`.
pub ghost struct MoveModel {
    pub timestamp: Timestamp,
    pub board: Seq<u64>,
    pub move_chosen: Direction,
    pub time_taken_ms: u64,
    pub up_score: i64,
    pub down_score: i64,
    pub left_score: i64,
    pub right_score: i64,
    pub best_score: i64,
    pub chosen_score: i64,
    pub variation_milli: u64,
    pub is_bad_move: bool,
    pub game_score: u64,
    pub move_number: u32,
}

impl MoveModel {
    /// Internal consistency of one record: sixteen tiles, bounded scores, and
    /// the derived fields exactly as the derivation rules give them. The
    /// dispersion is held in thousandths of a score unit, rounded down.
    pub open spec fn wf(self) -> bool {
        &&& self.timestamp.valid()
        &&& self.board.len() == 16
        &&& score_ok(self.up_score)
        &&& score_ok(self.down_score)
        &&& score_ok(self.left_score)
        &&& score_ok(self.right_score)
        &&& self.best_score == best_of(
            self.up_score as int,
            self.down_score as int,
            self.left_score as int,
            self.right_score as int,
        )
        &&& self.chosen_score == dir_score(
            self.up_score as int,
            self.down_score as int,
            self.left_score as int,
            self.right_score as int,
            self.move_chosen,
        )
        &&& self.is_bad_move == is_bad(self.best_score as int, self.chosen_score as int)
        &&& is_floor_sqrt(
            self.variation_milli as int,
            dispersion_sq(
                self.up_score as int,
                self.down_score as int,
                self.left_score as int,
                self.right_score as int,
            ) * 15625,
        )
    }
}

/// One recorded move. The candidate scores are whole score units; the
/// dispersion is kept in thousandths.
pub struct MoveData {
    pub timestamp: Timestamp,
    pub board_state: Vec<u64>,
    pub move_chosen: Direction,
    pub time_taken_ms: u64,
    pub up_score: i64,
    pub down_score: i64,
    pub left_score: i64,
    pub right_score: i64,
    pub best_score: i64,
    pub chosen_score: i64,
    pub variation_milli: u64,
    pub is_bad_move: bool,
    pub game_score: u64,
    pub move_number: u32,
}

impl View for MoveData {
    type V = MoveModel;

    open spec fn view(&self) -> MoveModel {
        MoveModel {
            timestamp: self.timestamp,
            board: self.board_state@,
            move_chosen: self.move_chosen,
            time_taken_ms: self.time_taken_ms,
            up_score: self.up_score,
            down_score: self.down_score,
            left_score: self.left_score,
            right_score: self.right_score,
            best_score: self.best_score,
            chosen_score: self.chosen_score,
            variation_milli: self.variation_milli,
            is_bad_move: self.is_bad_move,
            game_score: self.game_score,
            move_number: self.move_number,
        }
    }
}

/// Count of bad moves in a recorded sequence.
pub open spec fn count_bad(es: Seq<MoveModel>) -> nat
    decreases es.len(),
{
    if es.len() == 0 {
        0
    } else {
        count_bad(es.drop_last()) + if es.last().is_bad_move {
            1nat
        } else {
            0nat
        }
    }
}

/// Total decision time of a recorded sequence, in milliseconds.
pub open spec fn sum_time(es: Seq<MoveModel>) -> int
    decreases es.len(),
{
    if es.len() == 0 {
        0
    } else {
        sum_time(es.drop_last()) + es.last().time_taken_ms
    }
}

pub proof fn lemma_sum_time_nonneg(es: Seq<MoveModel>)
    ensures
        sum_time(es) >= 0,
    decreases es.len(),
{
    if es.len() > 0 {
        lemma_sum_time_nonneg(es.drop_last());
    }
}

/// With every direction blocked (all four candidate scores at the
/// sentinel), a move is never counted as bad, whatever direction was chosen.
pub proof fn lemma_no_legal_move_not_bad(d: Direction)
    ensures
        !is_bad(
            best_of(
                SENTINEL_SCORE as int,
                SENTINEL_SCORE as int,
                SENTINEL_SCORE as int,
                SENTINEL_SCORE as int,
            ),
            dir_score(
                SENTINEL_SCORE as int,
                SENTINEL_SCORE as int,
                SENTINEL_SCORE as int,
                SENTINEL_SCORE as int,
                d,
            ),
        ),
{
}

/// In any recorded sequence there are no more bad moves than moves.
pub proof fn lemma_bad_moves_le_total(es: Seq<MoveModel>)
    ensures
        0 <= count_bad(es) <= es.len(),
    decreases es.len(),
{
    if es.len() > 0 {
        lemma_bad_moves_le_total(es.drop_last());
    }
}

/// Per-session aggregate record, as the ghost model of `GameSession`.
pub ghost struct SessionModel {
    pub session_id: Seq<char>,
    pub start_time: Timestamp,
    pub end_time: Option<Timestamp>,
    pub final_score: u64,
    pub highest_tile: u64,
    pub total_moves: u32,
    pub bad_moves: u32,
    pub average_time_centi_ms: u64,
}

impl SessionModel {
    /// The identifier is derived from the start time, the timestamps are in
    /// range, and there are no more bad moves than moves.
    pub open spec fn wf(self) -> bool {
        &&& self.start_time.valid()
        &&& self.session_id == id_chars(self.start_time)
        &&& match self.end_time {
            Some(t) => t.valid(),
            None => true,
        }
        &&& self.bad_moves <= self.total_moves
    }
}

/// One completed session's aggregate statistics. The average decision time
/// is kept in hundredths of a millisecond, rounded down.
pub struct GameSession {
    pub session_id: String,
    pub start_time: Timestamp,
    pub end_time: Option<Timestamp>,
    pub final_score: u64,
    pub highest_tile: u64,
    pub total_moves: u32,
    pub bad_moves: u32,
    pub average_time_centi_ms: u64,
}

impl View for GameSession {
    type V = SessionModel;

    open spec fn view(&self) -> SessionModel {
        SessionModel {
            session_id: self.session_id@,
            start_time: self.start_time,
            end_time: self.end_time,
            final_score: self.final_score,
            highest_tile: self.highest_tile,
            total_moves: self.total_moves,
            bad_moves: self.bad_moves,
            average_time_centi_ms: self.average_time_centi_ms,
        }
    }
}

/// Ghost model of the recorder: its identifier, start time and events.
pub ghost struct RecorderModel {
    pub session_id: Seq<char>,
    pub session_start: Timestamp,
    pub events: Seq<MoveModel>,
}

/// Accumulates one telemetry record per committed move, in memory.
pub struct PlayerDataRecorder {
    session_id: String,
    moves_data: Vec<MoveData>,
    session_start: Timestamp,
}

impl View for PlayerDataRecorder {
    type V = RecorderModel;

    closed spec fn view(&self) -> RecorderModel {
        RecorderModel {
            session_id: self.session_id@,
            session_start: self.session_start,
            events: self.moves_data@.map_values(|m: MoveData| m@),
        }
    }
}

impl PlayerDataRecorder {
    /// The identifier is derived from the start time, every event is
    /// internally consistent, and events carry their one-based index order.
    pub open spec fn wf(self) -> bool {
        &&& self@.session_start.valid()
        &&& self@.session_id == id_chars(self@.session_start)
        &&& forall|i: int| 0 <= i < self@.events.len() ==> (#[trigger] self@.events[i]).wf()
    }

    /// Opens a session stamped with the current wall-clock time.
    pub fn new() -> (r: Self)
        ensures
            r.wf(),
            r@.events.len() == 0,
    {
        let start = now_timestamp();
        let id = id_string(start);
        let r = PlayerDataRecorder { session_id: id, moves_data: Vec::new(), session_start: start };
        proof {
            assert(r@.events =~= Seq::<MoveModel>::empty());
        }
        r
    }

    pub fn get_session_id(&self) -> (r: &str)
        ensures
            r@ == self@.session_id,
    {
        self.session_id.as_str()
    }

    /// Appends one move event. The derived fields of the new event follow the
    /// derivation rules exactly: the best score is the sentinel-inclusive
    /// maximum, the chosen score is the chosen direction's candidate score,
    /// the bad-move flag marks a relative loss of more than a tenth against a
    /// positive best, and the dispersion is the population standard deviation
    /// of all four candidate scores, in thousandths, rounded down.
    pub fn record_move(
        &mut self,
        board: Vec<u64>,
        move_chosen: Direction,
        time_taken_ms: u64,
        move_scores: [i64; 4],
        game_score: u64,
        move_number: u32,
    )
        requires
            old(self).wf(),
            board@.len() == 16,
            forall|i: int| 0 <= i < 4 ==> score_ok(#[trigger] move_scores@[i]),
        ensures
            final(self).wf(),
            final(self)@.session_id == old(self)@.session_id,
            final(self)@.session_start == old(self)@.session_start,
            final(self)@.events.len() == old(self)@.events.len() + 1,
            final(self)@.events.take(old(self)@.events.len() as int) == old(self)@.events,
            ({
                let e = final(self)@.events.last();
                &&& e.board == board@
                &&& e.move_chosen == move_chosen
                &&& e.time_taken_ms == time_taken_ms
                &&& e.up_score == move_scores@[0]
                &&& e.down_score == move_scores@[1]
                &&& e.left_score == move_scores@[2]
                &&& e.right_score == move_scores@[3]
                &&& e.best_score == best_of(
                    move_scores@[0] as int,
                    move_scores@[1] as int,
                    move_scores@[2] as int,
                    move_scores@[3] as int,
                )
                &&& e.chosen_score == dir_score(
                    move_scores@[0] as int,
                    move_scores@[1] as int,
                    move_scores@[2] as int,
                    move_scores@[3] as int,
                    move_chosen,
                )
                &&& e.is_bad_move == is_bad(e.best_score as int, e.chosen_score as int)
                &&& is_floor_sqrt(
                    e.variation_milli as int,
                    dispersion_sq(
                        move_scores@[0] as int,
                        move_scores@[1] as int,
                        move_scores@[2] as int,
                        move_scores@[3] as int,
                    ) * 15625,
                )
                &&& e.game_score == game_score
                &&& e.move_number == move_number
            }),
    {
        let up_score = move_scores[0];
        let down_score = move_scores[1];
        let left_score = move_scores[2];
        let right_score = move_scores[3];

        let mut best_score = up_score;
        if down_score > best_score {
            best_score = down_score;
        }
        if left_score > best_score {
            best_score = left_score;
        }
        if right_score > best_score {
            best_score = right_score;
        }

        let chosen_score = match move_chosen {
            Direction::Up => up_score,
            Direction::Down => down_score,
            Direction::Left => left_score,
            Direction::Right => right_score,
        };

        let s: i64 = up_score + down_score + left_score + right_score;
        let du: i128 = 4 * (up_score as i128) - (s as i128);
        let dd: i128 = 4 * (down_score as i128) - (s as i128);
        let dl: i128 = 4 * (left_score as i128) - (s as i128);
        let dr: i128 = 4 * (right_score as i128) - (s as i128);
        proof {
            lemma_square_bound(du as int, 0x1_0000_0000_0000);
            lemma_square_bound(dd as int, 0x1_0000_0000_0000);
            lemma_square_bound(dl as int, 0x1_0000_0000_0000);
            lemma_square_bound(dr as int, 0x1_0000_0000_0000);
        }
        let disp_sq: i128 = du * du + dd * dd + dl * dl + dr * dr;
        let variation_milli_wide = isqrt((disp_sq as u128) * 15625);
        proof {
            lemma_sqrt_small(
                variation_milli_wide as int,
                (disp_sq as int) * 15625,
                0x100_0000_0000_0000,
            );
        }
        let variation_milli: u64 = variation_milli_wide as u64;

        let is_bad_move = if best_score > 0 {
            10 * (best_score - chosen_score) > best_score
        } else {
            false
        };

        let event = MoveData {
            timestamp: now_timestamp(),
            board_state: board,
            move_chosen,
            time_taken_ms,
            up_score,
            down_score,
            left_score,
            right_score,
            best_score,
            chosen_score,
            variation_milli,
            is_bad_move,
            game_score,
            move_number,
        };
        let ghost prev = self@.events;
        self.moves_data.push(event);
        proof {
            assert(self@.events =~= prev.push(event@));
            assert(self@.events.take(prev.len() as int) =~= prev);
        }
    }

    pub fn session_start(&self) -> (r: Timestamp)
        ensures
            r == self@.session_start,
    {
        self.session_start
    }

    pub fn moves(&self) -> (r: &Vec<MoveData>)
        ensures
            r@.map_values(|m: MoveData| m@) == self@.events,
    {
        &self.moves_data
    }
}

/// Why a top-level operation failed, by sink.
#[derive(PartialEq, Eq, Structural, Debug, Clone, Copy)]
pub enum TelemetryError {
    MalformedMoveLog,
    MalformedAggregate,
    MalformedLedger,
}

/// Everything one finalization writes, one sink per field. The caller
/// performs the writes in order: detailed log first, then the rewritten
/// monthly aggregate, then the ledger append; a failure between writes
/// leaves the earlier sinks written, which is accepted.
pub struct SessionArtifacts {
    pub moves_csv: Vec<u8>,
    pub monthly: Vec<u8>,
    pub monthly_key: String,
    pub ledger_row: Vec<u8>,
    pub ledger_header: Vec<u8>,
    pub summary: GameSession,
}

impl PlayerDataRecorder {
    /// Count of bad moves among the events recorded so far.
    pub fn count_bad_moves(&self) -> (r: usize)
        ensures
            r == count_bad(self@.events),
    {
        let mut n: usize = 0;
        let mut i: usize = 0;
        let events = self.moves();
        while i < events.len()
            invariant
                i <= events@.len(),
                events@.map_values(|m: MoveData| m@) == self@.events,
                n == count_bad(self@.events.take(i as int)),
                n <= i,
            decreases events@.len() - i,
        {
            proof {
                assert(self@.events.take(i + 1).drop_last() =~= self@.events.take(i as int));
                assert(self@.events.take(i + 1).last() == events@[i as int]@);
            }
            if events[i].is_bad_move {
                n = n + 1;
            }
            i = i + 1;
        }
        proof {
            assert(self@.events.take(events@.len() as int) =~= self@.events);
        }
        n
    }

    /// Total decision time of the events recorded so far, in milliseconds.
    pub fn total_time_ms(&self) -> (r: u128)
        ensures
            r == sum_time(self@.events),
    {
        let mut t: u128 = 0;
        let mut i: usize = 0;
        let events = self.moves();
        while i < events.len()
            invariant
                i <= events@.len(),
                events@.map_values(|m: MoveData| m@) == self@.events,
                t == sum_time(self@.events.take(i as int)),
                t <= i * 0xffff_ffff_ffff_ffff,
            decreases events@.len() - i,
        {
            proof {
                assert(self@.events.take(i + 1).drop_last() =~= self@.events.take(i as int));
                assert(self@.events.take(i + 1).last() == events@[i as int]@);
                assert((i + 1) * 0xffff_ffff_ffff_ffff == i * 0xffff_ffff_ffff_ffff
                    + 0xffff_ffff_ffff_ffff) by (nonlinear_arith);
            }
            t = t + (events[i].time_taken_ms as u128);
            i = i + 1;
        }
        proof {
            assert(self@.events.take(events@.len() as int) =~= self@.events);
        }
        t
    }

    /// Finalize the session: serialize the detailed log, compute the summary,
    /// merge it into the monthly collection handed in (its current file
    /// content, or nothing when the file does not exist), and render the
    /// ledger row and header. The only failure is a malformed monthly
    /// collection; the caller then aborts without writing the aggregates.
    #[verifier::rlimit(100)]
    pub fn save_session_data(
        &self,
        final_score: u64,
        highest_tile: u64,
        existing_monthly: Option<&Vec<u8>>,
    ) -> (r: Result<SessionArtifacts, TelemetryError>)
        requires
            self.wf(),
            self@.events.len() <= u32::MAX,
            sum_time(self@.events) * 100 <= u64::MAX,
        ensures
            match existing_monthly {
                None => r is Ok,
                Some(bytes) => r is Ok <==> crate::codec::spec_parse_session_rows(
                    bytes@,
                    bytes@.len(),
                ) is Some,
            },
            r is Err ==> r->Err_0 == TelemetryError::MalformedAggregate,
            r is Ok ==> ({
                let a = r->Ok_0;
                let m = a.summary@;
                &&& m.wf()
                &&& m.start_time == self@.session_start
                &&& m.session_id == self@.session_id
                &&& m.end_time is Some
                &&& m.final_score == final_score
                &&& m.highest_tile == highest_tile
                &&& m.total_moves == self@.events.len()
                &&& m.bad_moves == count_bad(self@.events)
                &&& m.average_time_centi_ms == (if self@.events.len() == 0 {
                    0int
                } else {
                    (100 * sum_time(self@.events)) / (self@.events.len() as int)
                })
                &&& a.moves_csv@ == crate::codec::spec_moves_csv(self@.events)
                &&& a.ledger_row@ == crate::codec::spec_session_row(m)
                &&& a.ledger_header@ == crate::codec::ledger_header_line()
                &&& a.monthly_key@ == chars_of(crate::time::month_key_bytes(self@.session_start))
                &&& (match existing_monthly {
                    None => a.monthly@ == crate::codec::spec_session_rows(seq![m]),
                    Some(bytes) => a.monthly@ == crate::codec::spec_session_rows(
                        crate::codec::spec_parse_session_rows(
                            bytes@,
                            bytes@.len(),
                        )->Some_0.push(m),
                    ),
                })
            }),
    {
        proof {
            assert forall|i: int| 0 <= i < self.moves_data@.len() implies (#[trigger] self
                .moves_data@[i])@.wf() by {
                assert(self@.events[i] == self.moves_data@[i]@);
            }
        }
        let moves_csv = crate::codec::encode_moves_csv(&self.moves_data);
        let total_moves = self.moves_data.len() as u32;
        let bad_moves = self.count_bad_moves() as u32;
        let total_time = self.total_time_ms();
        let average_time_centi_ms: u64 = if total_moves == 0 {
            0
        } else {
            ((100 * total_time) / (total_moves as u128)) as u64
        };
        proof {
            if total_moves != 0 {
                assert(sum_time(self@.events) >= 0) by {
                    lemma_sum_time_nonneg(self@.events);
                }
                vstd::arithmetic::div_mod::lemma_div_nonincreasing(
                    100 * sum_time(self@.events),
                    self@.events.len() as int,
                );
            }
            lemma_bad_moves_le_total(self@.events);
        }
        let end_time = now_timestamp();
        let summary = GameSession {
            session_id: id_string(self.session_start),
            start_time: self.session_start,
            end_time: Some(end_time),
            final_score,
            highest_tile,
            total_moves,
            bad_moves,
            average_time_centi_ms,
        };
        let mut sessions: Vec<GameSession> = match existing_monthly {
            None => Vec::new(),
            Some(bytes) => match crate::codec::parse_session_rows(bytes) {
                Some(v) => v,
                None => {
                    return Err(TelemetryError::MalformedAggregate);
                },
            },
        };
        let ghost olds = sessions@.map_values(|g: GameSession| g@);
        let ledger_row = crate::codec::encode_session_row(&summary);
        let ghost m = summary@;
        sessions.push(summary);
        proof {
            assert(sessions@.map_values(|g: GameSession| g@) =~= olds.push(m));
            assert(forall|i: int|
                0 <= i < sessions@.len() ==> (#[trigger] sessions@[i])@.wf());
        }
        let monthly = crate::codec::encode_session_rows(&sessions);
        let monthly_key_bytes = crate::time::month_key_to_bytes(self.session_start);
        proof {
            lemma_month_key_text(self@.session_start);
        }
        let monthly_key = crate::text::ascii_string(&monthly_key_bytes);
        let ledger_header = crate::codec::ledger_header_to_bytes();
        let a = SessionArtifacts {
            moves_csv,
            monthly,
            monthly_key,
            ledger_row,
            ledger_header,
            summary: sessions.pop().unwrap(),
        };
        proof {
            assert(a.summary@ == m);
            assert(m.wf());
            assert(m.total_moves == self@.events.len());
            assert(m.bad_moves == count_bad(self@.events));
            assert(m.average_time_centi_ms == (if self@.events.len() == 0 {
                0int
            } else {
                (100 * sum_time(self@.events)) / (self@.events.len() as int)
            }));
            assert(a.moves_csv@ == crate::codec::spec_moves_csv(self@.events));
            assert(a.ledger_row@ == crate::codec::spec_session_row(m));
            assert(a.monthly@ == crate::codec::spec_session_rows(olds.push(m)));
            if existing_monthly is None {
                assert(olds =~= Seq::<SessionModel>::empty());
                assert(olds.push(m) =~= seq![m]);
            }
            assert(a.monthly_key@ == chars_of(crate::time::month_key_bytes(self@.session_start)));
        }
        Ok(a)
    }
}

pub proof fn lemma_month_key_text(t: Timestamp)
    requires
        t.valid(),
    ensures
        text_bytes(crate::time::month_key_bytes(t)),
{
    crate::time::lemma_pow10_small();
    crate::num::lemma_pad_digits_props(t.year as nat, 4);
    crate::num::lemma_pad_digits_props(t.month as nat, 2);
    let s = crate::time::month_key_bytes(t);
    assert forall|i: int| 0 <= i < s.len() implies text_byte(#[trigger] s[i]) by {
        if i < 4 {
            assert(s[i] == crate::num::pad_digits(t.year as nat, 4)[i]);
        } else {
            assert(s[i] == crate::num::pad_digits(t.month as nat, 2)[i - 4]);
        }
    }
}

proof fn lemma_square_bound(x: int, b: int)
    requires
        -b <= x <= b,
        b >= 0,
    ensures
        0 <= x * x <= b * b,
{
    assert(0 <= x * x <= b * b) by (nonlinear_arith)
        requires
            -b <= x <= b,
            b >= 0,
    ;
}

proof fn lemma_sqrt_small(v: int, n: int, b: int)
    requires
        0 <= v,
        v * v <= n,
        (v + 1) * (v + 1) > n,
        0 <= n < b * b,
        b >= 1,
    ensures
        v < b,
{
    if v >= b {
        assert(v * v >= b * b) by (nonlinear_arith)
            requires
                v >= b >= 1,
        ;
    }
}

} // verus!

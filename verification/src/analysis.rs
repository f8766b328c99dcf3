use vstd::prelude::*;
use crate::player_data::{
    MoveData, MoveModel, GameSession, SessionModel, Direction, TelemetryError, count_bad,
    sum_time,
};
use crate::codec::{parse_moves_csv, parse_ledger, spec_parse_moves_csv, spec_parse_ledger};

verus! {

pub open spec fn sum_loss(es: Seq<MoveModel>) -> int
    decreases es.len(),
{
    if es.len() == 0 {
        0
    } else {
        sum_loss(es.drop_last()) + (es.last().best_score - es.last().chosen_score)
    }
}

pub open spec fn sum_variation(es: Seq<MoveModel>) -> int
    decreases es.len(),
{
    if es.len() == 0 {
        0
    } else {
        sum_variation(es.drop_last()) + es.last().variation_milli
    }
}

pub open spec fn min_time(es: Seq<MoveModel>) -> int
    decreases es.len(),
{
    if es.len() == 0 {
        u64::MAX as int
    } else if es.last().time_taken_ms < min_time(es.drop_last()) {
        es.last().time_taken_ms as int
    } else {
        min_time(es.drop_last())
    }
}

pub open spec fn max_time(es: Seq<MoveModel>) -> int
    decreases es.len(),
{
    if es.len() == 0 {
        0
    } else if es.last().time_taken_ms > max_time(es.drop_last()) {
        es.last().time_taken_ms as int
    } else {
        max_time(es.drop_last())
    }
}

pub open spec fn count_dir(es: Seq<MoveModel>, d: Direction) -> nat
    decreases es.len(),
{
    if es.len() == 0 {
        0
    } else {
        count_dir(es.drop_last(), d) + if es.last().move_chosen == d {
            1nat
        } else {
            0nat
        }
    }
}

/// Descriptive statistics of one detailed log, all exact: sums and counts,
/// with the progression split at half the move count.
pub struct MoveStats {
    pub count: usize,
    pub bad_moves: usize,
    pub total_time_ms: u128,
    pub min_time_ms: u64,
    pub max_time_ms: u64,
    pub loss_sum: i128,
    pub variation_milli_sum: u128,
    pub up_moves: usize,
    pub down_moves: usize,
    pub left_moves: usize,
    pub right_moves: usize,
    pub mid: usize,
    pub early_bad_moves: usize,
    pub late_bad_moves: usize,
    pub early_time_ms: u128,
    pub late_time_ms: u128,
}

/// Compute the per-move statistics of an ordered event sequence: counts,
/// timing extremes and totals, decision quality, move preferences, and the
/// early-against-late progression split at index `n / 2`.
#[verifier::rlimit(100)]
pub fn compute_move_stats(events: &Vec<MoveData>) -> (r: MoveStats)
    requires
        events@.len() <= 0x10_0000_0000_0000,
    ensures
        ({
            let es = events@.map_values(|m: MoveData| m@);
            let mid = es.len() as int / 2;
            &&& r.count == es.len()
            &&& r.bad_moves == count_bad(es)
            &&& r.total_time_ms == sum_time(es)
            &&& es.len() > 0 ==> r.min_time_ms == min_time(es) && r.max_time_ms == max_time(es)
            &&& r.loss_sum == sum_loss(es)
            &&& r.variation_milli_sum == sum_variation(es)
            &&& r.up_moves == count_dir(es, Direction::Up)
            &&& r.down_moves == count_dir(es, Direction::Down)
            &&& r.left_moves == count_dir(es, Direction::Left)
            &&& r.right_moves == count_dir(es, Direction::Right)
            &&& r.mid == mid
            &&& r.early_bad_moves == count_bad(es.take(mid))
            &&& r.late_bad_moves == count_bad(es.skip(mid))
            &&& r.early_time_ms == sum_time(es.take(mid))
            &&& r.late_time_ms == sum_time(es.skip(mid))
        }),
{
    let ghost es = events@.map_values(|m: MoveData| m@);
    let mut bad: usize = 0;
    let mut total: u128 = 0;
    let mut min_t: u64 = u64::MAX;
    let mut max_t: u64 = 0;
    let mut loss: i128 = 0;
    let mut var: u128 = 0;
    let mut up: usize = 0;
    let mut down: usize = 0;
    let mut left: usize = 0;
    let mut right: usize = 0;
    let mut i: usize = 0;
    while i < events.len()
        invariant
            i <= events@.len(),
            es == events@.map_values(|m: MoveData| m@),
            bad == count_bad(es.take(i as int)) && bad <= i,
            total == sum_time(es.take(i as int)) && total <= i * 0xffff_ffff_ffff_ffff,
            min_t == min_time(es.take(i as int)),
            max_t == max_time(es.take(i as int)),
            loss == sum_loss(es.take(i as int)),
            -(i * 0x1_0000_0000_0000_0000) <= loss <= i * 0x1_0000_0000_0000_0000,
            events@.len() <= 0x10_0000_0000_0000,
            var == sum_variation(es.take(i as int)) && var <= i * 0xffff_ffff_ffff_ffff,
            up == count_dir(es.take(i as int), Direction::Up) && up <= i,
            down == count_dir(es.take(i as int), Direction::Down) && down <= i,
            left == count_dir(es.take(i as int), Direction::Left) && left <= i,
            right == count_dir(es.take(i as int), Direction::Right) && right <= i,
        decreases events@.len() - i,
    {
        proof {
            assert(es.take(i + 1).drop_last() =~= es.take(i as int));
            assert(es.take(i + 1).last() == events@[i as int]@);
            assert((i + 1) * 0xffff_ffff_ffff_ffff == i * 0xffff_ffff_ffff_ffff
                + 0xffff_ffff_ffff_ffff) by (nonlinear_arith);
            assert((i + 1) * 0x1_0000_0000_0000_0000 == i * 0x1_0000_0000_0000_0000
                + 0x1_0000_0000_0000_0000) by (nonlinear_arith);
        }
        let e = &events[i];
        if e.is_bad_move {
            bad = bad + 1;
        }
        total = total + (e.time_taken_ms as u128);
        if e.time_taken_ms < min_t {
            min_t = e.time_taken_ms;
        }
        if e.time_taken_ms > max_t {
            max_t = e.time_taken_ms;
        }
        loss = loss + (e.best_score as i128) - (e.chosen_score as i128);
        var = var + (e.variation_milli as u128);
        match e.move_chosen {
            Direction::Up => {
                up = up + 1;
            },
            Direction::Down => {
                down = down + 1;
            },
            Direction::Left => {
                left = left + 1;
            },
            Direction::Right => {
                right = right + 1;
            },
        }
        i = i + 1;
    }
    proof {
        assert(es.take(es.len() as int) =~= es);
    }
    let mid = events.len() / 2;
    let mut early_bad: usize = 0;
    let mut late_bad: usize = 0;
    let mut early_time: u128 = 0;
    let mut late_time: u128 = 0;
    let mut j: usize = 0;
    while j < mid
        invariant
            j <= mid <= events@.len(),
            es == events@.map_values(|m: MoveData| m@),
            early_bad == count_bad(es.take(mid as int).take(j as int)) && early_bad <= j,
            early_time == sum_time(es.take(mid as int).take(j as int)) && early_time <= j
                * 0xffff_ffff_ffff_ffff,
        decreases mid - j,
    {
        proof {
            assert(es.take(mid as int).take(j + 1).drop_last() =~= es.take(mid as int).take(
                j as int,
            ));
            assert(es.take(mid as int).take(j + 1).last() == events@[j as int]@);
            assert((j + 1) * 0xffff_ffff_ffff_ffff == j * 0xffff_ffff_ffff_ffff
                + 0xffff_ffff_ffff_ffff) by (nonlinear_arith);
        }
        if events[j].is_bad_move {
            early_bad = early_bad + 1;
        }
        early_time = early_time + (events[j].time_taken_ms as u128);
        j = j + 1;
    }
    proof {
        assert(es.take(mid as int).take(mid as int) =~= es.take(mid as int));
    }
    let mut k: usize = mid;
    while k < events.len()
        invariant
            mid <= k <= events@.len(),
            es == events@.map_values(|m: MoveData| m@),
            late_bad == count_bad(es.skip(mid as int).take(k - mid)) && late_bad <= k,
            late_time == sum_time(es.skip(mid as int).take(k - mid)) && late_time <= k
                * 0xffff_ffff_ffff_ffff,
        decreases events@.len() - k,
    {
        proof {
            assert(es.skip(mid as int).take(k - mid + 1).drop_last() =~= es.skip(mid as int).take(
                k - mid,
            ));
            assert(es.skip(mid as int).take(k - mid + 1).last() == events@[k as int]@);
            assert((k + 1) * 0xffff_ffff_ffff_ffff == k * 0xffff_ffff_ffff_ffff
                + 0xffff_ffff_ffff_ffff) by (nonlinear_arith);
            assert(k * 0xffff_ffff_ffff_ffff >= 0) by (nonlinear_arith);
        }
        if events[k].is_bad_move {
            late_bad = late_bad + 1;
        }
        late_time = late_time + (events[k].time_taken_ms as u128);
        k = k + 1;
    }
    proof {
        assert(es.skip(mid as int).take(es.len() - mid) =~= es.skip(mid as int));
    }
    MoveStats {
        count: events.len(),
        bad_moves: bad,
        total_time_ms: total,
        min_time_ms: min_t,
        max_time_ms: max_t,
        loss_sum: loss,
        variation_milli_sum: var,
        up_moves: up,
        down_moves: down,
        left_moves: left,
        right_moves: right,
        mid,
        early_bad_moves: early_bad,
        late_bad_moves: late_bad,
        early_time_ms: early_time,
        late_time_ms: late_time,
    }
}

/// Analyze one detailed log. An unparseable file is the error; a parseable
/// log with no moves is not, and yields no statistics.
pub fn analyze_player_data(data: &Vec<u8>) -> (r: Result<Option<MoveStats>, TelemetryError>)
    ensures
        r is Ok <==> (spec_parse_moves_csv(data@) matches Some(es) && es.len()
            <= 0x10_0000_0000_0000),
        r is Err ==> r->Err_0 == TelemetryError::MalformedMoveLog,
        r is Ok ==> ({
            let es = spec_parse_moves_csv(data@)->Some_0;
            match r->Ok_0 {
                None => es.len() == 0,
                Some(st) => es.len() > 0 && st.count == es.len() && st.bad_moves == count_bad(es)
                    && st.total_time_ms == sum_time(es) && st.mid == es.len() as int / 2
                    && st.early_bad_moves == count_bad(es.take(es.len() as int / 2))
                    && st.late_bad_moves == count_bad(es.skip(es.len() as int / 2))
                    && st.early_time_ms == sum_time(es.take(es.len() as int / 2))
                    && st.late_time_ms == sum_time(es.skip(es.len() as int / 2))
                    && st.min_time_ms == min_time(es) && st.max_time_ms == max_time(es)
                    && st.loss_sum == sum_loss(es) && st.variation_milli_sum == sum_variation(es)
                    && st.up_moves == count_dir(es, Direction::Up) && st.down_moves == count_dir(
                    es,
                    Direction::Down,
                ) && st.left_moves == count_dir(es, Direction::Left) && st.right_moves
                    == count_dir(es, Direction::Right),
            }
        }),
{
    let events = match parse_moves_csv(data) {
        Some(v) => v,
        None => {
            return Err(TelemetryError::MalformedMoveLog);
        },
    };
    if events.len() as u64 > 0x10_0000_0000_0000u64 {
        return Err(TelemetryError::MalformedMoveLog);
    }
    if events.len() == 0 {
        return Ok(None);
    }
    Ok(Some(compute_move_stats(&events)))
}

/// The bad-move rate of one session in millionths, rounded down; a session
/// with no moves counts as rate zero.
pub open spec fn session_rate_micro(s: SessionModel) -> int {
    if s.total_moves == 0 {
        0
    } else {
        (s.bad_moves * 1000000) as int / (s.total_moves as int)
    }
}

pub open spec fn sum_rate_micro(ss: Seq<SessionModel>) -> int
    decreases ss.len(),
{
    if ss.len() == 0 {
        0
    } else {
        sum_rate_micro(ss.drop_last()) + session_rate_micro(ss.last())
    }
}

pub open spec fn sum_final(ss: Seq<SessionModel>) -> int
    decreases ss.len(),
{
    if ss.len() == 0 {
        0
    } else {
        sum_final(ss.drop_last()) + ss.last().final_score
    }
}

pub open spec fn sum_moves(ss: Seq<SessionModel>) -> int
    decreases ss.len(),
{
    if ss.len() == 0 {
        0
    } else {
        sum_moves(ss.drop_last()) + ss.last().total_moves
    }
}

pub open spec fn max_final(ss: Seq<SessionModel>) -> int
    decreases ss.len(),
{
    if ss.len() == 0 {
        0
    } else if ss.last().final_score > max_final(ss.drop_last()) {
        ss.last().final_score as int
    } else {
        max_final(ss.drop_last())
    }
}

pub open spec fn max_tile(ss: Seq<SessionModel>) -> int
    decreases ss.len(),
{
    if ss.len() == 0 {
        0
    } else if ss.last().highest_tile > max_tile(ss.drop_last()) {
        ss.last().highest_tile as int
    } else {
        max_tile(ss.drop_last())
    }
}

/// Cross-session statistics of the cumulative ledger. The mean bad-move
/// rate is the average of the per-session rates, not the ratio of summed
/// counts, in millionths.
pub struct SessionStats {
    pub count: usize,
    pub final_score_sum: u128,
    pub max_final_score: u64,
    pub max_highest_tile: u64,
    pub total_moves_sum: u128,
    pub bad_rate_micro_sum: u128,
    pub mean_bad_rate_micro: u64,
}

/// Analyze the cumulative ledger's rows. No rows yield no statistics.
#[verifier::rlimit(100)]
pub fn compute_session_stats(sessions: &Vec<GameSession>) -> (r: Option<SessionStats>)
    requires
        forall|i: int| 0 <= i < sessions@.len() ==> (#[trigger] sessions@[i])@.wf(),
    ensures
        ({
            let ss = sessions@.map_values(|g: GameSession| g@);
            match r {
                None => ss.len() == 0,
                Some(st) => ss.len() > 0 && st.count == ss.len() && st.final_score_sum == sum_final(
                    ss,
                ) && st.max_final_score == max_final(ss) && st.max_highest_tile == max_tile(ss)
                    && st.total_moves_sum == sum_moves(ss) && st.bad_rate_micro_sum
                    == sum_rate_micro(ss) && st.mean_bad_rate_micro == sum_rate_micro(ss) / (
                ss.len() as int),
            }
        }),
{
    let ghost ss = sessions@.map_values(|g: GameSession| g@);
    if sessions.len() == 0 {
        return None;
    }
    let mut fsum: u128 = 0;
    let mut fmax: u64 = 0;
    let mut tmax: u64 = 0;
    let mut msum: u128 = 0;
    let mut rsum: u128 = 0;
    let mut i: usize = 0;
    while i < sessions.len()
        invariant
            i <= sessions@.len(),
            ss == sessions@.map_values(|g: GameSession| g@),
            forall|k: int| 0 <= k < sessions@.len() ==> (#[trigger] sessions@[k])@.wf(),
            fsum == sum_final(ss.take(i as int)) && fsum <= i * 0xffff_ffff_ffff_ffff,
            fmax == max_final(ss.take(i as int)),
            tmax == max_tile(ss.take(i as int)),
            msum == sum_moves(ss.take(i as int)) && msum <= i * 0xffff_ffff,
            rsum == sum_rate_micro(ss.take(i as int)) && rsum <= i * 1000000,
        decreases sessions@.len() - i,
    {
        proof {
            assert(ss.take(i + 1).drop_last() =~= ss.take(i as int));
            assert(ss.take(i + 1).last() == sessions@[i as int]@);
            assert((i + 1) * 0xffff_ffff_ffff_ffff == i * 0xffff_ffff_ffff_ffff
                + 0xffff_ffff_ffff_ffff) by (nonlinear_arith);
            assert((i + 1) * 0xffff_ffff == i * 0xffff_ffff + 0xffff_ffff) by (nonlinear_arith);
            assert((i + 1) * 1000000 == i * 1000000 + 1000000) by (nonlinear_arith);
        }
        let s = &sessions[i];
        fsum = fsum + (s.final_score as u128);
        if s.final_score > fmax {
            fmax = s.final_score;
        }
        if s.highest_tile > tmax {
            tmax = s.highest_tile;
        }
        msum = msum + (s.total_moves as u128);
        let rate: u64 = if s.total_moves == 0 {
            0
        } else {
            ((s.bad_moves as u64) * 1000000) / (s.total_moves as u64)
        };
        proof {
            assert(sessions@[i as int]@.wf());
            if s.total_moves != 0 {
                assert(session_rate_micro(sessions@[i as int]@) <= 1000000) by {
                    vstd::arithmetic::div_mod::lemma_fundamental_div_mod(
                        (s@.bad_moves * 1000000) as int,
                        s@.total_moves as int,
                    );
                    assert(s@.bad_moves * 1000000 <= s@.total_moves * 1000000) by (nonlinear_arith)
                        requires
                            s@.bad_moves <= s@.total_moves,
                    ;
                    assert((s@.total_moves * 1000000) as int / (s@.total_moves as int) == 1000000)
                        by (nonlinear_arith)
                        requires
                            s@.total_moves > 0,
                    ;
                    vstd::arithmetic::div_mod::lemma_div_is_ordered(
                        (s@.bad_moves * 1000000) as int,
                        (s@.total_moves * 1000000) as int,
                        s@.total_moves as int,
                    );
                }
            }
        }
        rsum = rsum + (rate as u128);
        i = i + 1;
    }
    proof {
        assert(ss.take(ss.len() as int) =~= ss);
        assert(sum_rate_micro(ss) / (ss.len() as int) <= 1000000) by {
            vstd::arithmetic::div_mod::lemma_div_is_ordered(
                sum_rate_micro(ss),
                (ss.len() * 1000000) as int,
                ss.len() as int,
            );
            assert((ss.len() * 1000000) as int / (ss.len() as int) == 1000000)
                by (nonlinear_arith)
                requires
                    ss.len() > 0,
            ;
        }
        assert(sum_rate_micro(ss) >= 0) by {
            lemma_sum_rate_nonneg(ss);
        }
    }
    let mean: u64 = (rsum / (sessions.len() as u128)) as u64;
    Some(
        SessionStats {
            count: sessions.len(),
            final_score_sum: fsum,
            max_final_score: fmax,
            max_highest_tile: tmax,
            total_moves_sum: msum,
            bad_rate_micro_sum: rsum,
            mean_bad_rate_micro: mean,
        },
    )
}

pub proof fn lemma_sum_rate_nonneg(ss: Seq<SessionModel>)
    ensures
        sum_rate_micro(ss) >= 0,
    decreases ss.len(),
{
    if ss.len() > 0 {
        lemma_sum_rate_nonneg(ss.drop_last());
        if ss.last().total_moves > 0 {
            vstd::arithmetic::div_mod::lemma_div_is_ordered(
                0,
                (ss.last().bad_moves * 1000000) as int,
                ss.last().total_moves as int,
            );
        }
    }
}

/// Analyze the cumulative ledger. An absent ledger is benign and yields no
/// statistics; an unparseable one is the error.
pub fn analyze_sessions(data: Option<&Vec<u8>>) -> (r: Result<
    Option<SessionStats>,
    TelemetryError,
>)
    ensures
        match data {
            None => r == Result::<Option<SessionStats>, TelemetryError>::Ok(
                None::<SessionStats>,
            ),
            Some(bytes) => {
                &&& (r is Ok <==> spec_parse_ledger(bytes@) is Some)
                &&& (r is Err ==> r->Err_0 == TelemetryError::MalformedLedger)
                &&& (r is Ok ==> ({
                    let ss = spec_parse_ledger(bytes@)->Some_0;
                    match r->Ok_0 {
                        None => ss.len() == 0,
                        Some(st) => ss.len() > 0 && st.count == ss.len() && st.mean_bad_rate_micro
                            == sum_rate_micro(ss) / (ss.len() as int) && st.bad_rate_micro_sum
                            == sum_rate_micro(ss) && st.final_score_sum == sum_final(ss)
                            && st.max_final_score == max_final(ss) && st.max_highest_tile
                            == max_tile(ss) && st.total_moves_sum == sum_moves(ss),
                    }
                }))
            },
        },
{
    let bytes = match data {
        None => {
            return Ok(None);
        },
        Some(b) => b,
    };
    let sessions = match parse_ledger(bytes) {
        Some(v) => v,
        None => {
            return Err(TelemetryError::MalformedLedger);
        },
    };
    Ok(compute_session_stats(&sessions))
}

} // verus!

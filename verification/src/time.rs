use vstd::prelude::*;
use chrono::{Datelike, Timelike};
use crate::num::{
    pad_digits, pow10, spec_parse_fixed, u64_to_pad, parse_fixed, lemma_parse_pad, spec_expect,
    expect_byte,
};
use crate::text::{chars_of, text_bytes, ascii_string};

verus! {

/// A wall-clock instant in UTC, held as plain calendar fields.
#[derive(Clone, Copy, PartialEq, Eq, Structural, Debug)]
pub struct Timestamp {
    pub year: u64,
    pub month: u64,
    pub day: u64,
    pub hour: u64,
    pub minute: u64,
    pub second: u64,
}

impl Timestamp {
    /// Ranges every stored timestamp satisfies.
    pub open spec fn valid(self) -> bool {
        &&& 1970 <= self.year <= 9999
        &&& 1 <= self.month <= 12
        &&& 1 <= self.day <= 31
        &&& self.hour <= 23
        &&& self.minute <= 59
        &&& self.second <= 59
    }
}

pub proof fn lemma_pow10_small()
    ensures
        pow10(2) == 100,
        pow10(4) == 10000,
{
    reveal_with_fuel(pow10, 5);
}

/// The fixed-width form `YYYY-MM-DD HH:MM:SS` used in the persisted files.
pub open spec fn ts_bytes(t: Timestamp) -> Seq<u8> {
    pad_digits(t.year as nat, 4) + seq![45u8] + pad_digits(t.month as nat, 2) + seq![45u8]
        + pad_digits(t.day as nat, 2) + seq![32u8] + pad_digits(t.hour as nat, 2) + seq![58u8]
        + pad_digits(t.minute as nat, 2) + seq![58u8] + pad_digits(t.second as nat, 2)
}

/// The session identifier form `YYYYMMDD_HHMMSS`, sortable by start time.
pub open spec fn id_bytes(t: Timestamp) -> Seq<u8> {
    pad_digits(t.year as nat, 4) + pad_digits(t.month as nat, 2) + pad_digits(t.day as nat, 2)
        + seq![95u8] + pad_digits(t.hour as nat, 2) + pad_digits(t.minute as nat, 2) + pad_digits(
        t.second as nat,
        2,
    )
}

pub open spec fn id_chars(t: Timestamp) -> Seq<char> {
    chars_of(id_bytes(t))
}

/// The monthly-aggregate key `YYYYMM` of the month a timestamp falls in.
pub open spec fn month_key_bytes(t: Timestamp) -> Seq<u8> {
    pad_digits(t.year as nat, 4) + pad_digits(t.month as nat, 2)
}

pub fn ts_to_bytes(t: Timestamp) -> (r: Vec<u8>)
    requires
        t.valid(),
    ensures
        r@ == ts_bytes(t),
{
    proof {
        lemma_pow10_small();
    }
    let mut out = u64_to_pad(t.year, 4);
    out.push(45);
    let mut p = u64_to_pad(t.month, 2);
    out.append(&mut p);
    out.push(45);
    let mut p = u64_to_pad(t.day, 2);
    out.append(&mut p);
    out.push(32);
    let mut p = u64_to_pad(t.hour, 2);
    out.append(&mut p);
    out.push(58);
    let mut p = u64_to_pad(t.minute, 2);
    out.append(&mut p);
    out.push(58);
    let mut p = u64_to_pad(t.second, 2);
    out.append(&mut p);
    proof {
        assert(out@ =~= ts_bytes(t));
    }
    out
}

pub fn id_to_bytes(t: Timestamp) -> (r: Vec<u8>)
    requires
        t.valid(),
    ensures
        r@ == id_bytes(t),
{
    proof {
        lemma_pow10_small();
    }
    let mut out = u64_to_pad(t.year, 4);
    let mut p = u64_to_pad(t.month, 2);
    out.append(&mut p);
    let mut p = u64_to_pad(t.day, 2);
    out.append(&mut p);
    out.push(95);
    let mut p = u64_to_pad(t.hour, 2);
    out.append(&mut p);
    let mut p = u64_to_pad(t.minute, 2);
    out.append(&mut p);
    let mut p = u64_to_pad(t.second, 2);
    out.append(&mut p);
    proof {
        assert(out@ =~= id_bytes(t));
    }
    out
}

pub fn month_key_to_bytes(t: Timestamp) -> (r: Vec<u8>)
    requires
        t.valid(),
    ensures
        r@ == month_key_bytes(t),
{
    proof {
        lemma_pow10_small();
    }
    let mut out = u64_to_pad(t.year, 4);
    let mut p = u64_to_pad(t.month, 2);
    out.append(&mut p);
    proof {
        assert(out@ =~= month_key_bytes(t));
    }
    out
}

/// The session identifier as text.
pub fn id_string(t: Timestamp) -> (r: String)
    requires
        t.valid(),
    ensures
        r@ == id_chars(t),
{
    let bytes = id_to_bytes(t);
    proof {
        lemma_pow10_small();
        lemma_id_bytes_text(t);
    }
    ascii_string(&bytes)
}

pub proof fn lemma_id_bytes_text(t: Timestamp)
    requires
        t.valid(),
    ensures
        text_bytes(id_bytes(t)),
{
    lemma_pow10_small();
    crate::num::lemma_pad_digits_props(t.year as nat, 4);
    crate::num::lemma_pad_digits_props(t.month as nat, 2);
    crate::num::lemma_pad_digits_props(t.day as nat, 2);
    crate::num::lemma_pad_digits_props(t.hour as nat, 2);
    crate::num::lemma_pad_digits_props(t.minute as nat, 2);
    crate::num::lemma_pad_digits_props(t.second as nat, 2);
    assert forall|i: int| 0 <= i < id_bytes(t).len() implies crate::text::text_byte(
        #[trigger] id_bytes(t)[i],
    ) by {
        let s = id_bytes(t);
        if i < 8 {
            if i < 4 {
                assert(s[i] == pad_digits(t.year as nat, 4)[i]);
            } else if i < 6 {
                assert(s[i] == pad_digits(t.month as nat, 2)[i - 4]);
            } else {
                assert(s[i] == pad_digits(t.day as nat, 2)[i - 6]);
            }
        } else if i == 8 {
            assert(s[i] == 95u8);
        } else if i < 11 {
            assert(s[i] == pad_digits(t.hour as nat, 2)[i - 9]);
        } else if i < 13 {
            assert(s[i] == pad_digits(t.minute as nat, 2)[i - 11]);
        } else {
            assert(s[i] == pad_digits(t.second as nat, 2)[i - 13]);
        }
    }
}

/// Parse the 19-byte `YYYY-MM-DD HH:MM:SS` form; the fields must be in range.
pub open spec fn spec_parse_ts(s: Seq<u8>) -> Option<(Timestamp, Seq<u8>)> {
    match spec_parse_fixed(s, 4) {
        None => None,
        Some((y, r)) => match spec_expect(r, 45) {
            None => None,
            Some(r) => match spec_parse_fixed(r, 2) {
                None => None,
                Some((mo, r)) => match spec_expect(r, 45) {
                    None => None,
                    Some(r) => match spec_parse_fixed(r, 2) {
                        None => None,
                        Some((d, r)) => match spec_expect(r, 32) {
                            None => None,
                            Some(r) => match spec_parse_fixed(r, 2) {
                                None => None,
                                Some((h, r)) => match spec_expect(r, 58) {
                                    None => None,
                                    Some(r) => match spec_parse_fixed(r, 2) {
                                        None => None,
                                        Some((mi, r)) => match spec_expect(r, 58) {
                                            None => None,
                                            Some(r) => match spec_parse_fixed(r, 2) {
                                                None => None,
                                                Some((sec, r)) => {
                                                    let t = Timestamp {
                                                        year: y,
                                                        month: mo,
                                                        day: d,
                                                        hour: h,
                                                        minute: mi,
                                                        second: sec,
                                                    };
                                                    if t.valid() {
                                                        Some((t, r))
                                                    } else {
                                                        None
                                                    }
                                                },
                                            },
                                        },
                                    },
                                },
                            },
                        },
                    },
                },
            },
        },
    }
}

/// A timestamp's own fixed-width form reads back as the timestamp,
/// whatever follows it.
#[verifier::rlimit(100)]
pub proof fn lemma_parse_ts(t: Timestamp, rest: Seq<u8>)
    requires
        t.valid(),
    ensures
        spec_parse_ts(ts_bytes(t) + rest) == Some((t, rest)),
{
    lemma_pow10_small();
    let s = ts_bytes(t) + rest;
    let r1 = seq![45u8] + pad_digits(t.month as nat, 2) + seq![45u8] + pad_digits(t.day as nat, 2)
        + seq![32u8] + pad_digits(t.hour as nat, 2) + seq![58u8] + pad_digits(t.minute as nat, 2)
        + seq![58u8] + pad_digits(t.second as nat, 2) + rest;
    assert(s =~= pad_digits(t.year as nat, 4) + r1);
    lemma_parse_pad(t.year, 4, r1);
    let r2 = r1.skip(1);
    assert(r1[0] == 45);
    let r3 = pad_digits(t.month as nat, 2) + (seq![45u8] + pad_digits(t.day as nat, 2)
        + seq![32u8] + pad_digits(t.hour as nat, 2) + seq![58u8] + pad_digits(t.minute as nat, 2)
        + seq![58u8] + pad_digits(t.second as nat, 2) + rest);
    assert(r2 =~= r3);
    lemma_parse_pad(
        t.month,
        2,
        seq![45u8] + pad_digits(t.day as nat, 2) + seq![32u8] + pad_digits(t.hour as nat, 2)
            + seq![58u8] + pad_digits(t.minute as nat, 2) + seq![58u8] + pad_digits(
            t.second as nat,
            2,
        ) + rest,
    );
    let r4 = seq![45u8] + pad_digits(t.day as nat, 2) + seq![32u8] + pad_digits(t.hour as nat, 2)
        + seq![58u8] + pad_digits(t.minute as nat, 2) + seq![58u8] + pad_digits(
        t.second as nat,
        2,
    ) + rest;
    assert(r4[0] == 45);
    assert(r4.skip(1) =~= pad_digits(t.day as nat, 2) + (seq![32u8] + pad_digits(
        t.hour as nat,
        2,
    ) + seq![58u8] + pad_digits(t.minute as nat, 2) + seq![58u8] + pad_digits(t.second as nat, 2)
        + rest));
    lemma_parse_pad(
        t.day,
        2,
        seq![32u8] + pad_digits(t.hour as nat, 2) + seq![58u8] + pad_digits(t.minute as nat, 2)
            + seq![58u8] + pad_digits(t.second as nat, 2) + rest,
    );
    let r5 = seq![32u8] + pad_digits(t.hour as nat, 2) + seq![58u8] + pad_digits(
        t.minute as nat,
        2,
    ) + seq![58u8] + pad_digits(t.second as nat, 2) + rest;
    assert(r5[0] == 32);
    assert(r5.skip(1) =~= pad_digits(t.hour as nat, 2) + (seq![58u8] + pad_digits(
        t.minute as nat,
        2,
    ) + seq![58u8] + pad_digits(t.second as nat, 2) + rest));
    lemma_parse_pad(
        t.hour,
        2,
        seq![58u8] + pad_digits(t.minute as nat, 2) + seq![58u8] + pad_digits(t.second as nat, 2)
            + rest,
    );
    let r6 = seq![58u8] + pad_digits(t.minute as nat, 2) + seq![58u8] + pad_digits(
        t.second as nat,
        2,
    ) + rest;
    assert(r6[0] == 58);
    assert(r6.skip(1) =~= pad_digits(t.minute as nat, 2) + (seq![58u8] + pad_digits(
        t.second as nat,
        2,
    ) + rest));
    lemma_parse_pad(t.minute, 2, seq![58u8] + pad_digits(t.second as nat, 2) + rest);
    let r7 = seq![58u8] + pad_digits(t.second as nat, 2) + rest;
    assert(r7[0] == 58);
    assert(r7.skip(1) =~= pad_digits(t.second as nat, 2) + rest);
    lemma_parse_pad(t.second, 2, rest);
}

/// Read the 19-byte timestamp form at `pos`.
pub fn parse_ts(data: &Vec<u8>, pos: usize) -> (r: Option<(Timestamp, usize)>)
    requires
        pos <= data@.len(),
    ensures
        match r {
            Some(p) => pos <= p.1 <= data@.len() && p.0.valid() && spec_parse_ts(
                data@.skip(pos as int),
            ) == Some((p.0, data@.skip(p.1 as int))),
            None => spec_parse_ts(data@.skip(pos as int)) is None,
        },
{
    let (y, p) = match parse_fixed(data, pos, 4) {
        Some(v) => v,
        None => {
            return None;
        },
    };
    let p = match expect_byte(data, p, 45) {
        Some(v) => v,
        None => {
            return None;
        },
    };
    let (mo, p) = match parse_fixed(data, p, 2) {
        Some(v) => v,
        None => {
            return None;
        },
    };
    let p = match expect_byte(data, p, 45) {
        Some(v) => v,
        None => {
            return None;
        },
    };
    let (d, p) = match parse_fixed(data, p, 2) {
        Some(v) => v,
        None => {
            return None;
        },
    };
    let p = match expect_byte(data, p, 32) {
        Some(v) => v,
        None => {
            return None;
        },
    };
    let (h, p) = match parse_fixed(data, p, 2) {
        Some(v) => v,
        None => {
            return None;
        },
    };
    let p = match expect_byte(data, p, 58) {
        Some(v) => v,
        None => {
            return None;
        },
    };
    let (mi, p) = match parse_fixed(data, p, 2) {
        Some(v) => v,
        None => {
            return None;
        },
    };
    let p = match expect_byte(data, p, 58) {
        Some(v) => v,
        None => {
            return None;
        },
    };
    let (sec, p) = match parse_fixed(data, p, 2) {
        Some(v) => v,
        None => {
            return None;
        },
    };
    let t = Timestamp { year: y, month: mo, day: d, hour: h, minute: mi, second: sec };
    if 1970 <= t.year && t.year <= 9999 && 1 <= t.month && t.month <= 12 && 1 <= t.day && t.day
        <= 31 && t.hour <= 23 && t.minute <= 59 && t.second <= 59 {
        Some((t, p))
    } else {
        None
    }
}

/// Parse the 15-byte `YYYYMMDD_HHMMSS` identifier form; the fields must be
/// in range.
pub open spec fn spec_parse_id(s: Seq<u8>) -> Option<(Timestamp, Seq<u8>)> {
    match spec_parse_fixed(s, 4) {
        None => None,
        Some((y, r)) => match spec_parse_fixed(r, 2) {
            None => None,
            Some((mo, r)) => match spec_parse_fixed(r, 2) {
                None => None,
                Some((d, r)) => match spec_expect(r, 95) {
                    None => None,
                    Some(r) => match spec_parse_fixed(r, 2) {
                        None => None,
                        Some((h, r)) => match spec_parse_fixed(r, 2) {
                            None => None,
                            Some((mi, r)) => match spec_parse_fixed(r, 2) {
                                None => None,
                                Some((sec, r)) => {
                                    let t = Timestamp {
                                        year: y,
                                        month: mo,
                                        day: d,
                                        hour: h,
                                        minute: mi,
                                        second: sec,
                                    };
                                    if t.valid() {
                                        Some((t, r))
                                    } else {
                                        None
                                    }
                                },
                            },
                        },
                    },
                },
            },
        },
    }
}

/// A timestamp's own identifier form reads back as the timestamp, whatever
/// follows it.
#[verifier::rlimit(100)]
pub proof fn lemma_parse_id(t: Timestamp, rest: Seq<u8>)
    requires
        t.valid(),
    ensures
        spec_parse_id(id_bytes(t) + rest) == Some((t, rest)),
{
    lemma_pow10_small();
    let s = id_bytes(t) + rest;
    let r1 = pad_digits(t.month as nat, 2) + pad_digits(t.day as nat, 2) + seq![95u8] + pad_digits(
        t.hour as nat,
        2,
    ) + pad_digits(t.minute as nat, 2) + pad_digits(t.second as nat, 2) + rest;
    assert(s =~= pad_digits(t.year as nat, 4) + r1);
    lemma_parse_pad(t.year, 4, r1);
    let r2 = pad_digits(t.day as nat, 2) + seq![95u8] + pad_digits(t.hour as nat, 2) + pad_digits(
        t.minute as nat,
        2,
    ) + pad_digits(t.second as nat, 2) + rest;
    assert(r1 =~= pad_digits(t.month as nat, 2) + r2);
    lemma_parse_pad(t.month, 2, r2);
    let r3 = seq![95u8] + pad_digits(t.hour as nat, 2) + pad_digits(t.minute as nat, 2)
        + pad_digits(t.second as nat, 2) + rest;
    assert(r2 =~= pad_digits(t.day as nat, 2) + r3);
    lemma_parse_pad(t.day, 2, r3);
    assert(r3[0] == 95);
    let r4 = pad_digits(t.hour as nat, 2) + (pad_digits(t.minute as nat, 2) + (pad_digits(
        t.second as nat,
        2,
    ) + rest));
    assert(r3.skip(1) =~= r4);
    lemma_parse_pad(t.hour, 2, pad_digits(t.minute as nat, 2) + (pad_digits(t.second as nat, 2)
        + rest));
    lemma_parse_pad(t.minute, 2, pad_digits(t.second as nat, 2) + rest);
    lemma_parse_pad(t.second, 2, rest);
}

/// Read the 15-byte identifier form at `pos`.
pub fn parse_id(data: &Vec<u8>, pos: usize) -> (r: Option<(Timestamp, usize)>)
    requires
        pos <= data@.len(),
    ensures
        match r {
            Some(p) => pos <= p.1 <= data@.len() && p.0.valid() && spec_parse_id(
                data@.skip(pos as int),
            ) == Some((p.0, data@.skip(p.1 as int))),
            None => spec_parse_id(data@.skip(pos as int)) is None,
        },
{
    let (y, p) = match parse_fixed(data, pos, 4) {
        Some(v) => v,
        None => {
            return None;
        },
    };
    let (mo, p) = match parse_fixed(data, p, 2) {
        Some(v) => v,
        None => {
            return None;
        },
    };
    let (d, p) = match parse_fixed(data, p, 2) {
        Some(v) => v,
        None => {
            return None;
        },
    };
    let p = match expect_byte(data, p, 95) {
        Some(v) => v,
        None => {
            return None;
        },
    };
    let (h, p) = match parse_fixed(data, p, 2) {
        Some(v) => v,
        None => {
            return None;
        },
    };
    let (mi, p) = match parse_fixed(data, p, 2) {
        Some(v) => v,
        None => {
            return None;
        },
    };
    let (sec, p) = match parse_fixed(data, p, 2) {
        Some(v) => v,
        None => {
            return None;
        },
    };
    let t = Timestamp { year: y, month: mo, day: d, hour: h, minute: mi, second: sec };
    if 1970 <= t.year && t.year <= 9999 && 1 <= t.month && t.month <= 12 && 1 <= t.day && t.day
        <= 31 && t.hour <= 23 && t.minute <= 59 && t.second <= 59 {
        Some((t, p))
    } else {
        None
    }
}

/// Relies on chrono's `Utc::now` and its `Datelike` / `Timelike` accessors;
/// their documented ranges are month 1 to 12, day 1 to 31, hour 0 to 23,
/// minute 0 to 59 and second 0 to 59. The year is handed on as chrono gives
/// it; nothing more holds of a clock reading.
#[verifier::external_body]
fn utc_now_parts() -> (r: (i64, u64, u64, u64, u64, u64))
    ensures
        1 <= r.1 <= 12,
        1 <= r.2 <= 31,
        r.3 <= 23,
        r.4 <= 59,
        r.5 <= 59,
{
    let now = chrono::Utc::now();
    (
        now.year() as i64,
        now.month() as u64,
        now.day() as u64,
        now.hour() as u64,
        now.minute() as u64,
        now.second() as u64,
    )
}

/// The current UTC wall-clock time. A year outside the representable range
/// (a badly set clock) is clamped to its nearer bound.
pub fn now_timestamp() -> (t: Timestamp)
    ensures
        t.valid(),
{
    let (y, mo, d, h, mi, s) = utc_now_parts();
    let year: u64 = if y < 1970 {
        1970
    } else if y > 9999 {
        9999
    } else {
        y as u64
    };
    Timestamp { year, month: mo, day: d, hour: h, minute: mi, second: s }
}

} // verus!

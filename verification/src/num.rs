use vstd::prelude::*;
use vstd::arithmetic::div_mod::lemma_fundamental_div_mod;

verus! {

/// ASCII code of the digit zero.
pub const DIGIT_ZERO: u8 = 48;

pub open spec fn is_digit(b: u8) -> bool {
    48 <= b <= 57
}

pub open spec fn digit_val(b: u8) -> nat {
    (b - 48) as nat
}

/// Value of a big-endian sequence of ASCII digits.
pub open spec fn seq_val(s: Seq<u8>) -> nat
    decreases s.len(),
{
    if s.len() == 0 {
        0
    } else {
        seq_val(s.drop_last()) * 10 + digit_val(s.last())
    }
}

pub open spec fn pow10(k: nat) -> nat
    decreases k,
{
    if k == 0 {
        1
    } else {
        10 * pow10((k - 1) as nat)
    }
}

/// Decimal digits of `n`, most significant first, no leading zeros.
pub open spec fn dec_digits(n: nat) -> Seq<u8>
    decreases n,
{
    if n < 10 {
        seq![(n + 48) as u8]
    } else {
        dec_digits(n / 10) + seq![(n % 10 + 48) as u8]
    }
}

/// Decimal digits of `n`, zero-padded on the left to exactly `w` digits.
pub open spec fn pad_digits(n: nat, w: nat) -> Seq<u8>
    decreases w,
{
    if w == 0 {
        Seq::<u8>::empty()
    } else {
        pad_digits(n / 10, (w - 1) as nat) + seq![(n % 10 + 48) as u8]
    }
}

pub open spec fn all_digits(s: Seq<u8>) -> bool {
    forall|i: int| 0 <= i < s.len() ==> is_digit(#[trigger] s[i])
}

pub proof fn lemma_dec_digits_props(n: nat)
    ensures
        dec_digits(n).len() >= 1,
        all_digits(dec_digits(n)),
        seq_val(dec_digits(n)) == n,
    decreases n,
{
    if n < 10 {
        assert(dec_digits(n) =~= seq![(n + 48) as u8]);
        assert(dec_digits(n).drop_last() =~= Seq::<u8>::empty());
        assert(dec_digits(n).last() == (n + 48) as u8);
        assert(seq_val(dec_digits(n)) == seq_val(Seq::<u8>::empty()) * 10 + digit_val(
            (n + 48) as u8,
        ));
        assert(digit_val((n + 48) as u8) == n);
    } else {
        lemma_dec_digits_props(n / 10);
        let s = dec_digits(n);
        assert(s.drop_last() =~= dec_digits(n / 10));
        lemma_fundamental_div_mod(n as int, 10);
        assert(s.last() == (n % 10 + 48) as u8);
        assert(seq_val(s) == seq_val(dec_digits(n / 10)) * 10 + digit_val((n % 10 + 48) as u8));
        assert(digit_val((n % 10 + 48) as u8) == n % 10);
        assert forall|i: int| 0 <= i < s.len() implies is_digit(#[trigger] s[i]) by {
            if i < s.len() - 1 {
                assert(s[i] == dec_digits(n / 10)[i]);
            } else {
                assert(s[i] == (n % 10 + 48) as u8);
            }
        }
    }
}

pub proof fn lemma_dec_digits_len(n: nat, k: nat)
    requires
        n < pow10(k),
        k >= 1,
    ensures
        dec_digits(n).len() <= k,
    decreases n,
{
    if n < 10 {
    } else {
        assert(pow10(k) == 10 * pow10((k - 1) as nat));
        assert(n / 10 < pow10((k - 1) as nat)) by {
            lemma_fundamental_div_mod(n as int, 10);
        }
        assert(pow10((k - 1) as nat) >= 1) by {
            lemma_pow10_pos((k - 1) as nat);
        }
        assert(10 <= n);
        assert(1 <= n / 10) by {
            lemma_fundamental_div_mod(n as int, 10);
        }
        assert(10 < pow10(k));
        assert(k >= 2) by {
            if k == 1 {
                assert(pow10(1nat) == 10);
            }
        }
        lemma_dec_digits_len(n / 10, (k - 1) as nat);
    }
}

pub proof fn lemma_pow10_values()
    ensures
        pow10(19) == 10000000000000000000,
        pow10(20) == 100000000000000000000,
{
    reveal_with_fuel(pow10, 21);
}

pub proof fn lemma_pow10_pos(k: nat)
    ensures
        pow10(k) >= 1,
    decreases k,
{
    if k > 0 {
        lemma_pow10_pos((k - 1) as nat);
    }
}

pub proof fn lemma_pad_digits_props(n: nat, w: nat)
    requires
        n < pow10(w),
    ensures
        pad_digits(n, w).len() == w,
        all_digits(pad_digits(n, w)),
        seq_val(pad_digits(n, w)) == n,
    decreases w,
{
    if w == 0 {
    } else {
        assert(pow10(w) == 10 * pow10((w - 1) as nat));
        lemma_fundamental_div_mod(n as int, 10);
        assert(n / 10 < pow10((w - 1) as nat)) by {
            lemma_pow10_pos((w - 1) as nat);
        }
        lemma_pad_digits_props(n / 10, (w - 1) as nat);
        let s = pad_digits(n, w);
        assert(s.drop_last() =~= pad_digits(n / 10, (w - 1) as nat));
    }
}

pub proof fn lemma_seq_val_bound(s: Seq<u8>)
    requires
        all_digits(s),
    ensures
        seq_val(s) < pow10(s.len()),
    decreases s.len(),
{
    if s.len() > 0 {
        assert(all_digits(s.drop_last()));
        lemma_seq_val_bound(s.drop_last());
        assert(digit_val(s.last()) <= 9);
    }
}

/// Number of leading ASCII digits of `s`.
pub open spec fn digits_len(s: Seq<u8>) -> nat
    decreases s.len(),
{
    if s.len() == 0 || !is_digit(s[0]) {
        0
    } else {
        1 + digits_len(s.skip(1))
    }
}

pub proof fn lemma_digits_len_le(s: Seq<u8>)
    ensures
        digits_len(s) <= s.len(),
        all_digits(s.take(digits_len(s) as int)),
        digits_len(s) < s.len() ==> !is_digit(s[digits_len(s) as int]),
    decreases s.len(),
{
    if s.len() == 0 || !is_digit(s[0]) {
    } else {
        lemma_digits_len_le(s.skip(1));
        let k = digits_len(s);
        assert(s.take(k as int) =~= seq![s[0]] + s.skip(1).take(k as int - 1));
        assert forall|i: int| 0 <= i < k implies is_digit(#[trigger] s.take(k as int)[i]) by {
            if i > 0 {
                assert(s.take(k as int)[i] == s.skip(1).take(k as int - 1)[i - 1]);
            }
        }
    }
}

/// A digit run followed by a non-digit (or by nothing) has exactly the run's length.
pub proof fn lemma_digits_len_concat(a: Seq<u8>, rest: Seq<u8>)
    requires
        all_digits(a),
        rest.len() == 0 || !is_digit(rest[0]),
    ensures
        digits_len(a + rest) == a.len(),
    decreases a.len(),
{
    if a.len() == 0 {
        assert(a + rest =~= rest);
    } else {
        assert((a + rest)[0] == a[0]);
        assert((a + rest).skip(1) =~= a.skip(1) + rest);
        assert(all_digits(a.skip(1)));
        lemma_digits_len_concat(a.skip(1), rest);
    }
}

/// Parse a maximal run of at most 20 decimal digits as a `u64`.
/// `None` on an empty run, an over-long run, or a value over `u64::MAX`.
pub open spec fn spec_parse_u64(s: Seq<u8>) -> Option<(u64, Seq<u8>)> {
    let k = digits_len(s);
    if k == 0 || k > 20 {
        None
    } else if seq_val(s.take(k as int)) > u64::MAX {
        None
    } else {
        Some((seq_val(s.take(k as int)) as u64, s.skip(k as int)))
    }
}

/// Reading a number back from its own decimal digits gives the number,
/// whatever follows them.
pub proof fn lemma_parse_dec(n: u64, rest: Seq<u8>)
    requires
        rest.len() == 0 || !is_digit(rest[0]),
    ensures
        spec_parse_u64(dec_digits(n as nat) + rest) == Some((n, rest)),
{
    let d = dec_digits(n as nat);
    lemma_dec_digits_props(n as nat);
    lemma_digits_len_concat(d, rest);
    lemma_pow10_values();
    lemma_dec_digits_len(n as nat, 20);
    assert((d + rest).take(d.len() as int) =~= d);
    assert((d + rest).skip(d.len() as int) =~= rest);
}

pub open spec fn spec_parse_i64(s: Seq<u8>) -> Option<(i64, Seq<u8>)> {
    if s.len() > 0 && s[0] == 45 {
        match spec_parse_u64(s.skip(1)) {
            Some((v, r)) => if v <= i64::MAX as u64 {
                Some(((-(v as int)) as i64, r))
            } else {
                None
            },
            None => None,
        }
    } else {
        match spec_parse_u64(s) {
            Some((v, r)) => if v <= i64::MAX as u64 {
                Some((v as i64, r))
            } else {
                None
            },
            None => None,
        }
    }
}

/// Decimal digits of a signed value: a leading minus sign for a negative one.
pub open spec fn idec_digits(n: int) -> Seq<u8> {
    if n < 0 {
        seq![45u8] + dec_digits((-n) as nat)
    } else {
        dec_digits(n as nat)
    }
}

pub proof fn lemma_parse_idec(n: i64, rest: Seq<u8>)
    requires
        n > i64::MIN,
        rest.len() == 0 || !is_digit(rest[0]),
    ensures
        spec_parse_i64(idec_digits(n as int) + rest) == Some((n, rest)),
{
    if n < 0 {
        let m = (-(n as int)) as u64;
        lemma_parse_dec(m, rest);
        let s = idec_digits(n as int) + rest;
        assert(s[0] == 45);
        assert(s.skip(1) =~= dec_digits(m as nat) + rest);
    } else {
        lemma_parse_dec(n as u64, rest);
        let s = idec_digits(n as int) + rest;
        lemma_dec_digits_props(n as nat);
        assert(s[0] == dec_digits(n as nat)[0]);
        assert(is_digit(s[0]));
        assert(s =~= dec_digits(n as nat) + rest);
    }
}

/// Decimal digits of `n`, no leading zeros, most significant first.
pub fn u64_to_dec(n: u64) -> (r: Vec<u8>)
    ensures
        r@ == dec_digits(n as nat),
{
    let mut out: Vec<u8> = Vec::new();
    if n == 0 {
        out.push(48);
        proof {
            assert(dec_digits(0) =~= seq![48u8]);
        }
        return out;
    }
    let mut m: u64 = n;
    while m > 0
        invariant
            m > 0 ==> dec_digits(n as nat) =~= dec_digits(m as nat) + out@,
            m == 0 ==> dec_digits(n as nat) =~= out@,
        decreases m,
    {
        let d: u8 = (m % 10) as u8 + 48;
        let ghost prev = out@;
        out.insert(0, d);
        proof {
            assert(out@ =~= seq![d] + prev);
            if m >= 10 {
                assert(dec_digits(m as nat) =~= dec_digits((m as nat) / 10) + seq![d]);
                assert(dec_digits(n as nat) =~= dec_digits((m as nat) / 10) + out@);
                lemma_fundamental_div_mod(m as int, 10);
            } else {
                assert(dec_digits(m as nat) =~= seq![d]);
                assert(dec_digits(n as nat) =~= out@);
            }
        }
        m = m / 10;
    }
    out
}

/// Decimal digits of a signed value: a minus sign, then the magnitude.
pub fn i64_to_dec(n: i64) -> (r: Vec<u8>)
    requires
        n > i64::MIN,
    ensures
        r@ == idec_digits(n as int),
{
    if n < 0 {
        let mut out: Vec<u8> = Vec::new();
        out.push(45);
        let mag = u64_to_dec((-n) as u64);
        let mut mag = mag;
        out.append(&mut mag);
        proof {
            assert(out@ =~= idec_digits(n as int));
        }
        out
    } else {
        let r = u64_to_dec(n as u64);
        proof {
            assert(r@ =~= idec_digits(n as int));
        }
        r
    }
}

/// Decimal digits of `n`, zero-padded on the left to exactly `w` digits.
pub fn u64_to_pad(n: u64, w: usize) -> (r: Vec<u8>)
    requires
        n < pow10(w as nat),
    ensures
        r@ == pad_digits(n as nat, w as nat),
{
    let mut out: Vec<u8> = Vec::new();
    let mut m: u64 = n;
    let mut left: usize = w;
    while left > 0
        invariant
            left <= w,
            pad_digits(n as nat, w as nat) =~= pad_digits(m as nat, left as nat) + out@,
        decreases left,
    {
        let d: u8 = (m % 10) as u8 + 48;
        out.insert(0, d);
        proof {
            assert(pad_digits(m as nat, left as nat) =~= pad_digits((m as nat) / 10, (left
                - 1) as nat) + seq![d]);
        }
        m = m / 10;
        left = left - 1;
    }
    proof {
        assert(pad_digits(n as nat, w as nat) =~= out@);
    }
    out
}

/// Parse exactly `w` digits at `pos` as a number.
pub open spec fn spec_parse_fixed(s: Seq<u8>, w: nat) -> Option<(u64, Seq<u8>)> {
    if s.len() >= w && all_digits(s.take(w as int)) && w <= 19 {
        Some((seq_val(s.take(w as int)) as u64, s.skip(w as int)))
    } else {
        None
    }
}

pub proof fn lemma_parse_pad(n: u64, w: nat, rest: Seq<u8>)
    requires
        n < pow10(w),
        w <= 19,
    ensures
        spec_parse_fixed(pad_digits(n as nat, w) + rest, w) == Some((n, rest)),
{
    lemma_pad_digits_props(n as nat, w);
    let s = pad_digits(n as nat, w) + rest;
    assert(s.take(w as int) =~= pad_digits(n as nat, w));
    assert(s.skip(w as int) =~= rest);
}

/// Scan a run of digits starting at `pos`; gives the value and the position
/// just past the run, as `spec_parse_u64` describes on the suffix at `pos`.
pub fn parse_u64(data: &Vec<u8>, pos: usize) -> (r: Option<(u64, usize)>)
    requires
        pos <= data@.len(),
    ensures
        match r {
            Some(p) => pos < p.1 <= data@.len() && spec_parse_u64(data@.skip(pos as int))
                == Some((p.0, data@.skip(p.1 as int))),
            None => spec_parse_u64(data@.skip(pos as int)) is None,
        },
{
    let s = Ghost(data@.skip(pos as int));
    let mut i: usize = pos;
    while i < data.len() && data[i] >= 48 && data[i] <= 57
        invariant
            pos <= i <= data@.len(),
            s@ == data@.skip(pos as int),
            digits_len(s@) == (i - pos) + digits_len(data@.skip(i as int)),
            all_digits(s@.take(i - pos)),
        decreases data@.len() - i,
    {
        proof {
            let t = data@.skip(i as int);
            assert(t[0] == data@[i as int]);
            assert(t.skip(1) =~= data@.skip(i as int + 1));
            assert(s@.take(i + 1 - pos) =~= s@.take(i - pos) + seq![data@[i as int]]);
        }
        i = i + 1;
    }
    proof {
        let t = data@.skip(i as int);
        if t.len() > 0 {
            assert(t[0] == data@[i as int]);
        }
        assert(digits_len(t) == 0);
        assert(digits_len(s@) == i - pos);
    }
    let k: usize = i - pos;
    if k == 0 || k > 20 {
        return None;
    }
    let mut v: u128 = 0;
    let mut j: usize = pos;
    while j < i
        invariant
            pos <= j <= i <= data@.len(),
            i - pos == digits_len(s@) <= 20,
            s@ == data@.skip(pos as int),
            all_digits(s@.take(i - pos)),
            v == seq_val(s@.take(j - pos)),
            v < pow10((j - pos) as nat),
        decreases i - j,
    {
        proof {
            assert(s@.take(j - pos) =~= s@.take(i - pos).take(j - pos));
            assert(is_digit(s@.take(i - pos)[j - pos]));
            assert(s@[j - pos] == data@[j as int]);
            assert(s@.take(j + 1 - pos) =~= s@.take(j - pos) + seq![data@[j as int]]);
            assert(s@.take(j + 1 - pos).drop_last() =~= s@.take(j - pos));
            assert(pow10((j + 1 - pos) as nat) == 10 * pow10((j - pos) as nat));
            lemma_pow10_values();
            lemma_pow10_mono((j + 1 - pos) as nat, 20nat);
        }
        let d: u8 = data[j];
        v = v * 10 + ((d - 48) as u128);
        j = j + 1;
    }
    if v > u64::MAX as u128 {
        return None;
    }
    proof {
        assert(s@.take(k as int) =~= s@.take(i - pos));
        assert(data@.skip(pos as int).skip(k as int) =~= data@.skip(i as int));
    }
    Some((v as u64, i))
}

pub proof fn lemma_pow10_mono(a: nat, b: nat)
    requires
        a <= b,
    ensures
        pow10(a) <= pow10(b),
    decreases b,
{
    if a < b {
        lemma_pow10_mono(a, (b - 1) as nat);
        lemma_pow10_pos((b - 1) as nat);
    }
}

/// Scan an optionally minus-signed run of digits at `pos`.
pub fn parse_i64(data: &Vec<u8>, pos: usize) -> (r: Option<(i64, usize)>)
    requires
        pos <= data@.len(),
    ensures
        match r {
            Some(p) => pos < p.1 <= data@.len() && spec_parse_i64(data@.skip(pos as int))
                == Some((p.0, data@.skip(p.1 as int))),
            None => spec_parse_i64(data@.skip(pos as int)) is None,
        },
{
    if pos < data.len() && data[pos] == 45 {
        proof {
            assert(data@.skip(pos as int)[0] == 45);
            assert(data@.skip(pos as int).skip(1) =~= data@.skip(pos as int + 1));
        }
        match parse_u64(data, pos + 1) {
            Some((v, np)) => {
                if v <= (i64::MAX as u64) {
                    Some((-(v as i64), np))
                } else {
                    None
                }
            },
            None => None,
        }
    } else {
        proof {
            if data@.skip(pos as int).len() > 0 {
                assert(data@.skip(pos as int)[0] == data@[pos as int]);
            }
        }
        match parse_u64(data, pos) {
            Some((v, np)) => {
                if v <= (i64::MAX as u64) {
                    Some((v as i64, np))
                } else {
                    None
                }
            },
            None => None,
        }
    }
}

/// Read exactly `w` digits at `pos` as a number.
pub fn parse_fixed(data: &Vec<u8>, pos: usize, w: usize) -> (r: Option<(u64, usize)>)
    requires
        pos <= data@.len(),
        w <= 19,
    ensures
        match r {
            Some(p) => pos <= p.1 <= data@.len() && p.0 < pow10(w as nat) && spec_parse_fixed(
                data@.skip(pos as int),
                w as nat,
            ) == Some((p.0, data@.skip(p.1 as int))),
            None => spec_parse_fixed(data@.skip(pos as int), w as nat) is None,
        },
{
    let s = Ghost(data@.skip(pos as int));
    let n = data.len();
    if n - pos < w {
        return None;
    }
    let mut v: u64 = 0;
    let mut j: usize = 0;
    while j < w
        invariant
            j <= w <= 19,
            pos + w <= n == data@.len(),
            s@ == data@.skip(pos as int),
            all_digits(s@.take(j as int)),
            v == seq_val(s@.take(j as int)),
            v < pow10(j as nat),
        decreases w - j,
    {
        let d: u8 = data[pos + j];
        if d < 48 || d > 57 {
            proof {
                assert(s@.take(w as int)[j as int] == data@[pos + j]);
            }
            return None;
        }
        proof {
            assert(s@[j as int] == data@[pos + j]);
            assert(s@.take(j + 1) =~= s@.take(j as int) + seq![data@[pos + j]]);
            assert(s@.take(j + 1).drop_last() =~= s@.take(j as int));
            assert(pow10((j + 1) as nat) == 10 * pow10(j as nat));
            lemma_pow10_values();
            lemma_pow10_mono((j + 1) as nat, 19nat);
        }
        v = v * 10 + ((d - 48) as u64);
        j = j + 1;
    }
    proof {
        assert(data@.skip(pos as int).skip(w as int) =~= data@.skip(pos as int + w as int));
    }
    Some((v, pos + w))
}

/// Consume one expected byte.
pub open spec fn spec_expect(s: Seq<u8>, b: u8) -> Option<Seq<u8>> {
    if s.len() > 0 && s[0] == b {
        Some(s.skip(1))
    } else {
        None
    }
}

pub fn expect_byte(data: &Vec<u8>, pos: usize, b: u8) -> (r: Option<usize>)
    requires
        pos <= data@.len(),
    ensures
        match r {
            Some(np) => np == pos + 1 <= data@.len() && spec_expect(data@.skip(pos as int), b)
                == Some(data@.skip(np as int)),
            None => spec_expect(data@.skip(pos as int), b) is None,
        },
{
    proof {
        if pos < data@.len() {
            assert(data@.skip(pos as int)[0] == data@[pos as int]);
            assert(data@.skip(pos as int).skip(1) =~= data@.skip(pos as int + 1));
        }
    }
    if pos < data.len() && data[pos] == b {
        Some(pos + 1)
    } else {
        None
    }
}

/// Consume an expected run of bytes.
pub open spec fn spec_expect_lit(s: Seq<u8>, lit: Seq<u8>) -> Option<Seq<u8>> {
    if lit.len() <= s.len() && s.take(lit.len() as int) == lit {
        Some(s.skip(lit.len() as int))
    } else {
        None
    }
}

pub proof fn lemma_expect_lit(lit: Seq<u8>, rest: Seq<u8>)
    ensures
        spec_expect_lit(lit + rest, lit) == Some(rest),
{
    assert((lit + rest).take(lit.len() as int) =~= lit);
    assert((lit + rest).skip(lit.len() as int) =~= rest);
}

pub fn expect_lit(data: &Vec<u8>, pos: usize, lit: &Vec<u8>) -> (r: Option<usize>)
    requires
        pos <= data@.len(),
    ensures
        match r {
            Some(np) => pos <= np <= data@.len() && spec_expect_lit(
                data@.skip(pos as int),
                lit@,
            ) == Some(data@.skip(np as int)),
            None => spec_expect_lit(data@.skip(pos as int), lit@) is None,
        },
{
    let n = data.len();
    if n - pos < lit.len() {
        return None;
    }
    let mut j: usize = 0;
    while j < lit.len()
        invariant
            j <= lit@.len(),
            pos + lit@.len() <= n == data@.len(),
            data@.skip(pos as int).take(j as int) =~= lit@.take(j as int),
        decreases lit@.len() - j,
    {
        if data[pos + j] != lit[j] {
            proof {
                assert(data@.skip(pos as int)[j as int] == data@[pos + j]);
                assert(data@.skip(pos as int).take(lit@.len() as int)[j as int] == data@[pos + j]);
            }
            return None;
        }
        proof {
            assert(data@.skip(pos as int)[j as int] == data@[pos + j]);
            assert(data@.skip(pos as int).take(j + 1) =~= data@.skip(pos as int).take(j as int)
                + seq![data@[pos + j]]);
            assert(lit@.take(j + 1) =~= lit@.take(j as int) + seq![lit@[j as int]]);
        }
        j = j + 1;
    }
    proof {
        assert(data@.skip(pos as int).take(lit@.len() as int) =~= lit@.take(lit@.len() as int));
        assert(lit@.take(lit@.len() as int) =~= lit@);
        assert(data@.skip(pos as int).skip(lit@.len() as int) =~= data@.skip(
            pos as int + lit@.len() as int,
        ));
    }
    Some(pos + lit.len())
}

/// Comma-joined decimal numbers, as in the stored board snapshot.
pub open spec fn dec_list_bytes(ts: Seq<u64>) -> Seq<u8>
    decreases ts.len(),
{
    if ts.len() == 0 {
        Seq::<u8>::empty()
    } else if ts.len() == 1 {
        dec_digits(ts[0] as nat)
    } else {
        dec_digits(ts[0] as nat) + seq![44u8] + dec_list_bytes(ts.skip(1))
    }
}

pub proof fn lemma_dec_list_snoc(ts: Seq<u64>, t: u64)
    ensures
        ts.len() == 0 ==> dec_list_bytes(ts.push(t)) == dec_digits(t as nat),
        ts.len() > 0 ==> dec_list_bytes(ts.push(t)) == dec_list_bytes(ts) + seq![44u8]
            + dec_digits(t as nat),
    decreases ts.len(),
{
    if ts.len() == 0 {
        assert(ts.push(t) =~= seq![t]);
        assert(dec_list_bytes(seq![t]) == dec_digits(t as nat));
    } else {
        lemma_dec_list_snoc(ts.skip(1), t);
        assert(ts.push(t).skip(1) =~= ts.skip(1).push(t));
        assert(ts.push(t)[0] == ts[0]);
        assert(ts.push(t).len() >= 2);
        if ts.len() == 1 {
            assert(dec_list_bytes(ts.push(t)) == dec_digits(ts[0] as nat) + seq![44u8]
                + dec_list_bytes(ts.skip(1).push(t)));
            assert(ts.skip(1).push(t) =~= seq![t]);
            assert(dec_list_bytes(ts) == dec_digits(ts[0] as nat));
        } else {
            assert(dec_list_bytes(ts.push(t)) == dec_digits(ts[0] as nat) + seq![44u8]
                + dec_list_bytes(ts.skip(1).push(t)));
            assert(dec_digits(ts[0] as nat) + seq![44u8] + (dec_list_bytes(ts.skip(1)) + seq![44u8]
                + dec_digits(t as nat)) =~= dec_list_bytes(ts) + seq![44u8] + dec_digits(
                t as nat,
            ));
        }
    }
}

pub fn u64s_to_dec_list(ts: &Vec<u64>) -> (r: Vec<u8>)
    ensures
        r@ == dec_list_bytes(ts@),
{
    let mut out: Vec<u8> = Vec::new();
    let mut i: usize = 0;
    while i < ts.len()
        invariant
            i <= ts@.len(),
            out@ == dec_list_bytes(ts@.take(i as int)),
        decreases ts@.len() - i,
    {
        if i > 0 {
            out.push(44);
        }
        let mut d = u64_to_dec(ts[i]);
        out.append(&mut d);
        proof {
            lemma_dec_list_snoc(ts@.take(i as int), ts@[i as int]);
            assert(ts@.take(i + 1) =~= ts@.take(i as int).push(ts@[i as int]));
        }
        i = i + 1;
    }
    proof {
        assert(ts@.take(ts@.len() as int) =~= ts@);
    }
    out
}

/// Parse exactly `n` comma-separated numbers.
pub open spec fn spec_parse_dec_list(s: Seq<u8>, n: nat) -> Option<(Seq<u64>, Seq<u8>)>
    decreases n,
{
    if n == 0 {
        Some((Seq::<u64>::empty(), s))
    } else {
        match spec_parse_u64(s) {
            None => None,
            Some((v, r)) => if n == 1 {
                Some((seq![v], r))
            } else {
                match spec_expect(r, 44) {
                    None => None,
                    Some(r2) => match spec_parse_dec_list(r2, (n - 1) as nat) {
                        None => None,
                        Some((vs, r3)) => Some((seq![v] + vs, r3)),
                    },
                }
            },
        }
    }
}

/// A number list's own bytes read back as the list, provided what follows
/// does not begin with a digit.
pub proof fn lemma_parse_dec_list(ts: Seq<u64>, rest: Seq<u8>)
    requires
        ts.len() >= 1,
        rest.len() == 0 || !is_digit(rest[0]),
    ensures
        spec_parse_dec_list(dec_list_bytes(ts) + rest, ts.len()) == Some((ts, rest)),
    decreases ts.len(),
{
    if ts.len() == 1 {
        assert(dec_list_bytes(ts) == dec_digits(ts[0] as nat));
        lemma_parse_dec(ts[0], rest);
        assert(seq![ts[0]] =~= ts);
    } else {
        let tail_list = dec_list_bytes(ts.skip(1));
        let after = seq![44u8] + tail_list + rest;
        assert(after[0] == 44);
        assert(!is_digit(after[0]));
        lemma_parse_dec(ts[0], after);
        assert(dec_list_bytes(ts) + rest =~= dec_digits(ts[0] as nat) + after);
        assert(after.skip(1) =~= tail_list + rest);
        lemma_parse_dec_list(ts.skip(1), rest);
        assert(seq![ts[0]] + ts.skip(1) =~= ts);
    }
}

pub fn parse_dec_list(data: &Vec<u8>, pos: usize, n: usize) -> (r: Option<(Vec<u64>, usize)>)
    requires
        pos <= data@.len(),
    ensures
        match r {
            Some(p) => pos <= p.1 <= data@.len() && spec_parse_dec_list(
                data@.skip(pos as int),
                n as nat,
            ) == Some((p.0@, data@.skip(p.1 as int))),
            None => spec_parse_dec_list(data@.skip(pos as int), n as nat) is None,
        },
{
    let mut out: Vec<u64> = Vec::new();
    let mut p: usize = pos;
    let mut left: usize = n;
    while left > 0
        invariant
            pos <= p <= data@.len(),
            left <= n,
            out@.len() == n - left,
            spec_parse_dec_list(data@.skip(pos as int), n as nat) == (match spec_parse_dec_list(
                data@.skip(p as int),
                left as nat,
            ) {
                None => None::<(Seq<u64>, Seq<u8>)>,
                Some((vs, r)) => Some((out@ + vs, r)),
            }),
        decreases left,
    {
        let (v, np) = match parse_u64(data, p) {
            Some(x) => x,
            None => {
                return None;
            },
        };
        if left > 1 {
            let np2 = match expect_byte(data, np, 44) {
                Some(x) => x,
                None => {
                    return None;
                },
            };
            out.push(v);
            proof {
                assert forall|vs: Seq<u64>| true implies (out@ + vs) =~= (out@.drop_last() + (
                seq![v] + vs)) by {}
            }
            p = np2;
        } else {
            out.push(v);
            proof {
                assert forall|vs: Seq<u64>| true implies (out@ + vs) =~= (out@.drop_last() + (
                seq![v] + vs)) by {}
                assert(out@ + Seq::<u64>::empty() =~= out@.drop_last() + seq![v]);
            }
            p = np;
        }
        left = left - 1;
    }
    proof {
        assert(out@ + Seq::<u64>::empty() =~= out@);
    }
    Some((out, p))
}

/// Floor of the square root.
pub fn isqrt(n: u128) -> (r: u128)
    requires
        n < 0x1_0000_0000_0000_0000_0000_0000_0000,
    ensures
        r * r <= n,
        (r + 1) * (r + 1) > n,
{
    let mut lo: u128 = 0;
    let mut hi: u128 = 1;
    while hi * hi <= n && hi <= 0x100_0000_0000_0000
        invariant
            lo * lo <= n,
            1 <= hi <= 0x200_0000_0000_0000,
            hi * hi <= 0x4_0000_0000_0000_0000_0000_0000_0000,
            lo < hi,
        decreases 0x200_0000_0000_0000 - hi,
    {
        lo = hi;
        proof {
            assert((2 * hi) * (2 * hi) <= 0x4_0000_0000_0000_0000_0000_0000_0000) by (nonlinear_arith)
                requires
                    hi <= 0x100_0000_0000_0000u128,
            ;
        }
        hi = hi * 2;
    }
    proof {
        if hi * hi <= n {
            assert(hi > 0x100_0000_0000_0000);
            assert(hi * hi > n) by (nonlinear_arith)
                requires
                    hi > 0x100_0000_0000_0000u128,
                    n < 0x1_0000_0000_0000_0000_0000_0000_0000,
            ;
        }
    }
    // lo*lo <= n < hi*hi; narrow by binary search
    while lo + 1 < hi
        invariant
            lo < hi <= 0x200_0000_0000_0000,
            lo * lo <= n,
            hi * hi > n,
        decreases hi - lo,
    {
        let mid: u128 = lo + (hi - lo) / 2;
        proof {
            assert(mid * mid <= 0x4_0000_0000_0000_0000_0000_0000_0000) by (nonlinear_arith)
                requires
                    mid <= 0x200_0000_0000_0000u128,
            ;
        }
        if mid * mid <= n {
            lo = mid;
        } else {
            hi = mid;
        }
    }
    lo
}

} // verus!

//! Length parsing: values such as `1in`, `2.54cm`, `12pt` or `96px` in
//! twentieths of a point (dxa) or English Metric Units (emu).
//!
//! The number is read as an exact decimal and scaled with exact rational
//! arithmetic; the result is rounded half away from zero and saturated to the
//! `i64` range.

use vstd::prelude::*;

use crate::error::{DocliError, ErrorCode};
use crate::text::{chars_of, concat_message, trim, trim_chars};

verus! {

pub const DXA_PER_INCH: u64 = 1440;

pub const EMU_PER_INCH: u64 = 914400;

pub open spec fn is_digit(c: char) -> bool {
    '0' <= c && c <= '9'
}

pub open spec fn is_number_char(c: char) -> bool {
    is_digit(c) || c == '.' || c == '-'
}

pub open spec fn all_digits(s: Seq<char>) -> bool {
    forall|i: int| 0 <= i < s.len() ==> is_digit(#[trigger] s[i])
}

pub open spec fn digit_value(c: char) -> nat {
    (c as int - '0' as int) as nat
}

/// The value of a string of decimal digits.
pub open spec fn digits_value(s: Seq<char>) -> nat
    decreases s.len(),
{
    if s.len() == 0 {
        0
    } else {
        digits_value(s.drop_last()) * 10 + digit_value(s.last())
    }
}

pub open spec fn pow10(n: nat) -> nat
    decreases n,
{
    if n == 0 {
        1
    } else {
        10 * pow10((n - 1) as nat)
    }
}

/// Index of the first character that cannot belong to the number, or the length.
pub open spec fn number_prefix_len(s: Seq<char>) -> nat
    decreases s.len(),
{
    if s.len() == 0 || !is_number_char(s[0]) {
        0
    } else {
        1 + number_prefix_len(s.drop_first())
    }
}

/// Index of the first `.` in `s`, or its length.
pub open spec fn dot_index(s: Seq<char>) -> nat
    decreases s.len(),
{
    if s.len() == 0 || s[0] == '.' {
        0
    } else {
        1 + dot_index(s.drop_first())
    }
}

pub open spec fn is_negative(s: Seq<char>) -> bool {
    s.len() > 0 && s[0] == '-'
}

pub open spec fn unsigned_part(s: Seq<char>) -> Seq<char> {
    if is_negative(s) {
        s.drop_first()
    } else {
        s
    }
}

pub open spec fn integer_digits(s: Seq<char>) -> Seq<char> {
    let b = unsigned_part(s);
    b.subrange(0, dot_index(b) as int)
}

pub open spec fn fraction_digits(s: Seq<char>) -> Seq<char> {
    let b = unsigned_part(s);
    if dot_index(b) >= b.len() {
        Seq::empty()
    } else {
        b.subrange((dot_index(b) + 1) as int, b.len() as int)
    }
}

/// `s` is a decimal literal: an optional `-`, then digits with at most one
/// `.` among them and at least one digit.
pub open spec fn is_decimal(s: Seq<char>) -> bool {
    &&& all_digits(integer_digits(s))
    &&& all_digits(fraction_digits(s))
    &&& integer_digits(s).len() + fraction_digits(s).len() > 0
}

/// The factor `p / q` by which a value in the unit is multiplied.
pub open spec fn unit_factor(unit: Seq<char>, scale: int) -> Option<(int, int)> {
    if unit.len() == 0 {
        Some((1, 1))
    } else if unit == seq!['i', 'n'] {
        Some((scale, 1))
    } else if unit == seq!['c', 'm'] {
        Some((scale * 100, 254))
    } else if unit == seq!['m', 'm'] {
        Some((scale * 10, 254))
    } else if unit == seq!['p', 't'] {
        Some((scale, 72))
    } else if unit == seq!['p', 'x'] {
        Some((scale, 96))
    } else {
        None
    }
}

/// `n / d` rounded to the nearest integer, halves away from zero (`d > 0`).
pub open spec fn round_half_away(n: int, d: int) -> int {
    if n >= 0 {
        (2 * n + d) / (2 * d)
    } else {
        -((-2 * n + d) / (2 * d))
    }
}

pub open spec fn clamp_i64(v: int) -> i64 {
    if v > i64::MAX {
        i64::MAX
    } else if v < i64::MIN {
        i64::MIN
    } else {
        v as i64
    }
}

/// The exact value of the decimal `num`, multiplied by `p / q` and rounded.
pub open spec fn scaled_decimal(num: Seq<char>, p: int, q: int) -> int {
    let n = digits_value(integer_digits(num) + fraction_digits(num)) * p;
    let d = pow10(fraction_digits(num).len()) * q;
    if is_negative(num) {
        round_half_away(-n, d)
    } else {
        round_half_away(n, d)
    }
}

/// What parsing `value` at `scale` units per inch gives: the rounded length,
/// or the error code and message.
pub open spec fn length_outcome(value: Seq<char>, scale: int) -> Result<i64, (ErrorCode, Seq<char>)> {
    let t = trim(value);
    let k = number_prefix_len(t) as int;
    let num = t.subrange(0, k);
    let unit = t.subrange(k, t.len() as int);
    if t.len() == 0 {
        Err((ErrorCode::InvalidSpec, "unit value cannot be empty"@))
    } else if !is_decimal(num) {
        Err((ErrorCode::InvalidSpec, "invalid numeric value: "@ + t))
    } else {
        match unit_factor(unit, scale) {
            None => Err((ErrorCode::InvalidSpec, "unsupported unit: "@ + t)),
            Some((p, q)) => Ok(clamp_i64(scaled_decimal(num, p, q))),
        }
    }
}

pub open spec fn outcome_of(r: Result<i64, DocliError>) -> Result<i64, (ErrorCode, Seq<char>)> {
    match r {
        Ok(v) => Ok(v),
        Err(e) => Err(e.view_pair()),
    }
}

/// Parses a length into twentieths of a point (1440 per inch).
pub fn parse_dxa(value: &str) -> (r: Result<i64, DocliError>)
    ensures
        outcome_of(r) == length_outcome(value@, DXA_PER_INCH as int),
{
    parse_length(value, DXA_PER_INCH)
}

/// Parses a length into English Metric Units (914400 per inch).
pub fn parse_emu(value: &str) -> (r: Result<i64, DocliError>)
    ensures
        outcome_of(r) == length_outcome(value@, EMU_PER_INCH as int),
{
    parse_length(value, EMU_PER_INCH)
}

pub proof fn lemma_pow10_pos(n: nat)
    ensures
        pow10(n) >= 1,
    decreases n,
{
    if n > 0 {
        lemma_pow10_pos((n - 1) as nat);
    }
}

pub proof fn lemma_digits_value_append(a: Seq<char>, b: Seq<char>)
    ensures
        digits_value(a + b) == digits_value(a) * pow10(b.len()) + digits_value(b),
    decreases b.len(),
{
    if b.len() == 0 {
        assert(a + b =~= a);
        assert(pow10(0) == 1);
        assert(digits_value(b) == 0);
    } else {
        let b0 = b.drop_last();
        lemma_digits_value_append(a, b0);
        assert((a + b).drop_last() =~= a + b0);
        assert((a + b).last() == b.last());
        let x = digits_value(a) as int;
        let p = pow10(b0.len()) as int;
        let y = digits_value(b0) as int;
        let dl = digit_value(b.last()) as int;
        assert(pow10(b.len()) == 10 * p);
        assert(digits_value(b) == y * 10 + dl);
        assert(digits_value(a + b) == (x * p + y) * 10 + dl);
        assert((x * p + y) * 10 + dl == x * (10 * p) + (y * 10 + dl)) by (nonlinear_arith);
        assert(x * (10 * p) == x * pow10(b.len()));
    }
}

proof fn lemma_digits_value_prepend(c: char, s: Seq<char>)
    ensures
        digits_value(seq![c] + s) == digit_value(c) * pow10(s.len()) + digits_value(s),
{
    lemma_digits_value_append(seq![c], s);
    assert(seq![c].drop_last() =~= Seq::<char>::empty());
    assert(digits_value(Seq::<char>::empty()) == 0);
    assert(digits_value(seq![c]) == digit_value(c));
}

proof fn lemma_number_prefix(s: Seq<char>, k: int)
    requires
        0 <= k <= s.len(),
        forall|i: int| 0 <= i < k ==> is_number_char(#[trigger] s[i]),
        k == s.len() || !is_number_char(s[k]),
    ensures
        number_prefix_len(s) == k,
    decreases k,
{
    if k > 0 {
        lemma_number_prefix(s.drop_first(), k - 1);
    }
}

proof fn lemma_dot_index(s: Seq<char>, k: int)
    requires
        0 <= k <= s.len(),
        forall|i: int| 0 <= i < k ==> #[trigger] s[i] != '.',
        k == s.len() || s[k] == '.',
    ensures
        dot_index(s) == k,
    decreases k,
{
    if k > 0 {
        lemma_dot_index(s.drop_first(), k - 1);
    }
}

/// Where the integer and fraction digits of a decimal literal lie in `num`.
struct DecimalSpan {
    negative: bool,
    int_start: usize,
    int_end: usize,
    frac_start: usize,
}

/// Recognises a decimal literal and locates its digits.
fn decimal_span(num: &Vec<char>) -> (r: Option<DecimalSpan>)
    ensures
        r.is_some() == is_decimal(num@),
        r matches Some(sp) ==> {
            &&& sp.negative == is_negative(num@)
            &&& sp.int_start <= sp.int_end <= num.len()
            &&& sp.frac_start <= num.len()
            &&& num@.subrange(sp.int_start as int, sp.int_end as int) == integer_digits(num@)
            &&& num@.subrange(sp.frac_start as int, num.len() as int) == fraction_digits(num@)
        },
{
    let n = num.len();
    let negative = n > 0 && num[0] == '-';
    let start: usize = if negative { 1 } else { 0 };
    let ghost b = unsigned_part(num@);
    assert(b =~= num@.subrange(start as int, n as int));
    let mut d = start;
    while d < n && num[d] != '.'
        invariant
            start <= d <= n,
            n == num.len(),
            forall|i: int| start <= i < d ==> #[trigger] num@[i] != '.',
        decreases n - d,
    {
        d = d + 1;
    }
    proof {
        assert forall|i: int| 0 <= i < d - start implies #[trigger] b[i] != '.' by {
            assert(b[i] == num@[i + start]);
        }
        lemma_dot_index(b, d - start);
    }
    let frac_start = if d < n { d + 1 } else { n };
    assert(num@.subrange(start as int, d as int) =~= integer_digits(num@));
    assert(num@.subrange(frac_start as int, n as int) =~= fraction_digits(num@));
    let mut i = start;
    while i < d
        invariant
            start <= i <= d <= n,
            n == num.len(),
            num@.subrange(start as int, d as int) == integer_digits(num@),
            forall|k: int| start <= k < i ==> is_digit(#[trigger] num@[k]),
        decreases d - i,
    {
        if !('0' <= num[i] && num[i] <= '9') {
            assert(integer_digits(num@)[i - start] == num@[i as int]);
            return None;
        }
        i = i + 1;
    }
    let mut j = frac_start;
    while j < n
        invariant
            frac_start <= j <= n,
            n == num.len(),
            num@.subrange(frac_start as int, n as int) == fraction_digits(num@),
            forall|k: int| frac_start <= k < j ==> is_digit(#[trigger] num@[k]),
        decreases n - j,
    {
        if !('0' <= num[j] && num[j] <= '9') {
            assert(fraction_digits(num@)[j - frac_start] == num@[j as int]);
            return None;
        }
        j = j + 1;
    }
    assert forall|k: int| 0 <= k < integer_digits(num@).len() implies is_digit(
        #[trigger] integer_digits(num@)[k],
    ) by {
        assert(integer_digits(num@)[k] == num@[k + start]);
    }
    assert forall|k: int| 0 <= k < fraction_digits(num@).len() implies is_digit(
        #[trigger] fraction_digits(num@)[k],
    ) by {
        assert(fraction_digits(num@)[k] == num@[k + frac_start]);
    }
    if d - start + (n - frac_start) == 0 {
        return None;
    }
    Some(DecimalSpan { negative, int_start: start, int_end: d, frac_start })
}

/// Bound above which a magnitude no longer fits in `i64` after rounding.
pub open spec fn big_bound() -> int {
    0x8000_0000_0000_0000int
}

/// `round_half_away(n, d)` for `n >= 0`: the nearest integer, halves up.
pub open spec fn round_up_half(n: int, d: int) -> int {
    (2 * n + d) / (2 * d)
}

proof fn lemma_int_step(v: int, d: int, p: int, q: int, qq: int, r: int)
    requires
        q > 0,
        v * p == qq * q + r,
        0 <= r < q,
    ensures
        (v * 10 + d) * p == (qq * 10 + (10 * r + d * p) / q) * q + (10 * r + d * p) % q,
{
    let t = 10 * r + d * p;
    vstd::arithmetic::div_mod::lemma_fundamental_div_mod(t, q);
    assert((v * 10 + d) * p == 10 * (v * p) + d * p) by (nonlinear_arith);
    assert(10 * (qq * q + r) + d * p == (qq * 10) * q + t) by (nonlinear_arith)
        requires
            t == 10 * r + d * p,
    ;
    assert((qq * 10) * q + q * (t / q) == (qq * 10 + t / q) * q) by (nonlinear_arith);
}

proof fn lemma_frac_step(dv: int, p: int, c: int, w: int, e: int, d: int)
    requires
        w >= 1,
        dv * p == c * w + e,
        0 <= c,
        0 <= d,
    ensures
        (d * w + dv) * p == ((d * p + c) / 10) * (10 * w) + ((d * p + c) % 10) * w + e,
{
    let t = d * p + c;
    assert(t == (t / 10) * 10 + t % 10);
    assert((d * w + dv) * p == d * p * w + dv * p) by (nonlinear_arith);
    assert(d * p * w + c * w == t * w) by (nonlinear_arith)
        requires
            t == d * p + c,
    ;
    assert(t * w == ((t / 10) * 10 + t % 10) * w);
    assert(((t / 10) * 10 + t % 10) * w == (t / 10) * (10 * w) + (t % 10) * w) by (nonlinear_arith);
}

proof fn lemma_round(q2: int, r2: int, e: int, w: int, qd: int, top: int)
    requires
        qd > 0,
        w >= 1,
        q2 >= 0,
        0 <= r2 < qd,
        0 <= e < w,
        w == 1 ==> e == 0,
        w > 1 ==> (w % 10 == 0 && top == e / (w / 10) && 0 <= top < 10),
    ensures
        round_up_half(q2 * qd * w + r2 * w + e, w * qd) == q2 + (if 2 * r2 >= qd || (2 * r2 + 1
            == qd && w > 1 && top >= 5) {
            1int
        } else {
            0int
        }),
{
    let n = q2 * qd * w + r2 * w + e;
    let den = w * qd;
    let up: int = if 2 * r2 >= qd || (2 * r2 + 1 == qd && w > 1 && top >= 5) {
        1
    } else {
        0
    };
    let rest = 2 * r2 * w + 2 * e + den;
    assert(2 * n + den == q2 * (2 * den) + rest) by (nonlinear_arith)
        requires
            n == q2 * qd * w + r2 * w + e,
            den == w * qd,
            rest == 2 * r2 * w + 2 * e + den,
    ;
    assert(0 <= rest < 2 * (2 * den)) by (nonlinear_arith)
        requires
            rest == 2 * r2 * w + 2 * e + den,
            den == w * qd,
            0 <= r2 < qd,
            0 <= e < w,
            w >= 1,
    ;
    // rest / (2 den) is 1 exactly when 2 r2 w + 2 e >= den.
    if 2 * r2 >= qd {
        assert(2 * r2 * w >= qd * w) by (nonlinear_arith)
            requires
                2 * r2 >= qd,
                w >= 1,
        ;
        assert(rest >= 2 * den) by (nonlinear_arith)
            requires
                rest == 2 * r2 * w + 2 * e + den,
                den == w * qd,
                2 * r2 * w >= qd * w,
                e >= 0,
        ;
    } else if 2 * r2 + 1 == qd && w > 1 && top >= 5 {
        let w10 = w / 10;
        assert(w == w10 * 10);
        assert(e >= 5 * w10) by (nonlinear_arith)
            requires
                top == e / w10,
                top >= 5,
                w10 >= 1,
                e >= 0,
        ;
        assert(rest >= 2 * den) by (nonlinear_arith)
            requires
                rest == 2 * r2 * w + 2 * e + den,
                den == w * qd,
                2 * r2 + 1 == qd,
                e >= 5 * w10,
                w == w10 * 10,
        ;
    } else {
        if 2 * r2 + 1 == qd && w > 1 {
            let w10 = w / 10;
            assert(w == w10 * 10);
            assert(e < 5 * w10) by (nonlinear_arith)
                requires
                    top == e / w10,
                    top < 5,
                    w10 >= 1,
                    e >= 0,
            ;
            assert(rest < 2 * den) by (nonlinear_arith)
                requires
                    rest == 2 * r2 * w + 2 * e + den,
                    den == w * qd,
                    2 * r2 + 1 == qd,
                    e < 5 * w10,
                    w == w10 * 10,
            ;
        } else if 2 * r2 + 1 == qd {
            assert(e == 0);
            assert(rest < 2 * den) by (nonlinear_arith)
                requires
                    rest == 2 * r2 * w + 2 * e + den,
                    den == w * qd,
                    2 * r2 + 1 == qd,
                    e == 0,
                    w >= 1,
            ;
        } else {
            assert(2 * r2 + 2 <= qd);
            assert(rest < 2 * den) by (nonlinear_arith)
                requires
                    rest == 2 * r2 * w + 2 * e + den,
                    den == w * qd,
                    2 * r2 + 2 <= qd,
                    e < w,
                    w >= 1,
            ;
        }
    }
    assert(den > 0) by (nonlinear_arith)
        requires
            den == w * qd,
            w >= 1,
            qd > 0,
    ;
    assert(2 * n + den == (q2 + up) * (2 * den) + (rest - up * (2 * den))) by (nonlinear_arith)
        requires
            2 * n + den == q2 * (2 * den) + rest,
    ;
    vstd::arithmetic::div_mod::lemma_fundamental_div_mod_converse(
        2 * n + den,
        2 * den,
        q2 + up,
        rest - up * (2 * den),
    );
}

proof fn lemma_round_sign(n: int, d: int)
    requires
        n >= 0,
        d > 0,
    ensures
        round_half_away(n, d) == round_up_half(n, d),
        round_half_away(-n, d) == -round_up_half(n, d),
        round_up_half(n, d) >= 0,
{
    if n == 0 {
        assert(d / (2 * d) == 0) by (nonlinear_arith)
            requires
                d > 0,
        ;
    }
    assert((2 * n + d) / (2 * d) >= 0) by (nonlinear_arith)
        requires
            n >= 0,
            d > 0,
    ;
}

/// Rounded magnitude of `(int_digits . frac_digits) * p / q`; `None` when it
/// exceeds `2^63`.
fn scaled_magnitude(num: &Vec<char>, sp: &DecimalSpan, p: u64, q: u64) -> (r: Option<u64>)
    requires
        1 <= p <= 100_000_000,
        1 <= q <= 1000,
        sp.int_start <= sp.int_end <= num.len(),
        sp.frac_start <= num.len(),
        all_digits(num@.subrange(sp.int_start as int, sp.int_end as int)),
        all_digits(num@.subrange(sp.frac_start as int, num.len() as int)),
    ensures
        ({
            let ip = num@.subrange(sp.int_start as int, sp.int_end as int);
            let fp = num@.subrange(sp.frac_start as int, num.len() as int);
            let m = round_up_half(digits_value(ip + fp) * p, pow10(fp.len()) * q);
            match r {
                Some(v) => v == m && m <= big_bound(),
                None => m > big_bound(),
            }
        }),
{
    let ghost ip_all = num@.subrange(sp.int_start as int, sp.int_end as int);
    let ghost fp_all = num@.subrange(sp.frac_start as int, num.len() as int);
    // Integer digits, left to right: value * p == qg * q + rem.
    let mut quot: u64 = 0;
    let mut big = false;
    let mut rem: u64 = 0;
    let ghost mut qg: int = 0;
    let mut i = sp.int_start;
    assert(num@.subrange(sp.int_start as int, i as int) =~= Seq::<char>::empty());
    assert(digits_value(Seq::<char>::empty()) == 0);
    while i < sp.int_end
        invariant
            sp.int_start <= i <= sp.int_end <= num.len(),
            1 <= p <= 100_000_000,
            1 <= q <= 1000,
            all_digits(ip_all),
            ip_all == num@.subrange(sp.int_start as int, sp.int_end as int),
            digits_value(num@.subrange(sp.int_start as int, i as int)) * p == qg * q + rem,
            0 <= rem < q,
            qg >= 0,
            !big ==> quot == qg && qg <= big_bound(),
            big ==> qg > big_bound(),
        decreases sp.int_end - i,
    {
        let ghost pre = num@.subrange(sp.int_start as int, i as int);
        let c = num[i];
        assert(ip_all[i - sp.int_start] == c);
        assert(is_digit(c));
        let d = (c as u32 - '0' as u32) as u64;
        assert(d <= 9 && d == digit_value(c));
        assert(num@.subrange(sp.int_start as int, i + 1) =~= pre.push(c));
        assert(pre.push(c).drop_last() =~= pre);
        proof {
            lemma_int_step(digits_value(pre) as int, d as int, p as int, q as int, qg, rem as int);
        }
        assert(d * p <= 9 * p) by (nonlinear_arith)
            requires
                d <= 9,
        ;
        let t: u64 = 10 * rem + d * p;
        proof {
            qg = qg * 10 + (t / q) as int;
        }
        if !big {
            let nq: u128 = 10 * (quot as u128) + (t / q) as u128;
            if nq > 0x8000_0000_0000_0000u128 {
                big = true;
            } else {
                quot = nq as u64;
            }
        } else {
            assert(qg >= 10 * big_bound());
        }
        rem = t % q;
        i = i + 1;
    }
    // Fraction digits, right to left: fraction * p == carry * w + e.
    let mut carry: u64 = 0;
    let mut top: u64 = 0;
    let ghost mut e: int = 0;
    let ghost mut w: int = 1;
    let mut j = num.len();
    assert(num@.subrange(j as int, num.len() as int) =~= Seq::<char>::empty());
    assert(digits_value(Seq::<char>::empty()) == 0);
    assert(pow10(0) == 1);
    while j > sp.frac_start
        invariant
            sp.frac_start <= j <= num.len(),
            1 <= p <= 100_000_000,
            all_digits(fp_all),
            fp_all == num@.subrange(sp.frac_start as int, num.len() as int),
            w == pow10((num.len() - j) as nat),
            digits_value(num@.subrange(j as int, num.len() as int)) * p == carry * w + e,
            0 <= e < w,
            carry < p,
            w == 1 ==> e == 0,
            w > 1 ==> (w % 10 == 0 && top == e / (w / 10) && top < 10),
        decreases j,
    {
        let ghost suf = num@.subrange(j as int, num.len() as int);
        let c = num[j - 1];
        assert(fp_all[j - 1 - sp.frac_start] == c);
        assert(is_digit(c));
        let d = (c as u32 - '0' as u32) as u64;
        assert(d <= 9 && d == digit_value(c));
        assert(d * p <= 9 * p) by (nonlinear_arith)
            requires
                d <= 9,
        ;
        assert(num@.subrange(j - 1, num.len() as int) =~= seq![c] + suf);
        proof {
            lemma_digits_value_prepend(c, suf);
            lemma_frac_step(digits_value(suf) as int, p as int, carry as int, w, e, d as int);
        }
        let t: u64 = d * p + carry;
        proof {
            assert((t % 10) as int * w + e < 10 * w) by (nonlinear_arith)
                requires
                    0 <= t % 10 < 10,
                    0 <= e < w,
            ;
            e = (t % 10) as int * w + e;
            w = 10 * w;
            assert(e / (w / 10) == t % 10) by (nonlinear_arith)
                requires
                    e == (t % 10) as int * (w / 10) + (e - (t % 10) as int * (w / 10)),
                    0 <= e - (t % 10) as int * (w / 10) < w / 10,
            ;
        }
        top = t % 10;
        carry = t / 10;
        j = j - 1;
    }
    assert(num@.subrange(sp.frac_start as int, num.len() as int) == fp_all);
    let sum = rem + carry;
    let r2 = sum % q;
    let ghost q2 = qg + (sum / q) as int;
    let up: u64 = if 2 * r2 >= q || (2 * r2 + 1 == q && sp.frac_start < num.len() && top >= 5) {
        1
    } else {
        0
    };
    proof {
        vstd::arithmetic::div_mod::lemma_fundamental_div_mod(sum as int, q as int);
        lemma_digits_value_append(ip_all, fp_all);
        lemma_pow10_pos(fp_all.len());
        let iv = digits_value(ip_all) as int;
        let fv = digits_value(fp_all) as int;
        assert(num@.subrange(sp.int_start as int, sp.int_end as int) == ip_all);
        assert(num@.subrange(j as int, num.len() as int) == fp_all);
        assert((iv * w + fv) * p == (q2 * q + r2) * w + e) by (nonlinear_arith)
            requires
                iv * p == qg * q + rem,
                fv * p == carry * w + e,
                sum == rem + carry,
                sum == (sum / q) * q + r2,
                q2 == qg + sum / q,
        ;
        assert((q2 * q + r2) * w + e == q2 * q * w + r2 * w + e) by (nonlinear_arith);
        assert(w * q == pow10(fp_all.len()) * q);
        lemma_round(q2, r2 as int, e, w, q as int, top as int);
        if w > 1 {
            assert(fp_all.len() > 0);
        } else {
            assert(fp_all.len() == 0) by {
                if fp_all.len() > 0 {
                    assert(w == 10 * pow10((fp_all.len() - 1) as nat));
                    lemma_pow10_pos((fp_all.len() - 1) as nat);
                }
            }
        }
    }
    if big {
        return None;
    }
    let total: u128 = quot as u128 + (sum / q) as u128 + up as u128;
    if total > 0x8000_0000_0000_0000u128 {
        None
    } else {
        Some(total as u64)
    }
}

/// Parses `value` at `scale` units per inch.
fn parse_length(value: &str, scale: u64) -> (r: Result<i64, DocliError>)
    requires
        scale == DXA_PER_INCH || scale == EMU_PER_INCH,
    ensures
        outcome_of(r) == length_outcome(value@, scale as int),
{
    let raw = chars_of(value);
    let t = trim_chars(&raw);
    if t.len() == 0 {
        return Err(DocliError::InvalidSpec { message: String::from_str("unit value cannot be empty") });
    }
    let n = t.len();
    let mut k: usize = 0;
    while k < n && (('0' <= t[k] && t[k] <= '9') || t[k] == '.' || t[k] == '-')
        invariant
            0 <= k <= n,
            n == t.len(),
            forall|i: int| 0 <= i < k ==> is_number_char(#[trigger] t@[i]),
        decreases n - k,
    {
        k = k + 1;
    }
    proof {
        lemma_number_prefix(t@, k as int);
    }
    let mut num: Vec<char> = Vec::new();
    let mut i: usize = 0;
    while i < k
        invariant
            0 <= i <= k <= n,
            n == t.len(),
            num@ == t@.subrange(0, i as int),
        decreases k - i,
    {
        num.push(t[i]);
        i = i + 1;
        assert(num@ =~= t@.subrange(0, i as int));
    }
    let span = match decimal_span(&num) {
        Some(sp) => sp,
        None => {
            return Err(DocliError::InvalidSpec { message: concat_message("invalid numeric value: ", &t) });
        },
    };
    let ghost unit = t@.subrange(k as int, n as int);
    let ulen = n - k;
    let (p, q): (u64, u64) = if ulen == 0 {
        (1, 1)
    } else if ulen == 2 && t[k] == 'i' && t[k + 1] == 'n' {
        assert(unit =~= seq!['i', 'n']);
        (scale, 1)
    } else if ulen == 2 && t[k] == 'c' && t[k + 1] == 'm' {
        assert(unit =~= seq!['c', 'm']);
        (scale * 100, 254)
    } else if ulen == 2 && t[k] == 'm' && t[k + 1] == 'm' {
        assert(unit =~= seq!['m', 'm']);
        (scale * 10, 254)
    } else if ulen == 2 && t[k] == 'p' && t[k + 1] == 't' {
        assert(unit =~= seq!['p', 't']);
        (scale, 72)
    } else if ulen == 2 && t[k] == 'p' && t[k + 1] == 'x' {
        assert(unit =~= seq!['p', 'x']);
        (scale, 96)
    } else {
        assert(unit_factor(unit, scale as int).is_none()) by {
            if ulen == 2 {
                assert(unit[0] == t@[k as int] && unit[1] == t@[k + 1]);
            }
        }
        return Err(DocliError::InvalidSpec { message: concat_message("unsupported unit: ", &t) });
    };
    assert(unit_factor(unit, scale as int) == Some((p as int, q as int)));
    let mag = scaled_magnitude(&num, &span, p, q);
    let ghost m = round_up_half(
        digits_value(integer_digits(num@) + fraction_digits(num@)) * p,
        pow10(fraction_digits(num@).len()) * q,
    );
    proof {
        lemma_pow10_pos(fraction_digits(num@).len());
        let nn = digits_value(integer_digits(num@) + fraction_digits(num@)) * p;
        let dd = pow10(fraction_digits(num@).len()) * q;
        assert(dd > 0) by (nonlinear_arith)
            requires
                dd == pow10(fraction_digits(num@).len()) * q,
                pow10(fraction_digits(num@).len()) >= 1,
                q >= 1,
        ;
        lemma_round_sign(nn, dd);
        assert(scaled_decimal(num@, p as int, q as int) == if span.negative {
            -m
        } else {
            m
        });
    }
    match mag {
        None => {
            if span.negative {
                Ok(i64::MIN)
            } else {
                Ok(i64::MAX)
            }
        },
        Some(v) => {
            if span.negative {
                if v == 0x8000_0000_0000_0000u64 {
                    Ok(i64::MIN)
                } else {
                    Ok(-(v as i64))
                }
            } else if v > 0x7FFF_FFFF_FFFF_FFFFu64 {
                Ok(i64::MAX)
            } else {
                Ok(v as i64)
            }
        },
    }
}

/// What `str::parse` gives for an unsigned integer type whose largest value
/// is `max`: an optional `+`, then one or more digits whose value is at most `max`.
pub open spec fn parse_unsigned(s: Seq<char>, max: int) -> Option<int> {
    let d = if s.len() > 0 && s[0] == '+' {
        s.drop_first()
    } else {
        s
    };
    if d.len() > 0 && all_digits(d) && digits_value(d) <= max {
        Some(digits_value(d) as int)
    } else {
        None
    }
}

/// Parses `s[from..to]` as an unsigned integer no larger than `max`.
pub fn parse_unsigned_chars(s: &Vec<char>, from: usize, to: usize, max: u64) -> (r: Option<u64>)
    requires
        from <= to <= s.len(),
        max >= 9,
    ensures
        match r {
            Some(v) => parse_unsigned(s@.subrange(from as int, to as int), max as int) == Some(v as int),
            None => parse_unsigned(s@.subrange(from as int, to as int), max as int) is None,
        },
{
    let ghost whole = s@.subrange(from as int, to as int);
    let mut i = from;
    if i < to && s[i] == '+' {
        i = i + 1;
    }
    let ghost d = s@.subrange(i as int, to as int);
    assert(d =~= if whole.len() > 0 && whole[0] == '+' {
        whole.drop_first()
    } else {
        whole
    });
    if i == to {
        return None;
    }
    let start = i;
    let mut v: u64 = 0;
    assert(s@.subrange(start as int, start as int) =~= Seq::<char>::empty());
    assert(digits_value(Seq::<char>::empty()) == 0);
    while i < to
        invariant
            from <= start <= i <= to <= s.len(),
            max >= 9,
            d == s@.subrange(start as int, to as int),
            whole == s@.subrange(from as int, to as int),
            d == (if whole.len() > 0 && whole[0] == '+' {
                whole.drop_first()
            } else {
                whole
            }),
            all_digits(s@.subrange(start as int, i as int)),
            v == digits_value(s@.subrange(start as int, i as int)),
            v <= max,
        decreases to - i,
    {
        let c = s[i];
        let ghost pre = s@.subrange(start as int, i as int);
        assert(s@.subrange(start as int, i + 1) =~= pre.push(c));
        assert(pre.push(c).drop_last() =~= pre);
        if !('0' <= c && c <= '9') {
            assert(d[i - start] == c);
            assert(!is_digit(d[i - start]));
            assert(!all_digits(d));
            return None;
        }
        let dg = (c as u32 - '0' as u32) as u64;
        if v > (max - dg) / 10 {
            proof {
                assert(v * 10 + dg > max) by (nonlinear_arith)
                    requires
                        v > (max - dg) / 10,
                        dg <= max || true,
                ;
                lemma_digits_value_append(pre.push(c), s@.subrange(i + 1, to as int));
                assert(pre.push(c) + s@.subrange(i + 1, to as int) =~= d);
                lemma_pow10_pos((to - i - 1) as nat);
                assert(digits_value(pre.push(c)) * pow10((to - i - 1) as nat) >= digits_value(pre.push(c)))
                    by (nonlinear_arith)
                    requires
                        pow10((to - i - 1) as nat) >= 1,
                ;
                if all_digits(d) {
                    assert(s@.subrange(i + 1, to as int).len() == (to - i - 1) as nat);
                    assert(digits_value(pre.push(c)) == v * 10 + dg);
                    assert(digits_value(d) > max);
                }
            }
            return None;
        }
        assert(v * 10 + dg <= max) by (nonlinear_arith)
            requires
                v <= (max - dg) / 10,
                dg <= 9,
                dg <= max || v == 0,
        ;
        v = v * 10 + dg;
        i = i + 1;
        assert(all_digits(s@.subrange(start as int, i as int))) by {
            assert forall|k: int| 0 <= k < i - start implies is_digit(
                #[trigger] s@.subrange(start as int, i as int)[k],
            ) by {
                if k < i - 1 - start {
                    assert(s@.subrange(start as int, i as int)[k] == pre[k]);
                }
            }
        }
    }
    Some(v)
}

} // verus!

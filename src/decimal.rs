//! Exact decimal numbers: parsing from text, normalising, doubling and
//! printing in the shortest form.
use vstd::prelude::*;
use vstd::string::*;

verus! {

/// The largest number of significant digits a decimal may hold, and the
/// largest number of places after its point.
pub const MAX_DIGITS: u32 = 15;

/// The decimal number `(-1)^negative * mantissa / 10^scale`.
#[derive(Clone, Copy, Debug, PartialEq, Eq, Structural)]
pub struct Decimal {
    pub negative: bool,
    pub mantissa: u64,
    pub scale: u32,
}

pub open spec fn pow10(n: nat) -> nat
    decreases n,
{
    if n == 0 {
        1
    } else {
        10 * pow10((n - 1) as nat)
    }
}

pub proof fn lemma_pow10_monotone(a: nat, b: nat)
    requires
        a <= b,
    ensures
        1 <= pow10(a) <= pow10(b),
    decreases b,
{
    if a < b {
        lemma_pow10_monotone(a, (b - 1) as nat);
    } else if a > 0 {
        lemma_pow10_monotone((a - 1) as nat, (a - 1) as nat);
    }
}

pub proof fn lemma_pow10_values()
    ensures
        pow10(14) == 100_000_000_000_000,
        pow10(15) == 1_000_000_000_000_000,
{
    reveal_with_fuel(pow10, 16);
}

/// Drops trailing zeros after the point: `m / 10^s` with the smallest `s`.
pub open spec fn strip_zeros(m: nat, s: nat) -> (nat, nat)
    decreases s,
{
    if s > 0 && m % 10 == 0 {
        strip_zeros(m / 10, (s - 1) as nat)
    } else {
        (m, s)
    }
}

/// The decimal of the given sign and value `m / 10^s`, in its shortest form.
pub open spec fn normalized(negative: bool, m: nat, s: nat) -> Decimal {
    Decimal {
        negative,
        mantissa: strip_zeros(m, s).0 as u64,
        scale: strip_zeros(m, s).1 as u32,
    }
}

proof fn lemma_strip_zeros(m: nat, s: nat)
    ensures
        strip_zeros(m, s).0 <= m,
        strip_zeros(m, s).1 <= s,
        strip_zeros(m, s).1 == 0 || strip_zeros(m, s).0 % 10 != 0,
        strip_zeros(m, s).0 * pow10(s) == m * pow10(strip_zeros(m, s).1),
    decreases s,
{
    if s > 0 && m % 10 == 0 {
        lemma_strip_zeros(m / 10, (s - 1) as nat);
        let (m2, s2) = strip_zeros(m / 10, (s - 1) as nat);
        assert(m2 * pow10((s - 1) as nat) == (m / 10) * pow10(s2));
        assert(pow10(s) == 10 * pow10((s - 1) as nat));
        assert(m == 10 * (m / 10));
        assert(m2 * pow10(s) == m * pow10(s2)) by (nonlinear_arith)
            requires
                m2 * pow10((s - 1) as nat) == (m / 10) * pow10(s2),
                pow10(s) == 10 * pow10((s - 1) as nat),
                m == 10 * (m / 10),
        ;
    }
}

/// A decimal in shortest form within the bounds that this library keeps:
/// at most `MAX_DIGITS` places after the point and a mantissa below
/// `2 * 10^MAX_DIGITS`.
pub open spec fn is_canonical(d: Decimal) -> bool {
    &&& d.scale <= MAX_DIGITS
    &&& d.mantissa < 2 * pow10(MAX_DIGITS as nat)
    &&& (d.scale == 0 || d.mantissa % 10 != 0)
}

/// Two decimals that denote the same number with the same sign.
pub open spec fn same_value(a: Decimal, b: Decimal) -> bool {
    &&& a.negative == b.negative
    &&& a.mantissa * pow10(b.scale as nat) == b.mantissa * pow10(a.scale as nat)
}

/// The decimal ten.
pub open spec fn ten_spec() -> Decimal {
    Decimal { negative: false, mantissa: 10, scale: 0 }
}

/// Twice the given decimal, in shortest form.
pub open spec fn doubled(d: Decimal) -> Decimal {
    normalized(d.negative, (2 * d.mantissa) as nat, d.scale as nat)
}

/// The doubled decimal denotes twice the value, with the same sign.
pub proof fn lemma_doubled_is_twice(d: Decimal)
    requires
        d.mantissa < pow10(MAX_DIGITS as nat),
    ensures
        doubled(d).negative == d.negative,
        doubled(d).mantissa * pow10(d.scale as nat) == 2 * d.mantissa * pow10(
            doubled(d).scale as nat,
        ),
{
    lemma_pow10_values();
    lemma_strip_zeros(2 * d.mantissa as nat, d.scale as nat);
}

pub fn pow10_u64(n: u32) -> (r: u64)
    requires
        n <= MAX_DIGITS,
    ensures
        r == pow10(n as nat),
    decreases n,
{
    if n == 0 {
        1
    } else {
        let p = pow10_u64(n - 1);
        proof {
            lemma_pow10_monotone((n - 1) as nat, 14);
            lemma_pow10_values();
        }
        10 * p
    }
}

/// Returns the decimal ten.
pub fn ten() -> (r: Decimal)
    ensures
        r == ten_spec(),
        is_canonical(r),
{
    proof {
        lemma_pow10_values();
    }
    Decimal { negative: false, mantissa: 10, scale: 0 }
}

/// Brings `m / 10^s` with the given sign to its shortest form.
pub fn normalize(negative: bool, m: u64, s: u32) -> (r: Decimal)
    ensures
        r == normalized(negative, m as nat, s as nat),
        r.mantissa <= m,
        r.scale <= s,
        r.scale == 0 || r.mantissa % 10 != 0,
        same_value(r, Decimal { negative, mantissa: m, scale: s }),
{
    let mut m2: u64 = m;
    let mut s2: u32 = s;
    proof {
        lemma_strip_zeros(m as nat, s as nat);
    }
    while s2 > 0 && m2 % 10 == 0
        invariant
            strip_zeros(m2 as nat, s2 as nat) == strip_zeros(m as nat, s as nat),
        decreases s2,
    {
        m2 = m2 / 10;
        s2 = s2 - 1;
    }
    Decimal { negative, mantissa: m2, scale: s2 }
}

/// Twice `d`, in shortest form.
pub fn double(d: Decimal) -> (r: Decimal)
    requires
        is_canonical(d),
        d.mantissa < pow10(MAX_DIGITS as nat),
    ensures
        r == doubled(d),
        is_canonical(r),
        r.negative == d.negative,
        r.mantissa * pow10(d.scale as nat) == 2 * d.mantissa * pow10(r.scale as nat),
{
    proof {
        lemma_pow10_values();
    }
    normalize(d.negative, 2 * d.mantissa, d.scale)
}

/// The value an exponent is held at once it exceeds it. On a text of fewer
/// than a million characters the cap changes no result: an exponent past
/// it leaves a number that no `Decimal` holds either way, or zero.
pub const EXPONENT_CAP: u64 = 1_000_000_000;

/// Where a scan stands: in the digits, just after `e`, just after the
/// exponent's sign, or in the exponent's digits.
pub open spec fn in_digits() -> nat { 0 }
pub open spec fn after_e() -> nat { 1 }
pub open spec fn after_exponent_sign() -> nat { 2 }
pub open spec fn in_exponent() -> nat { 3 }

/// What a scan of text has read so far. The digits read denote
/// `m * 10^zeros`: `m` holds the significant digits, `n` of them, ending in
/// a non-zero digit, and `zeros` counts the zeros after them. `frac` counts
/// all digits after the point; `exponent` is the exponent's magnitude.
pub struct Scan {
    pub m: nat,
    pub n: nat,
    pub zeros: nat,
    pub any_digit: bool,
    pub point: bool,
    pub frac: nat,
    pub phase: nat,
    pub exponent_negative: bool,
    pub exponent: nat,
}

pub open spec fn is_digit(c: char) -> bool {
    '0' <= c && c <= '9'
}

pub open spec fn digit_value(c: char) -> nat {
    (c as u32 - '0' as u32) as nat
}

pub open spec fn scan_start() -> Scan {
    Scan {
        m: 0,
        n: 0,
        zeros: 0,
        any_digit: false,
        point: false,
        frac: 0,
        phase: in_digits(),
        exponent_negative: false,
        exponent: 0,
    }
}

/// The state after a digit of the number itself. A non-zero digit takes the
/// pending zeros into the significant digits, which may not exceed
/// `MAX_DIGITS`; a zero is pending while a non-zero digit came before it.
pub open spec fn digit_step(st: Scan, c: char) -> Option<Scan> {
    let frac = if st.point { st.frac + 1 } else { st.frac };
    if digit_value(c) == 0 {
        Some(Scan { zeros: if st.m == 0 { 0 } else { st.zeros + 1 }, any_digit: true, frac, ..st })
    } else if st.n + st.zeros + 1 > MAX_DIGITS {
        None
    } else {
        Some(
            Scan {
                m: st.m * pow10(st.zeros + 1) + digit_value(c),
                n: st.n + st.zeros + 1,
                zeros: 0,
                any_digit: true,
                frac,
                ..st
            },
        )
    }
}

/// One character more of a float literal: digits with at most one point,
/// then optionally `e` or `E`, an optional sign and the exponent's digits.
/// Anything else ends the scan without a number.
pub open spec fn scan_step(st: Option<Scan>, c: char) -> Option<Scan> {
    match st {
        None => None,
        Some(st) => {
            if st.phase == in_digits() {
                if is_digit(c) {
                    digit_step(st, c)
                } else if c == '.' && !st.point {
                    Some(Scan { point: true, ..st })
                } else if (c == 'e' || c == 'E') && st.any_digit {
                    Some(Scan { phase: after_e(), ..st })
                } else {
                    None
                }
            } else if st.phase == after_e() && (c == '+' || c == '-') {
                Some(Scan { phase: after_exponent_sign(), exponent_negative: c == '-', ..st })
            } else if is_digit(c) {
                let e = 10 * st.exponent + digit_value(c);
                Some(
                    Scan {
                        phase: in_exponent(),
                        exponent: if e > EXPONENT_CAP { EXPONENT_CAP as nat } else { e },
                        ..st
                    },
                )
            } else {
                None
            }
        },
    }
}

pub open spec fn scan(b: Seq<char>) -> Option<Scan>
    decreases b.len(),
{
    if b.len() == 0 {
        Some(scan_start())
    } else {
        scan_step(scan(b.drop_last()), b.last())
    }
}

/// The text after an optional leading `+` or `-`.
pub open spec fn unsigned_part(t: Seq<char>) -> Seq<char> {
    if t.len() > 0 && (t[0] == '+' || t[0] == '-') {
        t.drop_first()
    } else {
        t
    }
}

/// The scale of the number a finished scan read: the places after the
/// point, less the pending zeros, less the exponent.
pub open spec fn scan_scale(st: Scan) -> int {
    st.frac - st.zeros + if st.exponent_negative { st.exponent as int } else { -st.exponent }
}

/// The decimal a finished scan denotes, in shortest form, where this
/// library's `Decimal` can hold it.
pub open spec fn scan_value(negative: bool, st: Scan) -> Option<Decimal> {
    let s = scan_scale(st);
    if st.m == 0 {
        Some(Decimal { negative, mantissa: 0, scale: 0 })
    } else if s > MAX_DIGITS {
        None
    } else if s >= 0 {
        Some(Decimal { negative, mantissa: st.m as u64, scale: s as u32 })
    } else if st.n - s > MAX_DIGITS {
        None
    } else {
        Some(Decimal { negative, mantissa: (st.m * pow10((-s) as nat)) as u64, scale: 0 })
    }
}

/// The decimal that a float literal denotes, in shortest form: an optional
/// sign, digits with at most one point and at least one digit, and
/// optionally an exponent (`e` or `E`, an optional sign, digits). Leading
/// zeros and the zeros that end the number are not significant.
/// Text that is no float literal denotes none. A literal whose value this
/// library's `Decimal` cannot hold denotes none too: one of more than
/// `MAX_DIGITS` significant digits, more than `MAX_DIGITS` places after the
/// point, or more than `MAX_DIGITS` digits before it. Nor do `inf` and
/// `nan`, which no `Decimal` stands for.
pub open spec fn parse_spec(t: Seq<char>) -> Option<Decimal> {
    match scan(unsigned_part(t)) {
        Some(st) => if st.any_digit && (st.phase == in_digits() || st.phase == in_exponent()) {
            scan_value(t.len() > 0 && t[0] == '-', st)
        } else {
            None
        },
        None => None,
    }
}

pub proof fn lemma_pow10_add(a: nat, b: nat)
    ensures
        pow10(a + b) == pow10(a) * pow10(b),
    decreases b,
{
    if b > 0 {
        let b1 = (b - 1) as nat;
        lemma_pow10_add(a, b1);
        assert((a + b - 1) as nat == a + b1);
        assert(pow10(a + b) == 10 * pow10(a + b1));
        assert(pow10(b) == 10 * pow10(b1));
        assert(pow10(a) * pow10(b) == 10 * (pow10(a) * pow10(b1))) by (nonlinear_arith)
            requires
                pow10(b) == 10 * pow10(b1),
        ;
        assert(pow10(a + b) == pow10(a) * pow10(b));
    } else {
        assert(a + b == a);
        assert(pow10(b) == 1);
    }
}

proof fn lemma_last_digit(x: nat, d: nat)
    requires
        d < 10,
    ensures
        (10 * x + d) % 10 == d,
{
    assert((10 * x + d) % 10 == d) by (nonlinear_arith)
        requires
            d < 10,
    ;
}

proof fn lemma_append_digits(m: nat, n: nat, k: nat, d: nat)
    requires
        m < pow10(n),
        k >= 1,
        d < 10,
    ensures
        m * pow10(k) + d < pow10(n + k),
{
    lemma_pow10_add(n, k);
    lemma_pow10_monotone(1, k);
    assert(pow10(1) == 10) by {
        reveal_with_fuel(pow10, 2);
    }
    assert(m * pow10(k) + d < pow10(n) * pow10(k)) by (nonlinear_arith)
        requires
            m < pow10(n),
            pow10(k) >= 10,
            d < 10,
    ;
}

/// Parses a float literal such as `15`, `-2.50`, `+.5`, `7.` or `1e3`.
pub fn parse_decimal(text: &str) -> (r: Option<Decimal>)
    ensures
        r == parse_spec(text@),
        r matches Some(d) ==> is_canonical(d) && d.mantissa < pow10(MAX_DIGITS as nat),
{
    let len = text.unicode_len();
    let mut start: usize = 0;
    let mut negative = false;
    if len > 0 {
        let c = text.get_char(0);
        if c == '-' {
            negative = true;
            start = 1;
        } else if c == '+' {
            start = 1;
        }
    }
    let ghost body = unsigned_part(text@);
    proof {
        assert(body == text@.subrange(start as int, len as int));
        assert(body.subrange(0, 0) =~= Seq::<char>::empty());
        lemma_pow10_values();
    }
    let mut ok = true;
    let mut m: u64 = 0;
    let mut n: u32 = 0;
    let mut zeros: usize = 0;
    let mut any_digit = false;
    let mut point = false;
    let mut frac: usize = 0;
    let mut phase: u8 = 0;
    let mut exponent_negative = false;
    let mut exponent: u64 = 0;
    let mut i: usize = start;
    while i < len
        invariant
            start <= i <= len,
            len == text@.len(),
            body == text@.subrange(start as int, len as int),
            ok ==> scan(body.subrange(0, i - start)) == Some(
                Scan {
                    m: m as nat,
                    n: n as nat,
                    zeros: zeros as nat,
                    any_digit,
                    point,
                    frac: frac as nat,
                    phase: phase as nat,
                    exponent_negative,
                    exponent: exponent as nat,
                },
            ),
            !ok ==> scan(body.subrange(0, i - start)) is None,
            n <= MAX_DIGITS,
            m < pow10(n as nat),
            m == 0 ==> n == 0 && zeros == 0,
            m == 0 || m % 10 != 0,
            zeros <= i,
            frac <= i,
            phase <= 3,
            exponent <= EXPONENT_CAP,
            pow10(15) == 1_000_000_000_000_000,
        decreases len - i,
    {
        let c = text.get_char(i);
        proof {
            let pre = body.subrange(0, i + 1 - start);
            assert(pre.drop_last() =~= body.subrange(0, i - start));
            assert(pre.last() == c);
        }
        if ok {
            if phase == 0 {
                if '0' <= c && c <= '9' {
                    let d = (c as u32 - '0' as u32) as u64;
                    let new_frac = if point { frac + 1 } else { frac };
                    if d == 0 {
                        if m != 0 {
                            zeros = zeros + 1;
                        }
                        any_digit = true;
                        frac = new_frac;
                    } else if zeros >= MAX_DIGITS as usize || n as usize + zeros + 1
                        > MAX_DIGITS as usize {
                        ok = false;
                    } else {
                        let k = (zeros + 1) as u32;
                        let p = pow10_u64(k);
                        proof {
                            lemma_append_digits(m as nat, n as nat, k as nat, d as nat);
                            lemma_pow10_monotone((n + k) as nat, MAX_DIGITS as nat);
                            let q = pow10((k - 1) as nat);
                            assert(p == 10 * q);
                            assert(m * p == 10 * (m * q)) by (nonlinear_arith)
                                requires
                                    p == 10 * q,
                            ;
                            lemma_last_digit((m * q) as nat, d as nat);
                        }
                        m = m * p + d;
                        n = n + k;
                        zeros = 0;
                        any_digit = true;
                        frac = new_frac;
                    }
                } else if c == '.' && !point {
                    point = true;
                } else if (c == 'e' || c == 'E') && any_digit {
                    phase = 1;
                } else {
                    ok = false;
                }
            } else if phase == 1 && (c == '+' || c == '-') {
                phase = 2;
                exponent_negative = c == '-';
            } else if '0' <= c && c <= '9' {
                let d = (c as u32 - '0' as u32) as u64;
                let e = 10 * exponent + d;
                exponent = if e > EXPONENT_CAP { EXPONENT_CAP } else { e };
                phase = 3;
            } else {
                ok = false;
            }
        }
        i = i + 1;
    }
    proof {
        assert(body.subrange(0, len - start) =~= body);
    }
    if !(ok && any_digit && (phase == 0 || phase == 3)) {
        return None;
    }
    if m == 0 {
        return Some(Decimal { negative, mantissa: 0, scale: 0 });
    }
    proof {
        lemma_pow10_monotone(n as nat, MAX_DIGITS as nat);
    }
    let s: i128 = frac as i128 - zeros as i128 + if exponent_negative {
        exponent as i128
    } else {
        -(exponent as i128)
    };
    if s > MAX_DIGITS as i128 {
        None
    } else if s >= 0 {
        Some(Decimal { negative, mantissa: m, scale: s as u32 })
    } else if n as i128 - s > MAX_DIGITS as i128 {
        None
    } else {
        let k = (-s) as u32;
        let p = pow10_u64(k);
        proof {
            lemma_pow10_monotone(0, k as nat);
            lemma_pow10_add(n as nat, k as nat);
            lemma_pow10_monotone((n + k) as nat, MAX_DIGITS as nat);
            assert(m * p < pow10(n as nat) * p) by (nonlinear_arith)
                requires
                    m < pow10(n as nat),
                    p >= 1,
            ;
            lemma_pow10_monotone(0, k as nat);
        }
        Some(Decimal { negative, mantissa: m * p, scale: 0 })
    }
}

pub open spec fn digit_char(d: nat) -> char {
    if d == 0 { '0' }
    else if d == 1 { '1' }
    else if d == 2 { '2' }
    else if d == 3 { '3' }
    else if d == 4 { '4' }
    else if d == 5 { '5' }
    else if d == 6 { '6' }
    else if d == 7 { '7' }
    else if d == 8 { '8' }
    else { '9' }
}

/// The digits of `n` in base ten, with no leading zero.
pub open spec fn nat_text(n: nat) -> Seq<char>
    decreases n,
{
    if n < 10 {
        seq![digit_char(n)]
    } else {
        nat_text(n / 10).push(digit_char(n % 10))
    }
}

/// The last `w` digits of `n` in base ten, with leading zeros.
pub open spec fn padded_text(n: nat, w: nat) -> Seq<char>
    decreases w,
{
    if w == 0 {
        seq![]
    } else {
        padded_text(n / 10, (w - 1) as nat).push(digit_char(n % 10))
    }
}

/// The decimal written out: a minus sign if negative, the whole part, and
/// where the scale is not zero a point and `scale` digits after it.
pub open spec fn decimal_text(d: Decimal) -> Seq<char> {
    let sign = if d.negative { seq!['-'] } else { Seq::<char>::empty() };
    if d.scale == 0 {
        sign + nat_text(d.mantissa as nat)
    } else {
        sign + nat_text(d.mantissa as nat / pow10(d.scale as nat)) + seq!['.'] + padded_text(
            d.mantissa as nat % pow10(d.scale as nat),
            d.scale as nat,
        )
    }
}

fn push_digit(d: u64, out: &mut String)
    requires
        d < 10,
    ensures
        final(out)@ == old(out)@.push(digit_char(d as nat)),
{
    proof {
        reveal_strlit("0");
        reveal_strlit("1");
        reveal_strlit("2");
        reveal_strlit("3");
        reveal_strlit("4");
        reveal_strlit("5");
        reveal_strlit("6");
        reveal_strlit("7");
        reveal_strlit("8");
        reveal_strlit("9");
    }
    let s = if d == 0 { "0" }
    else if d == 1 { "1" }
    else if d == 2 { "2" }
    else if d == 3 { "3" }
    else if d == 4 { "4" }
    else if d == 5 { "5" }
    else if d == 6 { "6" }
    else if d == 7 { "7" }
    else if d == 8 { "8" }
    else { "9" };
    assert(s@ =~= seq![digit_char(d as nat)]);
    out.append(s);
}

fn push_nat(n: u64, out: &mut String)
    ensures
        final(out)@ == old(out)@ + nat_text(n as nat),
    decreases n,
{
    if n < 10 {
        push_digit(n, out);
        assert(final(out)@ =~= old(out)@ + nat_text(n as nat));
    } else {
        push_nat(n / 10, out);
        push_digit(n % 10, out);
        assert(final(out)@ =~= old(out)@ + nat_text(n as nat));
    }
}

fn push_padded(n: u64, w: u32, out: &mut String)
    ensures
        final(out)@ == old(out)@ + padded_text(n as nat, w as nat),
    decreases w,
{
    if w == 0 {
        assert(final(out)@ =~= old(out)@ + padded_text(n as nat, w as nat));
    } else {
        push_padded(n / 10, w - 1, out);
        push_digit(n % 10, out);
        assert(final(out)@ =~= old(out)@ + padded_text(n as nat, w as nat));
    }
}

impl Decimal {
    /// The decimal written out in its shortest form, as in `12.5` or `-3`.
    pub fn to_text(&self) -> (r: String)
        requires
            self.scale <= MAX_DIGITS,
        ensures
            r@ == decimal_text(*self),
    {
        let mut out = String::new();
        if self.negative {
            proof {
                reveal_strlit("-");
            }
            out.append("-");
        }
        if self.scale == 0 {
            push_nat(self.mantissa, &mut out);
        } else {
            let p = pow10_u64(self.scale);
            proof {
                lemma_pow10_monotone(0, self.scale as nat);
            }
            push_nat(self.mantissa / p, &mut out);
            proof {
                reveal_strlit(".");
            }
            out.append(".");
            push_padded(self.mantissa % p, self.scale, &mut out);
        }
        assert(out@ =~= decimal_text(*self));
        out
    }
}

} // verus!

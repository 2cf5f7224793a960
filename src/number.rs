//! Fixed-point numbers: coordinates are whole multiples of one millionth of
//! a unit, read from and written as decimal text.

use vstd::prelude::*;

verus! {

/// Fractional decimal digits that a fixed-point number carries.
pub const FRACTION_DIGITS: usize = 6;

/// The fixed-point form of one unit.
pub const UNIT: i64 = 1000000;

/// Integer digits that a numeric literal may have.
pub const MAX_INT_DIGITS: usize = 12;

pub open spec fn pow10(n: nat) -> int
    decreases n,
{
    if n == 0 {
        1
    } else {
        10 * pow10((n - 1) as nat)
    }
}

pub open spec fn is_digit(c: char) -> bool {
    '0' <= c && c <= '9'
}

pub open spec fn all_digits(s: Seq<char>) -> bool {
    forall|i: int| 0 <= i < s.len() ==> is_digit(#[trigger] s[i])
}

pub open spec fn digit_value(c: char) -> int {
    (c as u32) as int - ('0' as u32) as int
}

/// The number that a string of decimal digits spells, most significant first.
pub open spec fn digits_value(s: Seq<char>) -> int
    decreases s.len(),
{
    if s.len() == 0 {
        0
    } else {
        digits_value(s.drop_last()) * 10 + digit_value(s.last())
    }
}

/// 1 when the literal starts with a sign character, else 0.
pub open spec fn sign_len(s: Seq<char>) -> int {
    if s.len() > 0 && (s[0] == '-' || s[0] == '+') {
        1
    } else {
        0
    }
}

/// How many characters precede the first `.` (all of them when there is none).
pub open spec fn leading_non_dot(s: Seq<char>) -> nat
    decreases s.len(),
{
    if s.len() == 0 || s[0] == '.' {
        0
    } else {
        1 + leading_non_dot(s.drop_first())
    }
}

/// The digits before the decimal point, sign left out.
pub open spec fn int_part(s: Seq<char>) -> Seq<char> {
    let b = s.skip(sign_len(s));
    b.take(leading_non_dot(b) as int)
}

/// The characters after the first decimal point, if there is one.
pub open spec fn frac_part(s: Seq<char>) -> Seq<char> {
    let b = s.skip(sign_len(s));
    let p = leading_non_dot(b) as int;
    if p < b.len() {
        b.skip(p + 1)
    } else {
        Seq::empty()
    }
}

/// A decimal literal: an optional sign, digits, and at most one decimal
/// point, with at least one digit and a bounded integer part.
pub open spec fn is_decimal(s: Seq<char>) -> bool {
    &&& all_digits(int_part(s))
    &&& all_digits(frac_part(s))
    &&& int_part(s).len() + frac_part(s).len() > 0
    &&& int_part(s).len() <= MAX_INT_DIGITS
}

/// The first six fraction digits, in millionths; later digits are cut off.
pub open spec fn frac_value(f: Seq<char>) -> int {
    let k: int = if f.len() < FRACTION_DIGITS {
        f.len() as int
    } else {
        FRACTION_DIGITS as int
    };
    digits_value(f.take(k)) * pow10((FRACTION_DIGITS - k) as nat)
}

pub open spec fn magnitude(s: Seq<char>) -> int {
    digits_value(int_part(s)) * UNIT + frac_value(frac_part(s))
}

/// The fixed-point value of a literal without exponent; 0 when the text is
/// no decimal literal.
pub open spec fn plain_value(s: Seq<char>) -> int {
    if !is_decimal(s) {
        0
    } else if s[0] == '-' {
        -magnitude(s)
    } else {
        magnitude(s)
    }
}

proof fn lemma_pow10_pos(n: nat)
    ensures
        pow10(n) >= 1,
    decreases n,
{
    if n > 0 {
        lemma_pow10_pos((n - 1) as nat);
    }
}

/// The first `j` characters of `b` hold no point, so the part before the
/// first point is at least that long; it is exactly that long when a point
/// or the end follows.
pub(crate) proof fn lemma_leading_non_dot(b: Seq<char>, j: int)
    requires
        0 <= j <= b.len(),
        forall|k: int| 0 <= k < j ==> b[k] != '.',
    ensures
        leading_non_dot(b) >= j,
        leading_non_dot(b) <= b.len(),
        j < b.len() && b[j] == '.' ==> leading_non_dot(b) == j,
        j == b.len() ==> leading_non_dot(b) == j,
    decreases j,
{
    if j > 0 {
        let t = b.drop_first();
        assert forall|k: int| 0 <= k < j - 1 implies t[k] != '.' by {
            assert(t[k] == b[k + 1]);
        }
        lemma_leading_non_dot(t, j - 1);
    } else {
        lemma_leading_non_dot_le(b);
    }
}

proof fn lemma_leading_non_dot_le(b: Seq<char>)
    ensures
        leading_non_dot(b) <= b.len(),
        leading_non_dot(b) < b.len() ==> b[leading_non_dot(b) as int] == '.',
        forall|k: int| 0 <= k < leading_non_dot(b) ==> b[k] != '.',
    decreases b.len(),
{
    if b.len() > 0 && b[0] != '.' {
        let t = b.drop_first();
        lemma_leading_non_dot_le(t);
        assert forall|k: int| 0 <= k < leading_non_dot(b) implies b[k] != '.' by {
            if k > 0 {
                assert(b[k] == t[k - 1]);
            }
        }
    }
}

fn digit_of(c: char) -> (r: i64)
    requires
        is_digit(c),
    ensures
        r == digit_value(c),
        0 <= r <= 9,
{
    ((c as u32) - ('0' as u32)) as i64
}

/// Reads a literal without exponent, as characters, into fixed point. Text
/// that is no decimal literal reads as 0.
fn parse_plain_chars(v: &Vec<char>) -> (r: i64)
    ensures
        r == plain_value(v@),
        -1000000000000000000 < r < 1000000000000000000,
{
    let n = v.len();
    let ghost s = v@;
    let mut i: usize = 0;
    if n > 0 && (v[0] == '-' || v[0] == '+') {
        i = 1;
    }
    let start = i;
    assert(start == sign_len(s));
    let ghost b = s.skip(start as int);
    let mut int_acc: i64 = 0;
    while i < n && v[i] != '.'
        invariant
            n == v.len(),
            s == v@,
            b == s.skip(start as int),
            start == sign_len(s),
            start <= i <= n,
            i - start <= MAX_INT_DIGITS,
            forall|k: int| start <= k < i ==> s[k] != '.' && is_digit(s[k]),
            int_acc == digits_value(s.subrange(start as int, i as int)),
            0 <= int_acc < pow10((i - start) as nat),
        decreases n - i,
    {
        if !('0' <= v[i] && v[i] <= '9') || i - start >= MAX_INT_DIGITS {
            proof {
                assert forall|k: int| 0 <= k < i - start + 1 implies b[k] != '.' by {
                    assert(b[k] == s[start + k]);
                }
                lemma_leading_non_dot(b, i - start + 1);
                let ip = int_part(s);
                assert(ip.len() >= i - start + 1);
                assert(ip[i - start] == s[i as int]);
            }
            return 0;
        }
        let d = digit_of(v[i]);
        proof {
            let sub = s.subrange(start as int, i as int + 1);
            assert(sub.drop_last() =~= s.subrange(start as int, i as int));
            assert(sub.last() == s[i as int]);
            lemma_pow10_pos((i - start) as nat);
            assert(pow10((i + 1 - start) as nat) == 10 * pow10((i - start) as nat));
            lemma_pow10_values();
            assert(pow10((i - start) as nat) <= pow10(MAX_INT_DIGITS as nat)) by {
                lemma_pow10_mono((i - start) as nat, MAX_INT_DIGITS as nat);
            }
        }
        int_acc = int_acc * 10 + d;
        i += 1;
    }
    proof {
        assert forall|k: int| 0 <= k < i - start implies b[k] != '.' by {
            assert(b[k] == s[start + k]);
        }
        if i < n {
            assert(b[i - start] == s[i as int]);
        }
        lemma_leading_non_dot(b, i - start);
        assert(int_part(s) =~= s.subrange(start as int, i as int));
    }
    let int_len = i - start;
    let mut frac_acc: i64 = 0;
    let mut frac_len: usize = 0;
    if i < n {
        i += 1;
        let fstart = i;
        assert(frac_part(s) =~= s.subrange(fstart as int, n as int));
        while i < n
            invariant
                n == v.len(),
                s == v@,
                fstart <= i <= n,
                frac_part(s) == s.subrange(fstart as int, n as int),
                forall|k: int| fstart <= k < i ==> is_digit(s[k]),
                frac_len == (if i - fstart < FRACTION_DIGITS { i - fstart } else { FRACTION_DIGITS as int }),
                frac_acc == digits_value(s.subrange(fstart as int, fstart + frac_len)),
                0 <= frac_acc < pow10(frac_len as nat),
            decreases n - i,
        {
            if !('0' <= v[i] && v[i] <= '9') {
                assert(frac_part(s)[i - fstart] == s[i as int]);
                return 0;
            }
            if i - fstart < FRACTION_DIGITS {
                let d = digit_of(v[i]);
                proof {
                    let sub = s.subrange(fstart as int, i as int + 1);
                    assert(sub.drop_last() =~= s.subrange(fstart as int, i as int));
                    assert(sub.last() == s[i as int]);
                    lemma_pow10_pos(frac_len as nat);
                    assert(pow10((frac_len + 1) as nat) == 10 * pow10(frac_len as nat));
                    lemma_pow10_values();
                    lemma_pow10_mono(frac_len as nat, FRACTION_DIGITS as nat);
                }
                frac_acc = frac_acc * 10 + d;
                frac_len += 1;
            }
            i += 1;
        }
        proof {
            let f = frac_part(s);
            assert(f.take(frac_len as int) =~= s.subrange(fstart as int, fstart + frac_len));
        }
    } else {
        assert(frac_part(s) =~= Seq::<char>::empty());
        assert(s.subrange(i as int, i as int) =~= Seq::<char>::empty());
    }
    if int_len == 0 && frac_len == 0 {
        return 0;
    }
    let ghost frac_acc0 = frac_acc;
    let mut j: usize = frac_len;
    assert(pow10((j - frac_len) as nat) == 1);
    assert(frac_acc == frac_acc0 * 1);
    while j < FRACTION_DIGITS
        invariant
            frac_len <= j <= FRACTION_DIGITS,
            frac_acc == frac_acc0 * pow10((j - frac_len) as nat),
            0 <= frac_acc < pow10(j as nat),
        decreases FRACTION_DIGITS - j,
    {
        proof {
            assert(pow10((j + 1 - frac_len) as nat) == 10 * pow10((j - frac_len) as nat));
            assert(pow10((j + 1) as nat) == 10 * pow10(j as nat));
            lemma_pow10_values();
            lemma_pow10_mono(j as nat, FRACTION_DIGITS as nat);
            let p = pow10((j - frac_len) as nat);
            assert(frac_acc0 * (10 * p) == (frac_acc0 * p) * 10) by (nonlinear_arith);
        }
        frac_acc = frac_acc * 10;
        j += 1;
    }
    proof {
        lemma_pow10_values();
        lemma_pow10_mono(int_len as nat, MAX_INT_DIGITS as nat);
        assert(frac_value(frac_part(s)) == frac_acc);
        assert(int_part(s).len() + frac_part(s).len() > 0);
    }
    let mag = int_acc * UNIT + frac_acc;
    if n > 0 && v[0] == '-' {
        -mag
    } else {
        mag
    }
}

pub(crate) proof fn lemma_pow10_values()
    ensures
        pow10(FRACTION_DIGITS as nat) == UNIT,
        pow10(MAX_INT_DIGITS as nat) == 1000000000000,
{
    reveal_with_fuel(pow10, 13);
}

proof fn lemma_pow10_mono(a: nat, b: nat)
    requires
        a <= b,
    ensures
        pow10(a) <= pow10(b),
    decreases b,
{
    if a < b {
        lemma_pow10_mono(a, (b - 1) as nat);
        lemma_pow10_pos((b - 1) as nat);
    }
}

/// Values at or beyond this magnitude (10^12 units) are out of range.
pub const FIXED_LIMIT: i64 = 1000000000000000000;

pub open spec fn is_exp_char(c: char) -> bool {
    c == 'e' || c == 'E'
}

/// How many characters precede the first exponent mark (all of them when
/// there is none).
pub open spec fn leading_non_exp(s: Seq<char>) -> nat
    decreases s.len(),
{
    if s.len() == 0 || is_exp_char(s[0]) {
        0
    } else {
        1 + leading_non_exp(s.drop_first())
    }
}

/// An exponent: an optional sign and one or two digits.
pub open spec fn is_exponent(x: Seq<char>) -> bool {
    let d = x.skip(sign_len(x));
    1 <= d.len() <= 2 && all_digits(d)
}

pub open spec fn exponent_value(x: Seq<char>) -> int {
    let d = digits_value(x.skip(sign_len(x)));
    if x.len() > 0 && x[0] == '-' {
        -d
    } else {
        d
    }
}

/// A fixed-point value times 10^e, cut toward zero; 0 when the result is
/// out of range.
pub open spec fn scaled(v: int, e: int) -> int {
    let m = if v < 0 {
        -v
    } else {
        v
    };
    let r = if e >= 0 {
        m * pow10(e as nat)
    } else {
        m / pow10((-e) as nat)
    };
    if r >= FIXED_LIMIT {
        0
    } else if v < 0 {
        -r
    } else {
        r
    }
}

/// The fixed-point value of a numeric literal, with an optional exponent
/// (`1.5e2`); 0 when the text is no such literal or its value is out of
/// range.
pub open spec fn decimal_value(s: Seq<char>) -> int {
    let p = leading_non_exp(s) as int;
    if p >= s.len() {
        plain_value(s)
    } else if !is_exponent(s.skip(p + 1)) {
        0
    } else {
        scaled(plain_value(s.take(p)), exponent_value(s.skip(p + 1)))
    }
}

proof fn lemma_leading_non_exp(b: Seq<char>, j: int)
    requires
        0 <= j <= b.len(),
        forall|k: int| 0 <= k < j ==> !is_exp_char(b[k]),
        j == b.len() || is_exp_char(b[j]),
    ensures
        leading_non_exp(b) == j,
    decreases j,
{
    if j > 0 {
        let t = b.drop_first();
        assert forall|k: int| 0 <= k < j - 1 implies !is_exp_char(t[k]) by {
            assert(t[k] == b[k + 1]);
        }
        if j < b.len() {
            assert(t[j - 1] == b[j]);
        }
        lemma_leading_non_exp(t, j - 1);
    }
}

/// Text without an exponent mark reads as a plain literal.
pub(crate) proof fn lemma_no_exponent(s: Seq<char>)
    requires
        forall|i: int| 0 <= i < s.len() ==> !is_exp_char(#[trigger] s[i]),
    ensures
        decimal_value(s) == plain_value(s),
{
    lemma_leading_non_exp(s, s.len() as int);
}

pub(crate) proof fn lemma_pow10_add(a: nat, b: nat)
    ensures
        pow10(a + b) == pow10(a) * pow10(b),
    decreases b,
{
    if b > 0 {
        lemma_pow10_add(a, (b - 1) as nat);
        assert(pow10(a + b) == 10 * pow10((a + b - 1) as nat));
        let x = pow10(a);
        let y = pow10((b - 1) as nat);
        assert(10 * (x * y) == x * (10 * y)) by (nonlinear_arith);
    }
}

/// Reads a numeric literal, as characters, into fixed point: a decimal
/// literal with an optional exponent. Text that is no such literal, or
/// whose value is out of range, reads as 0.
#[verifier::loop_isolation(false)]
pub fn parse_fixed_chars(v: &Vec<char>) -> (r: i64)
    ensures
        r == decimal_value(v@),
{
    let n = v.len();
    let mut p: usize = 0;
    while p < n && v[p] != 'e' && v[p] != 'E'
        invariant
            p <= n == v.len(),
            forall|k: int| 0 <= k < p ==> !is_exp_char(v@[k]),
        decreases n - p,
    {
        p += 1;
    }
    proof {
        lemma_leading_non_exp(v@, p as int);
    }
    if p == n {
        return parse_plain_chars(v);
    }
    let mut m: Vec<char> = Vec::new();
    let mut i: usize = 0;
    while i < p
        invariant
            i <= p < n == v.len(),
            m@ == v@.take(i as int),
        decreases p - i,
    {
        m.push(v[i]);
        i += 1;
        assert(m@ =~= v@.take(i as int));
    }
    let mv = parse_plain_chars(&m);
    let ghost x = v@.skip(p + 1);
    let mut j: usize = p + 1;
    let neg_exp = j < n && v[j] == '-';
    if j < n && (v[j] == '-' || v[j] == '+') {
        j += 1;
    }
    assert(sign_len(x) == j - (p + 1));
    let ghost d = x.skip(sign_len(x));
    assert(d =~= v@.skip(j as int));
    assert(d.len() == n - j);
    if n - j < 1 || n - j > 2 {
        return 0;
    }
    let mut e: u32 = 0;
    let mut k: usize = j;
    while k < n
        invariant
            j <= k <= n == v.len(),
            n - j <= 2,
            d == v@.skip(j as int),
            forall|q: int| j <= q < k ==> is_digit(v@[q]),
            e == digits_value(v@.subrange(j as int, k as int)),
            e < pow10((k - j) as nat),
        decreases n - k,
    {
        if !('0' <= v[k] && v[k] <= '9') {
            assert(d[k - j] == v@[k as int]);
            return 0;
        }
        proof {
            let sub = v@.subrange(j as int, k as int + 1);
            assert(sub.drop_last() =~= v@.subrange(j as int, k as int));
            assert(pow10((k + 1 - j) as nat) == 10 * pow10((k - j) as nat));
            assert(pow10(2) == 100) by {
                reveal_with_fuel(pow10, 3);
            }
            lemma_pow10_mono((k + 1 - j) as nat, 2);
        }
        e = e * 10 + ((v[k] as u32) - ('0' as u32));
        k += 1;
    }
    assert(v@.subrange(j as int, n as int) =~= d);
    assert(is_exponent(x));
    let mag: u128 = if mv < 0 {
        (-(mv as i128)) as u128
    } else {
        mv as u128
    };
    let mut acc: u128 = mag;
    let mut t: u32 = 0;
    assert(pow10(0) == 1);
    if !neg_exp {
        assert(exponent_value(x) == e);
        while t < e
            invariant
                t <= e,
                acc == mag * pow10(t as nat),
                acc < FIXED_LIMIT,
                mag < FIXED_LIMIT,
            decreases e - t,
        {
            proof {
                lemma_pow10_add(t as nat, 1);
                assert(pow10(1) == 10) by {
                    reveal_with_fuel(pow10, 2);
                }
            }
            if acc * 10 >= FIXED_LIMIT as u128 {
                proof {
                    let rest = (e - t) as nat;
                    lemma_pow10_add(t as nat, rest);
                    lemma_pow10_mono(1, rest);
                    let pr = pow10(rest);
                    assert(mag * pow10(e as nat) == acc * pr) by (nonlinear_arith)
                        requires
                            acc == mag * pow10(t as nat),
                            pow10(e as nat) == pow10(t as nat) * pr,
                    ;
                    assert(acc * pr >= acc * 10) by (nonlinear_arith)
                        requires
                            pr >= 10,
                            acc >= 0,
                    ;
                    assert(mag * pow10(e as nat) >= FIXED_LIMIT);
                    assert(m@ == v@.take(p as int));
                    assert(scaled(mv as int, e as int) == 0);
                }
                return 0;
            }
            proof {
                assert(mag * pow10((t + 1) as nat) == (mag * pow10(t as nat)) * 10) by (nonlinear_arith)
                    requires
                        pow10((t + 1) as nat) == pow10(t as nat) * 10,
                ;
            }
            acc = acc * 10;
            t += 1;
        }
    } else {
        assert(exponent_value(x) == -(e as int));
        while t < e
            invariant
                t <= e,
                acc == mag as int / pow10(t as nat),
                acc <= mag < FIXED_LIMIT,
            decreases e - t,
        {
            proof {
                lemma_pow10_pos(t as nat);
                vstd::arithmetic::div_mod::lemma_div_denominator(mag as int, pow10(t as nat), 10);
                assert(pow10((t + 1) as nat) == pow10(t as nat) * 10) by {
                    lemma_pow10_add(t as nat, 1);
                    reveal_with_fuel(pow10, 2);
                }
            }
            acc = acc / 10;
            t += 1;
        }
    }
    let r: i64 = acc as i64;
    if mv < 0 {
        -r
    } else {
        r
    }
}

} // verus!

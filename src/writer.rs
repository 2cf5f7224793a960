//! Text writers: G-code lines and SVG path data, with coordinates written
//! as trimmed fixed-point decimals.

use vstd::prelude::*;
use crate::number::{pow10, FRACTION_DIGITS};
use crate::path::PathEvent;
use crate::text::{chars_of, push_char};

verus! {

pub open spec fn digit_char(d: nat) -> char {
    (('0' as u32) + d) as char
}

/// The decimal digits of `n`, without leading zeros ("0" for zero).
pub open spec fn nat_digits(n: nat) -> Seq<char>
    decreases n,
{
    if n < 10 {
        seq![digit_char(n)]
    } else {
        nat_digits(n / 10).push(digit_char(n % 10))
    }
}

/// The `w` low-order decimal digits of `n`, zeros included.
pub open spec fn padded_digits(n: nat, w: nat) -> Seq<char>
    decreases w,
{
    if w == 0 {
        Seq::empty()
    } else {
        padded_digits(n / 10, (w - 1) as nat).push(digit_char(n % 10))
    }
}

/// `s` without its trailing zeros.
pub open spec fn trim_zeros(s: Seq<char>) -> Seq<char>
    decreases s.len(),
{
    if s.len() > 0 && s.last() == '0' {
        trim_zeros(s.drop_last())
    } else {
        s
    }
}

/// The fraction digits that a written value keeps: the requested count,
/// at most the six that a fixed-point value has.
pub open spec fn kept_digits(digit: nat) -> nat {
    if digit < FRACTION_DIGITS {
        digit
    } else {
        FRACTION_DIGITS as nat
    }
}

/// A magnitude in millionths rounded, half away from zero, to `k` fraction
/// digits; the result counts units of 10^-k.
pub open spec fn rounded(m: nat, k: nat) -> nat {
    let p = pow10((FRACTION_DIGITS - k) as nat);
    ((m + p / 2) / p) as nat
}

/// A fixed-point value written with `digit` fraction digits, then trailing
/// zeros and a trailing point taken off; a negative value keeps its sign.
pub open spec fn format_fixed(v: int, digit: nat) -> Seq<char> {
    let k = kept_digits(digit);
    let m = (if v < 0 {
        -v
    } else {
        v
    }) as nat;
    let q = rounded(m, k);
    let int_digits = nat_digits((q as int / pow10(k)) as nat);
    let frac = trim_zeros(padded_digits((q as int % pow10(k)) as nat, k));
    (if v < 0 {
        seq!['-']
    } else {
        Seq::empty()
    }) + int_digits + (if frac.len() > 0 {
        seq!['.'] + frac
    } else {
        Seq::empty()
    })
}

/// Lines joined with a separator.
pub open spec fn join(lines: Seq<Seq<char>>, sep: char) -> Seq<char>
    decreases lines.len(),
{
    if lines.len() == 0 {
        Seq::empty()
    } else if lines.len() == 1 {
        lines[0]
    } else {
        join(lines.drop_last(), sep).push(sep) + lines.last()
    }
}

pub open spec fn strings_model(v: Seq<String>) -> Seq<Seq<char>> {
    v.map_values(|s: String| s@)
}

fn push_digit(s: &mut String, d: u128)
    requires
        d < 10,
    ensures
        final(s)@ == old(s)@.push(digit_char(d as nat)),
{
    let c = ((('0' as u32) + d as u32) as u8) as char;
    assert(c == digit_char(d as nat));
    push_char(s, c);
}

fn push_nat_digits(s: &mut String, n: u128)
    ensures
        final(s)@ == old(s)@ + nat_digits(n as nat),
    decreases n,
{
    if n >= 10 {
        push_nat_digits(s, n / 10);
    }
    push_digit(s, n % 10);
    proof {
        if n >= 10 {
            assert(final(s)@ =~= old(s)@ + nat_digits(n as nat));
        } else {
            assert(final(s)@ =~= old(s)@ + nat_digits(n as nat));
        }
    }
}

fn push_padded(s: &mut String, n: u128, w: usize)
    ensures
        final(s)@ == old(s)@ + padded_digits(n as nat, w as nat),
    decreases w,
{
    if w > 0 {
        push_padded(s, n / 10, w - 1);
        push_digit(s, n % 10);
        assert(final(s)@ =~= old(s)@ + padded_digits(n as nat, w as nat));
    } else {
        assert(final(s)@ =~= old(s)@ + padded_digits(n as nat, w as nat));
    }
}

fn pow10_exec(n: usize) -> (r: u128)
    requires
        n <= FRACTION_DIGITS,
    ensures
        r == pow10(n as nat),
        1 <= r <= 1000000,
{
    let mut r: u128 = 1;
    let mut i: usize = 0;
    proof {
        lemma_pow10_small(0);
    }
    while i < n
        invariant
            i <= n <= FRACTION_DIGITS,
            r == pow10(i as nat),
        decreases n - i,
    {
        proof {
            lemma_pow10_small(i as nat);
            lemma_pow10_small((i + 1) as nat);
        }
        r = r * 10;
        i += 1;
    }
    proof {
        lemma_pow10_small(n as nat);
    }
    r
}

proof fn lemma_pow10_small(a: nat)
    requires
        a <= FRACTION_DIGITS,
    ensures
        1 <= pow10(a) <= 1000000,
        pow10(a + 1) == 10 * pow10(a),
{
    reveal_with_fuel(pow10, 8);
}

proof fn lemma_trim_step(n: nat, w: nat)
    requires
        w > 0,
        n % 10 == 0,
    ensures
        trim_zeros(padded_digits(n, w)) == trim_zeros(padded_digits(n / 10, (w - 1) as nat)),
{
    let s = padded_digits(n, w);
    assert(s.last() == digit_char(0));
    assert(s.drop_last() =~= padded_digits(n / 10, (w - 1) as nat));
}

proof fn lemma_trim_stop(n: nat, w: nat)
    requires
        w == 0 || n % 10 != 0,
    ensures
        trim_zeros(padded_digits(n, w)) == padded_digits(n, w),
{
    if w > 0 {
        let s = padded_digits(n, w);
        assert(s.last() == digit_char(n % 10));
        assert(digit_char(n % 10) != '0');
    }
}

/// Writes a fixed-point value as decimal text with at most `digit` fraction
/// digits, trailing zeros and a trailing point removed.
pub fn format_fixed_string(v: i128, digit: usize) -> (r: String)
    ensures
        r@ == format_fixed(v as int, digit as nat),
{
    let k: usize = if digit < FRACTION_DIGITS {
        digit
    } else {
        FRACTION_DIGITS
    };
    let m: u128 = if v < 0 {
        (-(v as i128 + 1)) as u128 + 1
    } else {
        v as u128
    };
    let p = pow10_exec(FRACTION_DIGITS - k);
    let q = (m + p / 2) / p;
    let pk = pow10_exec(k);
    let int_part = q / pk;
    let mut f = q % pk;
    let mut w: usize = k;
    proof {
        lemma_pow10_small(k as nat);
    }
    let ghost f0 = f;
    while w > 0 && f % 10 == 0
        invariant
            w <= k,
            trim_zeros(padded_digits(f0 as nat, k as nat)) == trim_zeros(
                padded_digits(f as nat, w as nat),
            ),
        decreases w,
    {
        proof {
            lemma_trim_step(f as nat, w as nat);
        }
        f = f / 10;
        w -= 1;
    }
    proof {
        lemma_trim_stop(f as nat, w as nat);
    }
    let mut s = String::new();
    if v < 0 {
        push_char(&mut s, '-');
    }
    push_nat_digits(&mut s, int_part);
    if w > 0 {
        push_char(&mut s, '.');
        push_padded(&mut s, f, w);
        proof {
            let frac = padded_digits(f as nat, w as nat);
            assert(frac.len() > 0) by {
                assert(frac == padded_digits((f / 10) as nat, (w - 1) as nat).push(
                    digit_char((f % 10) as nat),
                ));
            }
        }
    }
    proof {
        let frac = trim_zeros(padded_digits(f0 as nat, k as nat));
        if w == 0 {
            assert(frac =~= Seq::<char>::empty());
        }
        assert(s@ =~= format_fixed(v as int, digit as nat));
    }
    s
}

/// Appends the characters of `t`.
fn push_str(s: &mut String, t: &str)
    ensures
        final(s)@ == old(s)@ + t@,
{
    let v = chars_of(t);
    let mut i: usize = 0;
    while i < v.len()
        invariant
            i <= v.len(),
            v@ == t@,
            s@ == old(s)@ + v@.take(i as int),
        decreases v.len() - i,
    {
        push_char(s, v[i]);
        i += 1;
        assert(s@ =~= old(s)@ + v@.take(i as int));
    }
    assert(v@.take(v.len() as int) =~= v@);
}

/// Joins lines with a separator.
fn join_strings(lines: &Vec<String>, sep: char) -> (r: String)
    ensures
        r@ == join(strings_model(lines@), sep),
{
    let mut s = String::new();
    let mut i: usize = 0;
    while i < lines.len()
        invariant
            i <= lines.len(),
            s@ == join(strings_model(lines@).take(i as int), sep),
        decreases lines.len() - i,
    {
        let ghost t = strings_model(lines@).take(i as int + 1);
        assert(t.drop_last() =~= strings_model(lines@).take(i as int));
        if i > 0 {
            push_char(&mut s, sep);
        }
        push_str(&mut s, lines[i].as_str());
        i += 1;
        proof {
            if i == 1 {
                assert(s@ =~= t[0]);
            } else {
                assert(s@ =~= join(t, sep));
            }
        }
    }
    assert(strings_model(lines@).take(lines.len() as int) =~= strings_model(lines@));
    s
}

/// `letter` followed by a written value.
pub open spec fn word_of(letter: char, v: int, digit: nat) -> Seq<char> {
    seq![letter] + format_fixed(v, digit)
}

/// The G-code line of a rapid move.
pub open spec fn gcode_move(x: int, y: int, digit: nat) -> Seq<char> {
    seq!['G', '0', ' '] + word_of('X', x, digit) + seq![' '] + word_of('Y', y, digit)
}

/// The G-code line of a linear move.
pub open spec fn gcode_line(x: int, y: int, digit: nat) -> Seq<char> {
    seq!['G', '1', ' '] + word_of('X', x, digit) + seq![' '] + word_of('Y', y, digit)
}

/// The G-code line of an arc: clockwise `G2`, else `G3`, with the centre
/// as offsets `I`/`J` from the start point.
pub open spec fn gcode_arc(
    x: int,
    y: int,
    i: int,
    j: int,
    clockwise: bool,
    digit: nat,
) -> Seq<char> {
    seq!['G', if clockwise {
        '2'
    } else {
        '3'
    }, ' '] + word_of('X', x, digit) + seq![' '] + word_of('Y', y, digit) + seq![' '] + word_of(
        'I',
        i,
        digit,
    ) + seq![' '] + word_of('J', j, digit)
}

/// Appends `letter` and a written value.
fn push_word(s: &mut String, letter: char, v: i128, digit: usize)
    ensures
        final(s)@ == old(s)@ + word_of(letter, v as int, digit as nat),
{
    push_char(s, letter);
    let f = format_fixed_string(v, digit);
    push_str(s, f.as_str());
    assert(final(s)@ =~= old(s)@ + word_of(letter, v as int, digit as nat));
}

/// Writes G-code text line by line, tracking the current position.
pub struct GCodeWriter {
    lines: Vec<String>,
    digit: usize,
    x: i64,
    y: i64,
}

impl Default for GCodeWriter {
    /// A writer that keeps six fraction digits.
    fn default() -> (r: Self)
        ensures
            r.lines_view() == Seq::<Seq<char>>::empty(),
            r.digits() == FRACTION_DIGITS,
            r.position() == (0int, 0int),
    {
        GCodeWriter::new(FRACTION_DIGITS)
    }
}

impl GCodeWriter {
    pub closed spec fn lines_view(&self) -> Seq<Seq<char>> {
        strings_model(self.lines@)
    }

    pub closed spec fn digits(&self) -> nat {
        self.digit as nat
    }

    pub closed spec fn position(&self) -> (int, int) {
        (self.x as int, self.y as int)
    }

    /// An empty writer at the origin that keeps `digit` fraction digits.
    pub fn new(digit: usize) -> (r: Self)
        ensures
            r.lines_view() == Seq::<Seq<char>>::empty(),
            r.digits() == digit,
            r.position() == (0int, 0int),
    {
        let r = GCodeWriter { lines: Vec::new(), digit, x: 0, y: 0 };
        assert(strings_model(r.lines@) =~= Seq::<Seq<char>>::empty());
        r
    }

    /// Adds a line as it is.
    pub fn write_line(&mut self, line: &str)
        ensures
            final(self).lines_view() == old(self).lines_view().push(line@),
            final(self).digits() == old(self).digits(),
            final(self).position() == old(self).position(),
    {
        let mut s = String::new();
        push_str(&mut s, line);
        self.push_line(s);
    }

    fn push_line(&mut self, s: String)
        ensures
            final(self).lines_view() == old(self).lines_view().push(s@),
            final(self).digits() == old(self).digits(),
            final(self).position() == old(self).position(),
    {
        let ghost before = self.lines@;
        self.lines.push(s);
        assert(strings_model(self.lines@) =~= strings_model(before).push(s@));
    }

    /// Adds each line as it is, in order.
    pub fn write_lines(&mut self, lines: &[&str])
        ensures
            final(self).lines_view() == old(self).lines_view() + lines@.map_values(
                |l: &str| l@,
            ),
            final(self).digits() == old(self).digits(),
            final(self).position() == old(self).position(),
    {
        let mut i: usize = 0;
        while i < lines.len()
            invariant
                i <= lines.len(),
                self.lines_view() == old(self).lines_view() + lines@.take(i as int).map_values(
                    |l: &str| l@,
                ),
                self.digits() == old(self).digits(),
                self.position() == old(self).position(),
            decreases lines.len() - i,
        {
            self.write_line(lines[i]);
            i += 1;
            assert(self.lines_view() =~= old(self).lines_view() + lines@.take(i as int).map_values(
                |l: &str| l@,
            ));
        }
        assert(lines@.take(lines.len() as int) =~= lines@);
    }

    /// The lines joined with newlines.
    pub fn to_string(&self) -> (r: String)
        ensures
            r@ == join(self.lines_view(), '\n'),
    {
        join_strings(&self.lines, '\n')
    }

    /// A rapid move to (x, y): `G0 X.. Y..`.
    pub fn move_to(&mut self, x: i64, y: i64)
        ensures
            final(self).lines_view() == old(self).lines_view().push(
                gcode_move(x as int, y as int, old(self).digits()),
            ),
            final(self).digits() == old(self).digits(),
            final(self).position() == (x as int, y as int),
    {
        self.x = x;
        self.y = y;
        let mut s = String::new();
        push_str(&mut s, "G0 ");
        proof {
            reveal_strlit("G0 ");
        }
        push_word(&mut s, 'X', x as i128, self.digit);
        push_char(&mut s, ' ');
        push_word(&mut s, 'Y', y as i128, self.digit);
        assert(s@ =~= gcode_move(x as int, y as int, self.digit as nat));
        self.push_line(s);
    }

    /// A linear move to (x, y): `G1 X.. Y..`.
    pub fn line_to(&mut self, x: i64, y: i64)
        ensures
            final(self).lines_view() == old(self).lines_view().push(
                gcode_line(x as int, y as int, old(self).digits()),
            ),
            final(self).digits() == old(self).digits(),
            final(self).position() == (x as int, y as int),
    {
        self.x = x;
        self.y = y;
        let mut s = String::new();
        push_str(&mut s, "G1 ");
        proof {
            reveal_strlit("G1 ");
        }
        push_word(&mut s, 'X', x as i128, self.digit);
        push_char(&mut s, ' ');
        push_word(&mut s, 'Y', y as i128, self.digit);
        assert(s@ =~= gcode_line(x as int, y as int, self.digit as nat));
        self.push_line(s);
    }

    /// An arc to (x, y) around (cx, cy): `G2` clockwise, else `G3`, with the
    /// centre as offsets from the current position.
    pub fn arc_to(&mut self, x: i64, y: i64, cx: i64, cy: i64, clockwise: bool)
        ensures
            final(self).lines_view() == old(self).lines_view().push(
                gcode_arc(
                    x as int,
                    y as int,
                    cx - old(self).position().0,
                    cy - old(self).position().1,
                    clockwise,
                    old(self).digits(),
                ),
            ),
            final(self).digits() == old(self).digits(),
            final(self).position() == (x as int, y as int),
    {
        let i = cx as i128 - self.x as i128;
        let j = cy as i128 - self.y as i128;
        self.x = x;
        self.y = y;
        let mut s = String::new();
        push_char(&mut s, 'G');
        push_char(&mut s, if clockwise { '2' } else { '3' });
        push_char(&mut s, ' ');
        push_word(&mut s, 'X', x as i128, self.digit);
        push_char(&mut s, ' ');
        push_word(&mut s, 'Y', y as i128, self.digit);
        push_char(&mut s, ' ');
        push_word(&mut s, 'I', i, self.digit);
        push_char(&mut s, ' ');
        push_word(&mut s, 'J', j, self.digit);
        assert(s@ =~= gcode_arc(
            x as int,
            y as int,
            i as int,
            j as int,
            clockwise,
            self.digit as nat,
        ));
        self.push_line(s);
    }
}

/// Two written values joined by a comma.
pub open spec fn pair_of(x: int, y: int, digit: nat) -> Seq<char> {
    format_fixed(x, digit) + seq![','] + format_fixed(y, digit)
}

fn push_pair(s: &mut String, x: i64, y: i64, digit: usize)
    ensures
        final(s)@ == old(s)@ + pair_of(x as int, y as int, digit as nat),
{
    let fx = format_fixed_string(x as i128, digit);
    push_str(s, fx.as_str());
    push_char(s, ',');
    let fy = format_fixed_string(y as i128, digit);
    push_str(s, fy.as_str());
    assert(final(s)@ =~= old(s)@ + pair_of(x as int, y as int, digit as nat));
}

/// Writes SVG path data command by command, tracking the current position.
pub struct SvgPathWriter {
    lines: Vec<String>,
    digit: usize,
    x: i64,
    y: i64,
}

impl Default for SvgPathWriter {
    /// A writer that keeps six fraction digits.
    fn default() -> (r: Self)
        ensures
            r.lines_view() == Seq::<Seq<char>>::empty(),
            r.digits() == FRACTION_DIGITS,
            r.position() == (0int, 0int),
    {
        SvgPathWriter::new(FRACTION_DIGITS)
    }
}

impl SvgPathWriter {
    pub closed spec fn lines_view(&self) -> Seq<Seq<char>> {
        strings_model(self.lines@)
    }

    pub closed spec fn digits(&self) -> nat {
        self.digit as nat
    }

    pub closed spec fn position(&self) -> (int, int) {
        (self.x as int, self.y as int)
    }

    /// An empty writer at the origin that keeps `digit` fraction digits.
    pub fn new(digit: usize) -> (r: Self)
        ensures
            r.lines_view() == Seq::<Seq<char>>::empty(),
            r.digits() == digit,
            r.position() == (0int, 0int),
    {
        let r = SvgPathWriter { lines: Vec::new(), digit, x: 0, y: 0 };
        assert(strings_model(r.lines@) =~= Seq::<Seq<char>>::empty());
        r
    }

    fn push_line(&mut self, s: String)
        ensures
            final(self).lines_view() == old(self).lines_view().push(s@),
            final(self).digits() == old(self).digits(),
            final(self).position() == old(self).position(),
    {
        let ghost before = self.lines@;
        self.lines.push(s);
        assert(strings_model(self.lines@) =~= strings_model(before).push(s@));
    }

    /// Adds a command as it is.
    pub fn write_line(&mut self, line: &str)
        ensures
            final(self).lines_view() == old(self).lines_view().push(line@),
            final(self).digits() == old(self).digits(),
            final(self).position() == old(self).position(),
    {
        let mut s = String::new();
        push_str(&mut s, line);
        self.push_line(s);
    }

    /// Adds each command as it is, in order.
    pub fn write_lines(&mut self, lines: &[&str])
        ensures
            final(self).lines_view() == old(self).lines_view() + lines@.map_values(
                |l: &str| l@,
            ),
            final(self).digits() == old(self).digits(),
            final(self).position() == old(self).position(),
    {
        let mut i: usize = 0;
        while i < lines.len()
            invariant
                i <= lines.len(),
                self.lines_view() == old(self).lines_view() + lines@.take(i as int).map_values(
                    |l: &str| l@,
                ),
                self.digits() == old(self).digits(),
                self.position() == old(self).position(),
            decreases lines.len() - i,
        {
            self.write_line(lines[i]);
            i += 1;
            assert(self.lines_view() =~= old(self).lines_view() + lines@.take(i as int).map_values(
                |l: &str| l@,
            ));
        }
        assert(lines@.take(lines.len() as int) =~= lines@);
    }

    /// The commands joined with spaces.
    pub fn to_string(&self) -> (r: String)
        ensures
            r@ == join(self.lines_view(), ' '),
    {
        join_strings(&self.lines, ' ')
    }

    /// `M x,y`.
    pub fn move_to(&mut self, x: i64, y: i64)
        ensures
            final(self).lines_view() == old(self).lines_view().push(
                seq!['M'] + pair_of(x as int, y as int, old(self).digits()),
            ),
            final(self).digits() == old(self).digits(),
            final(self).position() == (x as int, y as int),
    {
        self.x = x;
        self.y = y;
        let mut s = String::new();
        push_char(&mut s, 'M');
        push_pair(&mut s, x, y, self.digit);
        self.push_line(s);
    }

    /// `L x,y`.
    pub fn line_to(&mut self, x: i64, y: i64)
        ensures
            final(self).lines_view() == old(self).lines_view().push(
                seq!['L'] + pair_of(x as int, y as int, old(self).digits()),
            ),
            final(self).digits() == old(self).digits(),
            final(self).position() == (x as int, y as int),
    {
        self.x = x;
        self.y = y;
        let mut s = String::new();
        push_char(&mut s, 'L');
        push_pair(&mut s, x, y, self.digit);
        self.push_line(s);
    }

    /// A quadratic curve: `Q x1,y1 x,y`.
    pub fn bezier_to(&mut self, x1: i64, y1: i64, x: i64, y: i64)
        ensures
            final(self).lines_view() == old(self).lines_view().push(
                seq!['Q'] + pair_of(x1 as int, y1 as int, old(self).digits()) + seq![' ']
                    + pair_of(x as int, y as int, old(self).digits()),
            ),
            final(self).digits() == old(self).digits(),
            final(self).position() == (x as int, y as int),
    {
        self.x = x;
        self.y = y;
        let mut s = String::new();
        push_char(&mut s, 'Q');
        push_pair(&mut s, x1, y1, self.digit);
        push_char(&mut s, ' ');
        push_pair(&mut s, x, y, self.digit);
        assert(s@ =~= seq!['Q'] + pair_of(x1 as int, y1 as int, self.digit as nat) + seq![' ']
            + pair_of(x as int, y as int, self.digit as nat));
        self.push_line(s);
    }

    /// A cubic curve: `C x1,y1 x2,y2 x,y`.
    pub fn bezier3_to(&mut self, x1: i64, y1: i64, x2: i64, y2: i64, x: i64, y: i64)
        ensures
            final(self).lines_view() == old(self).lines_view().push(
                seq!['C'] + pair_of(x1 as int, y1 as int, old(self).digits()) + seq![' ']
                    + pair_of(x2 as int, y2 as int, old(self).digits()) + seq![' '] + pair_of(
                    x as int,
                    y as int,
                    old(self).digits(),
                ),
            ),
            final(self).digits() == old(self).digits(),
            final(self).position() == (x as int, y as int),
    {
        self.x = x;
        self.y = y;
        let mut s = String::new();
        push_char(&mut s, 'C');
        push_pair(&mut s, x1, y1, self.digit);
        push_char(&mut s, ' ');
        push_pair(&mut s, x2, y2, self.digit);
        push_char(&mut s, ' ');
        push_pair(&mut s, x, y, self.digit);
        assert(s@ =~= seq!['C'] + pair_of(x1 as int, y1 as int, self.digit as nat) + seq![' ']
            + pair_of(x2 as int, y2 as int, self.digit as nat) + seq![' '] + pair_of(
            x as int,
            y as int,
            self.digit as nat,
        ));
        self.push_line(s);
    }

    /// An arc: `A cx,cy f 0 x,y`, with `f` 1 when clockwise, else 0.
    pub fn arc_to(&mut self, x: i64, y: i64, cx: i64, cy: i64, clockwise: bool)
        ensures
            final(self).lines_view() == old(self).lines_view().push(
                seq!['A'] + pair_of(cx as int, cy as int, old(self).digits()) + seq![
                    ' ',
                    if clockwise {
                        '1'
                    } else {
                        '0'
                    },
                    ' ',
                    '0',
                    ' ',
                ] + pair_of(x as int, y as int, old(self).digits()),
            ),
            final(self).digits() == old(self).digits(),
            final(self).position() == (x as int, y as int),
    {
        self.x = x;
        self.y = y;
        let mut s = String::new();
        push_char(&mut s, 'A');
        push_pair(&mut s, cx, cy, self.digit);
        push_char(&mut s, ' ');
        push_char(&mut s, if clockwise { '1' } else { '0' });
        push_char(&mut s, ' ');
        push_char(&mut s, '0');
        push_char(&mut s, ' ');
        push_pair(&mut s, x, y, self.digit);
        assert(s@ =~= seq!['A'] + pair_of(cx as int, cy as int, self.digit as nat) + seq![
            ' ',
            if clockwise {
                '1'
            } else {
                '0'
            },
            ' ',
            '0',
            ' ',
        ] + pair_of(x as int, y as int, self.digit as nat));
        self.push_line(s);
    }
}

/// The G-code lines for the begin and line events of a flattened path:
/// a rapid move to each start, a linear move to each line's end.
pub open spec fn gcode_lines_of(events: Seq<PathEvent>, digit: nat) -> Seq<Seq<char>>
    decreases events.len(),
{
    if events.len() == 0 {
        Seq::empty()
    } else {
        let init = gcode_lines_of(events.drop_last(), digit);
        match events.last() {
            PathEvent::Begin { at } => init.push(gcode_move(at.x as int, at.y as int, digit)),
            PathEvent::Line { to, .. } => init.push(gcode_line(to.x as int, to.y as int, digit)),
            _ => init,
        }
    }
}

/// The SVG commands for the begin and line events of a flattened path.
pub open spec fn svg_commands_of(events: Seq<PathEvent>, digit: nat) -> Seq<Seq<char>>
    decreases events.len(),
{
    if events.len() == 0 {
        Seq::empty()
    } else {
        let init = svg_commands_of(events.drop_last(), digit);
        match events.last() {
            PathEvent::Begin { at } => init.push(
                seq!['M'] + pair_of(at.x as int, at.y as int, digit),
            ),
            PathEvent::Line { to, .. } => init.push(
                seq!['L'] + pair_of(to.x as int, to.y as int, digit),
            ),
            _ => init,
        }
    }
}

pub open spec fn with_begin(begin: Seq<char>, lines: Seq<Seq<char>>) -> Seq<Seq<char>> {
    if begin.len() > 0 {
        seq![begin] + lines
    } else {
        lines
    }
}

/// G-code text for the begin and line events of a flattened path, after
/// the `begin` text when it is not empty; curve and end events write
/// nothing.
pub fn events_to_gcode(events: &Vec<PathEvent>, digit: usize, begin: &str) -> (r: String)
    ensures
        r@ == join(with_begin(begin@, gcode_lines_of(events@, digit as nat)), '\n'),
{
    let mut w = GCodeWriter::new(digit);
    let bv = chars_of(begin);
    if bv.len() > 0 {
        w.write_line(begin);
    }
    let ghost base = w.lines_view();
    assert(base + gcode_lines_of(events@.take(0), digit as nat) =~= base);
    let mut i: usize = 0;
    while i < events.len()
        invariant
            i <= events.len(),
            w.digits() == digit,
            w.lines_view() == base + gcode_lines_of(events@.take(i as int), digit as nat),
            base == with_begin(begin@, Seq::empty()),
        decreases events.len() - i,
    {
        assert(events@.take(i as int + 1).drop_last() =~= events@.take(i as int));
        match events[i] {
            PathEvent::Begin { at } => {
                w.move_to(at.x, at.y);
            },
            PathEvent::Line { to, .. } => {
                w.line_to(to.x, to.y);
            },
            _ => {},
        }
        i += 1;
        assert(w.lines_view() =~= base + gcode_lines_of(events@.take(i as int), digit as nat));
    }
    assert(events@.take(events.len() as int) =~= events@);
    assert(base + gcode_lines_of(events@, digit as nat) =~= with_begin(
        begin@,
        gcode_lines_of(events@, digit as nat),
    ));
    w.to_string()
}

/// SVG path data for the begin and line events of a flattened path, after
/// the `begin` text when it is not empty.
pub fn events_to_svg_path(events: &Vec<PathEvent>, digit: usize, begin: &str) -> (r: String)
    ensures
        r@ == join(with_begin(begin@, svg_commands_of(events@, digit as nat)), ' '),
{
    let mut w = SvgPathWriter::new(digit);
    let bv = chars_of(begin);
    if bv.len() > 0 {
        w.write_line(begin);
    }
    let ghost base = w.lines_view();
    assert(base + svg_commands_of(events@.take(0), digit as nat) =~= base);
    let mut i: usize = 0;
    while i < events.len()
        invariant
            i <= events.len(),
            w.digits() == digit,
            w.lines_view() == base + svg_commands_of(events@.take(i as int), digit as nat),
            base == with_begin(begin@, Seq::empty()),
        decreases events.len() - i,
    {
        assert(events@.take(i as int + 1).drop_last() =~= events@.take(i as int));
        match events[i] {
            PathEvent::Begin { at } => {
                w.move_to(at.x, at.y);
            },
            PathEvent::Line { to, .. } => {
                w.line_to(to.x, to.y);
            },
            _ => {},
        }
        i += 1;
        assert(w.lines_view() =~= base + svg_commands_of(events@.take(i as int), digit as nat));
    }
    assert(events@.take(events.len() as int) =~= events@);
    assert(base + svg_commands_of(events@, digit as nat) =~= with_begin(
        begin@,
        svg_commands_of(events@, digit as nat),
    ));
    w.to_string()
}

} // verus!

//! Writing a flattened path as G-code and reading it back through the
//! tokenizer and the layer builder gives back its points.

use vstd::prelude::*;
use crate::number::{
    all_digits, decimal_value, digit_value, digits_value, frac_part, frac_value, int_part,
    is_decimal, is_digit, is_exp_char, lemma_leading_non_dot, lemma_pow10_add, lemma_no_exponent, lemma_pow10_values,
    leading_non_dot, magnitude, pow10, sign_len, FRACTION_DIGITS,
};
use crate::handler::{
    lemma_run_layer_builder, GCodeValueHandlerPath,
    build_start, find_from, handle_line_spec,
    handle_lines, has_xy, layers_of, line_spec, move_spec, target, word, BuildState,
    };
use crate::parser::{
    run_handler,
    flushed, is_command_char, is_value_char, lemma_scan_append, lines_after_end,
    scan, scan_from, scan_start, scan_step, tokenize_spec, ScanState, Tok,
};
use crate::path::{bm_begin, bm_empty, bm_end, bm_line, PathEvent, Point};
use crate::sampler::move_points;
use crate::writer::{
    digit_char, format_fixed, gcode_line, gcode_lines_of, gcode_move, join, kept_digits, nat_digits,
    padded_digits, rounded, trim_zeros, word_of,
};

verus! {

proof fn lemma_digit_char(d: nat)
    requires
        d < 10,
    ensures
        is_digit(digit_char(d)),
        digit_value(digit_char(d)) == d,
        digit_char(d) != '.',
        digit_char(d) != '-',
        digit_char(d) != '+',
        is_value_char(digit_char(d)),
        d != 0 ==> digit_char(d) != '0',
{
}

proof fn lemma_pow10_pos_rt(n: nat)
    ensures
        pow10(n) >= 1,
    decreases n,
{
    if n > 0 {
        lemma_pow10_pos_rt((n - 1) as nat);
    }
}

proof fn lemma_digits_push(s: Seq<char>, c: char)
    ensures
        digits_value(s.push(c)) == digits_value(s) * 10 + digit_value(c),
{
    assert(s.push(c).drop_last() =~= s);
}

proof fn lemma_nat_digits(n: nat, k: nat)
    requires
        k >= 1,
        n < pow10(k),
    ensures
        all_digits(nat_digits(n)),
        digits_value(nat_digits(n)) == n,
        1 <= nat_digits(n).len() <= k,
    decreases n,
{
    lemma_digit_char(n % 10);
    if n < 10 {
        assert(seq![digit_char(n)] =~= Seq::<char>::empty().push(digit_char(n)));
        lemma_digits_push(Seq::<char>::empty(), digit_char(n));
    } else {
        assert(k >= 2) by {
            if k == 1 {
                assert(pow10(1) == 10 * pow10(0));
            }
        }
        let k1 = (k - 1) as nat;
        assert(pow10(k) == 10 * pow10(k1));
        assert(n / 10 < pow10(k1));
        lemma_nat_digits(n / 10, k1);
        let t = nat_digits(n / 10);
        lemma_digits_push(t, digit_char(n % 10));
        assert forall|i: int| 0 <= i < nat_digits(n).len() implies is_digit(
            #[trigger] nat_digits(n)[i],
        ) by {
            if i < t.len() {
                assert(nat_digits(n)[i] == t[i]);
            }
        }
    }
}

proof fn lemma_padded(f: nat, w: nat)
    requires
        f < pow10(w),
    ensures
        all_digits(padded_digits(f, w)),
        digits_value(padded_digits(f, w)) == f,
        padded_digits(f, w).len() == w,
    decreases w,
{
    if w == 0 {
        assert(digits_value(Seq::<char>::empty()) == 0);
    } else {
        let w1 = (w - 1) as nat;
        assert(pow10(w) == 10 * pow10(w1));
        assert(f / 10 < pow10(w1));
        lemma_padded(f / 10, w1);
        let t = padded_digits(f / 10, w1);
        lemma_digit_char(f % 10);
        lemma_digits_push(t, digit_char(f % 10));
        assert forall|i: int| 0 <= i < padded_digits(f, w).len() implies is_digit(
            #[trigger] padded_digits(f, w)[i],
        ) by {
            if i < t.len() {
                assert(padded_digits(f, w)[i] == t[i]);
            }
        }
    }
}

proof fn lemma_trim(s: Seq<char>)
    requires
        all_digits(s),
    ensures
        all_digits(trim_zeros(s)),
        trim_zeros(s).len() <= s.len(),
        digits_value(trim_zeros(s)) * pow10((s.len() - trim_zeros(s).len()) as nat)
            == digits_value(s),
    decreases s.len(),
{
    let t = trim_zeros(s);
    if s.len() > 0 && s.last() == '0' {
        let s1 = s.drop_last();
        assert(all_digits(s1)) by {
            assert forall|i: int| 0 <= i < s1.len() implies is_digit(#[trigger] s1[i]) by {
                assert(s1[i] == s[i]);
            }
        }
        lemma_trim(s1);
        let e = (s1.len() - t.len()) as nat;
        assert(pow10(e + 1) == 10 * pow10(e));
        assert(((s.len() - t.len()) as nat) == e + 1);
        assert(digits_value(s) == digits_value(s1) * 10);
        let a = digits_value(t);
        let p = pow10(e);
        assert(a * (10 * p) == (a * p) * 10) by (nonlinear_arith);
    } else {
        assert(pow10(0) == 1);
        assert(((s.len() - t.len()) as nat) == 0);
    }
}

/// The value that a fixed-point value reads back as once written with
/// `d` fraction digits: its magnitude rounded to `d` digits (at most six),
/// sign kept.
pub open spec fn written_value(v: int, d: nat) -> int {
    let k = kept_digits(d);
    let m = if v < 0 {
        -v
    } else {
        v
    };
    let r = rounded(m as nat, k) * pow10((FRACTION_DIGITS - k) as nat);
    if v < 0 {
        -r
    } else {
        r
    }
}

/// A fixed-point value written with `d` fraction digits reads back as the
/// value rounded to that many digits (the value itself for six or more),
/// and the text is made of value characters only.
pub proof fn lemma_format_parse(v: int, d: nat)
    requires
        -100000000000000000 < v < 100000000000000000,
    ensures
        decimal_value(format_fixed(v, d)) == written_value(v, d),
        -1000000000000000000 < written_value(v, d) < 1000000000000000000,
        d >= FRACTION_DIGITS ==> written_value(v, d) == v,
        forall|i: int|
            0 <= i < format_fixed(v, d).len() ==> is_value_char(#[trigger] format_fixed(v, d)[i]),
{
    lemma_pow10_values();
    assert(pow10(0) == 1);
    let k = kept_digits(d);
    let m = (if v < 0 {
        -v
    } else {
        v
    }) as nat;
    let pp = pow10((FRACTION_DIGITS - k) as nat);
    let kk = pow10(k);
    lemma_pow10_add((FRACTION_DIGITS - k) as nat, k);
    assert(((FRACTION_DIGITS - k) as nat + k) == FRACTION_DIGITS as nat);
    assert(pp * kk == 1000000);
    lemma_pow10_pos_rt((FRACTION_DIGITS - k) as nat);
    lemma_pow10_pos_rt(k);
    let q = rounded(m, k);
    assert(q == (m + pp / 2) / pp);
    let ip = (q as int / kk) as nat;
    let fp = (q as int % kk) as nat;
    assert(q * pp <= m + pp / 2) by (nonlinear_arith)
        requires
            q == (m + pp / 2) / pp,
            pp >= 1,
    ;
    assert(ip * kk <= q) by (nonlinear_arith)
        requires
            ip == q as int / kk,
            kk >= 1,
    ;
    assert(ip * 1000000 <= q * pp) by (nonlinear_arith)
        requires
            ip * kk <= q,
            pp * kk == 1000000,
            pp >= 1,
    ;
    assert(pp <= 1000000) by (nonlinear_arith)
        requires
            pp * kk == 1000000,
            kk >= 1,
            pp >= 1,
    ;
    assert(ip < 1000000000000);
    assert(fp < kk);
    lemma_nat_digits(ip, 12);
    lemma_padded(fp, k);
    let id = nat_digits(ip);
    let pd = padded_digits(fp, k);
    lemma_trim(pd);
    let frac = trim_zeros(pd);
    let tail = if frac.len() > 0 {
        seq!['.'] + frac
    } else {
        Seq::<char>::empty()
    };
    let sign = if v < 0 {
        seq!['-']
    } else {
        Seq::<char>::empty()
    };
    let s = sign + id + tail;
    assert(s == format_fixed(v, d));
    assert(sign_len(s) == sign.len()) by {
        if v >= 0 {
            assert(s[0] == id[0]);
            assert(is_digit(id[0]));
        }
    }
    let b = s.skip(sign_len(s));
    assert(b =~= id + tail);
    assert forall|j: int| 0 <= j < id.len() implies b[j] != '.' by {
        assert(b[j] == id[j]);
        assert(is_digit(id[j]));
    }
    if frac.len() > 0 {
        assert(b[id.len() as int] == '.');
    }
    lemma_leading_non_dot(b, id.len() as int);
    assert(leading_non_dot(b) == id.len());
    assert(int_part(s) =~= id);
    assert(frac_part(s) =~= frac);
    assert(is_decimal(s));
    let l = frac.len();
    assert(l <= k);
    assert(frac.take(l as int) =~= frac);
    assert(frac_value(frac) == digits_value(frac) * pow10((6 - l) as nat));
    lemma_pow10_add((k - l) as nat, (FRACTION_DIGITS - k) as nat);
    assert(((k - l) as nat + (FRACTION_DIGITS - k) as nat) == (6 - l) as nat);
    let dvf = digits_value(frac);
    let pkl = pow10((k - l) as nat);
    assert(dvf * pkl == fp);
    assert(frac_value(frac) == fp * pp) by (nonlinear_arith)
        requires
            frac_value(frac) == dvf * (pkl * pp),
            dvf * pkl == fp,
    ;
    assert(magnitude(s) == ip * 1000000 + fp * pp);
    assert(ip * 1000000 + fp * pp == q * pp) by (nonlinear_arith)
        requires
            ip == q as int / kk,
            fp == q as int % kk,
            pp * kk == 1000000,
            kk >= 1,
    ;
    assert(q * pp < 1000000000000000000);
    if d >= FRACTION_DIGITS {
        assert(k == 6);
        assert(pp == 1);
        assert(q == m);
    }
    assert forall|i: int| 0 <= i < s.len() implies is_value_char(#[trigger] s[i]) && !is_exp_char(
        s[i],
    ) by {
        if i < sign.len() {
        } else if i < sign.len() + id.len() {
            assert(s[i] == id[i - sign.len()]);
            assert(is_digit(id[i - sign.len()]));
        } else if i == sign.len() + id.len() {
        } else {
            assert(s[i] == frac[i - sign.len() - id.len() - 1]);
            assert(is_digit(frac[i - sign.len() - id.len() - 1]));
        }
    }
    lemma_no_exponent(s);
}

pub open spec fn point_bounded(p: Point) -> bool {
    -100000000000000000 < p.x < 100000000000000000 && -100000000000000000 < p.y
        < 100000000000000000
}

/// The points that an event moves or draws to are within 10^11 units.
pub open spec fn event_bounded(e: PathEvent) -> bool {
    match e {
        PathEvent::Begin { at } => point_bounded(at),
        PathEvent::Line { to, .. } => point_bounded(to),
        _ => true,
    }
}

pub open spec fn has_line(evs: Seq<PathEvent>) -> bool
    decreases evs.len(),
{
    evs.len() > 0 && (evs.last() is Line || has_line(evs.drop_last()))
}

pub open spec fn has_point(evs: Seq<PathEvent>) -> bool
    decreases evs.len(),
{
    evs.len() > 0 && (evs.last() is Line || evs.last() is Begin || has_point(evs.drop_last()))
}

/// A point as it reads back once written with `d` fraction digits.
pub open spec fn written_point(p: Point, d: nat) -> Point {
    Point { x: written_value(p.x as int, d) as i64, y: written_value(p.y as int, d) as i64 }
}

/// Move and line targets as they read back once written with `d` fraction
/// digits.
pub open spec fn written_moves(s: Seq<(bool, Point)>, d: nat) -> Seq<(bool, Point)> {
    s.map_values(|e: (bool, Point)| (e.0, written_point(e.1, d)))
}

/// The tokens of one written move line.
pub open spec fn tok_move(g: char, p: Point, d: nat) -> Seq<Tok> {
    seq![
        (seq!['G'], seq![g]),
        (seq!['X'], format_fixed(p.x as int, d)),
        (seq!['Y'], format_fixed(p.y as int, d)),
    ]
}

/// The token lines of the G-code written for a path.
pub open spec fn tok_lines_of(evs: Seq<PathEvent>, d: nat) -> Seq<Seq<Tok>>
    decreases evs.len(),
{
    if evs.len() == 0 {
        Seq::empty()
    } else {
        let init = tok_lines_of(evs.drop_last(), d);
        match evs.last() {
            PathEvent::Begin { at } => init.push(tok_move('0', at, d)),
            PathEvent::Line { to, .. } => init.push(tok_move('1', to, d)),
            _ => init,
        }
    }
}

pub open spec fn clean(t: Seq<Seq<Tok>>) -> ScanState {
    ScanState { lines: t, line: Seq::empty(), pending: None, comment: false }
}

/// The tokenizer's state at the end of a written line, before its newline.
pub open spec fn mid(t: Seq<Seq<Tok>>, tk: Seq<Tok>) -> ScanState {
    ScanState { lines: t, line: seq![tk[0], tk[1]], pending: Some(tk[2]), comment: false }
}

proof fn lemma_scan_push(st: ScanState, a: Seq<char>, c: char)
    ensures
        scan_from(st, a.push(c)) == scan_step(scan_from(st, a), c),
{
    assert(a.push(c).drop_last() =~= a);
}

proof fn lemma_scan_one(st: ScanState, c: char)
    ensures
        scan_from(st, seq![c]) == scan_step(st, c),
{
    lemma_scan_push(st, Seq::empty(), c);
    assert(Seq::<char>::empty().push(c) =~= seq![c]);
}

proof fn lemma_scan_values(st: ScanState, t: Tok, v: Seq<char>)
    requires
        !st.comment,
        st.pending == Some(t),
        forall|i: int| 0 <= i < v.len() ==> is_value_char(#[trigger] v[i]),
    ensures
        scan_from(st, v) == (ScanState { pending: Some((t.0, t.1 + v)), ..st }),
    decreases v.len(),
{
    if v.len() == 0 {
        assert(t.1 + v =~= t.1);
    } else {
        let v1 = v.drop_last();
        assert forall|i: int| 0 <= i < v1.len() implies is_value_char(#[trigger] v1[i]) by {
            assert(v1[i] == v[i]);
        }
        lemma_scan_values(st, t, v1);
        let c = v[v.len() - 1];
        assert(is_value_char(c));
        assert(!is_command_char(c));
        assert((t.1 + v1).push(c) =~= t.1 + v);
    }
}

/// Reading a written move line from a clean state.
#[verifier::rlimit(50)]
proof fn lemma_scan_line(t: Seq<Seq<Tok>>, g: char, p: Point, d: nat)
    requires
        g == '0' || g == '1',
        point_bounded(p),
    ensures
        scan_from(
            clean(t),
            seq!['G', g, ' '] + word_of('X', p.x as int, d) + seq![' '] + word_of(
                'Y',
                p.y as int,
                d,
            ),
        ) == mid(t, tok_move(g, p, d)),
{
    let fx = format_fixed(p.x as int, d);
    let fy = format_fixed(p.y as int, d);
    lemma_format_parse(p.x as int, d);
    lemma_format_parse(p.y as int, d);
    let a = seq!['G', g, ' '];
    assert(a =~= seq!['G'].push(g).push(' '));
    lemma_scan_one(clean(t), 'G');
    lemma_scan_push(clean(t), seq!['G'], g);
    lemma_scan_push(clean(t), seq!['G'].push(g), ' ');
    let s1 = scan_from(clean(t), a);
    assert(Seq::<char>::empty().push(g) =~= seq![g]);
    assert(s1 == ScanState {
        lines: t,
        line: Seq::empty(),
        pending: Some((seq!['G'], seq![g])),
        comment: false,
    });
    let w1 = word_of('X', p.x as int, d);
    lemma_scan_append(s1, seq!['X'], fx);
    lemma_scan_one(s1, 'X');
    let s1x = scan_step(s1, 'X');
    lemma_scan_values(s1x, (seq!['X'], Seq::empty()), fx);
    assert(Seq::<char>::empty() + fx =~= fx);
    let s2 = scan_from(s1, w1);
    assert(s2 == ScanState {
        lines: t,
        line: seq![(seq!['G'], seq![g])],
        pending: Some((seq!['X'], fx)),
        comment: false,
    }) by {
        assert(flushed(s1) =~= seq![(seq!['G'], seq![g])]);
    }
    lemma_scan_one(s2, ' ');
    let s3 = scan_from(s2, seq![' ']);
    assert(s3 == s2);
    let w2 = word_of('Y', p.y as int, d);
    lemma_scan_append(s3, seq!['Y'], fy);
    lemma_scan_one(s3, 'Y');
    let s3y = scan_step(s3, 'Y');
    lemma_scan_values(s3y, (seq!['Y'], Seq::empty()), fy);
    assert(Seq::<char>::empty() + fy =~= fy);
    assert(flushed(s3) =~= seq![(seq!['G'], seq![g]), (seq!['X'], fx)]);
    let s4 = scan_from(s3, w2);
    let tk = tok_move(g, p, d);
    assert(s4 == mid(t, tk)) by {
        assert(seq![tk[0], tk[1]] =~= seq![(seq!['G'], seq![g]), (seq!['X'], fx)]);
    }
    lemma_scan_append(clean(t), a, w1);
    lemma_scan_append(clean(t), a + w1, seq![' ']);
    lemma_scan_append(clean(t), a + w1 + seq![' '], w2);
}

proof fn lemma_tok_lines(evs: Seq<PathEvent>, d: nat)
    ensures
        gcode_lines_of(evs, d).len() == tok_lines_of(evs, d).len(),
        forall|i: int|
            0 <= i < tok_lines_of(evs, d).len() ==> (#[trigger] tok_lines_of(evs, d)[i]).len() == 3,
    decreases evs.len(),
{
    if evs.len() > 0 {
        lemma_tok_lines(evs.drop_last(), d);
    }
}

/// The written G-code tokenizes into one line of three tokens per move.
proof fn lemma_tokenize_written(evs: Seq<PathEvent>, d: nat)
    requires
        forall|i: int| 0 <= i < evs.len() ==> event_bounded(#[trigger] evs[i]),
    ensures
        tokenize_spec(join(gcode_lines_of(evs, d), '\n')) == tok_lines_of(evs, d),
        tok_lines_of(evs, d).len() > 0 ==> scan(join(gcode_lines_of(evs, d), '\n')) == mid(
            tok_lines_of(evs, d).drop_last(),
            tok_lines_of(evs, d).last(),
        ),
    decreases evs.len(),
{
    lemma_tok_lines(evs, d);
    if evs.len() == 0 {
        assert(lines_after_end(scan_start()) =~= Seq::<Seq<Tok>>::empty());
    } else {
        let e1 = evs.drop_last();
        assert forall|i: int| 0 <= i < e1.len() implies event_bounded(#[trigger] e1[i]) by {
            assert(e1[i] == evs[i]);
        }
        lemma_tokenize_written(e1, d);
        lemma_tok_lines(e1, d);
        assert(event_bounded(evs[evs.len() - 1]));
        let g1 = gcode_lines_of(e1, d);
        let t1 = tok_lines_of(e1, d);
        let (g, p) = match evs.last() {
            PathEvent::Begin { at } => ('0', at),
            PathEvent::Line { to, .. } => ('1', to),
            _ => (' ', Point { x: 0, y: 0 }),
        };
        if g != ' ' {
            let text = if g == '0' {
                gcode_move(p.x as int, p.y as int, d)
            } else {
                gcode_line(p.x as int, p.y as int, d)
            };
            let gs = gcode_lines_of(evs, d);
            let ts = tok_lines_of(evs, d);
            assert(gs == g1.push(text));
            assert(ts == t1.push(tok_move(g, p, d)));
            let tk = tok_move(g, p, d);
            let st0 = if g1.len() == 0 {
                clean(Seq::empty())
            } else {
                clean(t1)
            };
            if g1.len() == 0 {
                assert(gs.len() == 1);
                assert(join(gs, '\n') == text);
                assert(scan_start() == clean(Seq::empty()));
                lemma_scan_line(Seq::empty(), g, p, d);
                assert(t1 =~= Seq::<Seq<Tok>>::empty());
            } else {
                assert(gs.drop_last() =~= g1);
                assert(join(gs, '\n') == join(g1, '\n').push('\n') + text);
                let m1 = mid(t1.drop_last(), t1.last());
                assert(t1.last().len() == 3);
                assert(flushed(m1) =~= t1.last());
                assert(t1.drop_last().push(t1.last()) =~= t1);
                lemma_scan_push(scan_start(), join(g1, '\n'), '\n');
                assert(scan(join(g1, '\n').push('\n')) == clean(t1));
                lemma_scan_append(scan_start(), join(g1, '\n').push('\n'), text);
                lemma_scan_line(t1, g, p, d);
            }
            assert(ts.drop_last() =~= t1);
            let m = mid(t1, tk);
            assert(flushed(m) =~= tk);
        } else {
            assert(gcode_lines_of(evs, d) == g1);
            assert(tok_lines_of(evs, d) == t1);
        }
    }
}

proof fn lemma_first_begin(evs: Seq<PathEvent>)
    requires
        evs.len() > 0,
        evs[0] is Begin,
    ensures
        has_point(evs),
    decreases evs.len(),
{
    if evs.len() > 1 {
        let e1 = evs.drop_last();
        assert(e1[0] == evs[0]);
        lemma_first_begin(e1);
    }
}

/// A written move line makes the builder move or draw to its point.
#[verifier::rlimit(80)]
proof fn lemma_handle_written(st: BuildState, g: char, p: Point, d: nat)
    requires
        g == '0' || g == '1',
        point_bounded(p),
        !st.inch,
        !st.relative,
    ensures
        g == '0' ==> handle_line_spec(st, tok_move(g, p, d)) == move_spec(st, tok_move(g, p, d)),
        g == '1' ==> handle_line_spec(st, tok_move(g, p, d)) == line_spec(st, tok_move(g, p, d)),
        target(st, tok_move(g, p, d)) == written_point(p, d),
{
    let tk = tok_move(g, p, d);
    lemma_format_parse(p.x as int, d);
    lemma_format_parse(p.y as int, d);
    let w = word(tk[0]);
    assert(w =~= seq!['G', g]);
    assert(w != seq!['G', '9', '0'] && w != seq!['G', '9', '1'] && w != seq!['G', '2', '0'] && w
        != seq!['G', '2', '1']) by {
        assert(w.len() == 2);
        assert(seq!['G', '9', '0'].len() == 3);
    }
    assert(has_xy(tk)) by {
        assert(tk[1].0 == seq!['X']);
    }
    if g == '1' {
        assert(w != seq!['G', '0']) by {
            assert(w[1] != seq!['G', '0'][1]);
        }
    }
    assert(seq!['G'] != seq!['X']) by {
        assert(seq!['G'][0] != seq!['X'][0]);
    }
    assert(seq!['G'] != seq!['Y']) by {
        assert(seq!['G'][0] != seq!['Y'][0]);
    }
    assert(seq!['X'] != seq!['Y']) by {
        assert(seq!['X'][0] != seq!['Y'][0]);
    }
    assert(find_from(tk, 'X', 0) == Some(tk[1])) by {
        assert(find_from(tk, 'X', 1) == Some(tk[1]));
    }
    assert(find_from(tk, 'Y', 0) == Some(tk[2])) by {
        assert(find_from(tk, 'Y', 2) == Some(tk[2]));
        assert(find_from(tk, 'Y', 1) == Some(tk[2]));
    }
}

/// The builder's state after the written lines of a path: no layer yet,
/// absolute millimetres, and an open path through the same points.
proof fn lemma_build_written(evs: Seq<PathEvent>, d: nat)
    requires
        forall|i: int| 0 <= i < evs.len() ==> event_bounded(#[trigger] evs[i]),
        evs.len() > 0 ==> evs[0] is Begin,
    ensures
        ({
            let st = handle_lines(build_start(), tok_lines_of(evs, d));
            &&& st.layers.len() == 0
            &&& st.z is None
            &&& !st.inch
            &&& !st.relative
            &&& (st.path is Some <==> has_point(evs))
            &&& (st.path is Some ==> move_points(st.path->0.events) == written_moves(
                move_points(evs),
                d,
            ))
            &&& (!has_point(evs) ==> move_points(evs) == Seq::<(bool, Point)>::empty())
            &&& (has_line(evs) ==> has_point(evs))
            &&& st.path_line == has_line(evs)
        }),
    decreases evs.len(),
{
    if evs.len() > 0 {
        let e1 = evs.drop_last();
        assert forall|i: int| 0 <= i < e1.len() implies event_bounded(#[trigger] e1[i]) by {
            assert(e1[i] == evs[i]);
        }
        if e1.len() > 0 {
            assert(e1[0] == evs[0]);
        }
        lemma_build_written(e1, d);
        assert(event_bounded(evs[evs.len() - 1]));
        let t1 = tok_lines_of(e1, d);
        let st1 = handle_lines(build_start(), t1);
        match evs.last() {
            PathEvent::Begin { at } => {
                let tk = tok_move('0', at, d);
                assert(tok_lines_of(evs, d).drop_last() =~= t1);
                lemma_handle_written(st1, '0', at, d);
                let b = match st1.path {
                    Some(b) => b,
                    None => bm_empty(),
                };
                let b1 = if b.in_contour {
                    bm_end(b, false)
                } else {
                    b
                };
                assert(move_points(bm_end(b, false).events) == move_points(b.events)) by {
                    assert(bm_end(b, false).events.drop_last() =~= b.events);
                }
                let wp = written_point(at, d);
                assert(bm_begin(b1, wp).events.drop_last() =~= b1.events);
                assert(written_moves(move_points(evs), d) =~= written_moves(move_points(e1), d).push(
                    (true, wp),
                ));
                if st1.path is None {
                    assert(move_points(b.events) =~= Seq::<(bool, Point)>::empty());
                    assert(written_moves(move_points(e1), d) =~= Seq::<(bool, Point)>::empty());
                }
            },
            PathEvent::Line { to, .. } => {
                let tk = tok_move('1', to, d);
                assert(tok_lines_of(evs, d).drop_last() =~= t1);
                lemma_handle_written(st1, '1', to, d);
                assert(e1.len() > 0);
                lemma_first_begin(e1);
                let b = st1.path->0;
                let wp = written_point(to, d);
                assert(bm_line(b, wp).events.drop_last() =~= b.events);
                assert(written_moves(move_points(evs), d) =~= written_moves(move_points(e1), d).push(
                    (false, wp),
                ));
            },
            _ => {},
        }
    }
}

/// With six or more fraction digits, writing keeps every point.
proof fn lemma_written_exact(evs: Seq<PathEvent>, d: nat)
    requires
        d >= FRACTION_DIGITS,
        forall|i: int| 0 <= i < evs.len() ==> event_bounded(#[trigger] evs[i]),
    ensures
        written_moves(move_points(evs), d) == move_points(evs),
    decreases evs.len(),
{
    if evs.len() > 0 {
        let e1 = evs.drop_last();
        assert forall|i: int| 0 <= i < e1.len() implies event_bounded(#[trigger] e1[i]) by {
            assert(e1[i] == evs[i]);
        }
        lemma_written_exact(e1, d);
        assert(event_bounded(evs[evs.len() - 1]));
        match evs.last() {
            PathEvent::Begin { at } => {
                lemma_format_parse(at.x as int, d);
                lemma_format_parse(at.y as int, d);
                assert(written_moves(move_points(evs), d) =~= written_moves(move_points(e1), d).push(
                    (true, written_point(at, d)),
                ));
            },
            PathEvent::Line { to, .. } => {
                lemma_format_parse(to.x as int, d);
                lemma_format_parse(to.y as int, d);
                assert(written_moves(move_points(evs), d) =~= written_moves(move_points(e1), d).push(
                    (false, written_point(to, d)),
                ));
            },
            _ => {},
        }
    }
}

/// Writing a flattened path as G-code and rebuilding layers from that text
/// gives one layer, without a height, that moves and draws to the same
/// points in the same order, each rounded to the written digits (exactly
/// the same points with six or more digits); a path with no line gives no
/// layer.
pub proof fn lemma_gcode_round_trip(evs: Seq<PathEvent>, digit: nat)
    requires
        forall|i: int| 0 <= i < evs.len() ==> event_bounded(#[trigger] evs[i]),
        evs.len() > 0 ==> evs[0] is Begin,
    ensures
        ({
            let layers = layers_of(tokenize_spec(join(gcode_lines_of(evs, digit), '\n')));
            &&& has_line(evs) ==> layers.len() == 1 && layers[0].z is None && move_points(
                layers[0].events,
            ) == written_moves(move_points(evs), digit)
            &&& has_line(evs) && digit >= FRACTION_DIGITS ==> move_points(layers[0].events)
                == move_points(evs)
            &&& !has_line(evs) ==> layers.len() == 0
        }),
{
    lemma_tokenize_written(evs, digit);
    lemma_build_written(evs, digit);
    let st = handle_lines(build_start(), tok_lines_of(evs, digit));
    if has_line(evs) {
        let b = st.path->0;
        assert(move_points(bm_end(b, false).events) == move_points(b.events)) by {
            assert(bm_end(b, false).events.drop_last() =~= b.events);
        }
        if digit >= FRACTION_DIGITS {
            lemma_written_exact(evs, digit);
        }
    }
}

/// The same round trip through the parser and a fresh layer builder: after
/// `parse`, the builder holds one layer, without a height, through the
/// path's points in order, rounded to the written digits (none when the
/// path has no line).
pub proof fn lemma_gcode_round_trip_through_parse(evs: Seq<PathEvent>, digit: nat)
    requires
        forall|i: int| 0 <= i < evs.len() ==> event_bounded(#[trigger] evs[i]),
        evs.len() > 0 ==> evs[0] is Begin,
    ensures
        ({
            let layers = run_handler::<GCodeValueHandlerPath>(
                build_start(),
                tokenize_spec(join(gcode_lines_of(evs, digit), '\n')),
            ).layers;
            &&& has_line(evs) ==> layers.len() == 1 && layers[0].z is None && move_points(
                layers[0].events,
            ) == written_moves(move_points(evs), digit)
            &&& has_line(evs) && digit >= FRACTION_DIGITS ==> move_points(layers[0].events)
                == move_points(evs)
            &&& !has_line(evs) ==> layers.len() == 0
        }),
{
    lemma_gcode_round_trip(evs, digit);
    lemma_run_layer_builder(tokenize_spec(join(gcode_lines_of(evs, digit), '\n')));
}

} // verus!

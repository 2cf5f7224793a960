//! The grouping half of the path sampler: turning the points of a flattened
//! path, or the samples of a walk along it, into point sequences and G-code.

use vstd::prelude::*;
use crate::path::{PathEvent, Point};
use crate::text::chars_of;
use crate::writer::{gcode_line, gcode_move, join, with_begin, GCodeWriter};

verus! {

/// The move and line targets of a path, in order: `true` for the start of
/// a contour, `false` for the end of a line.
pub open spec fn move_points(evs: Seq<PathEvent>) -> Seq<(bool, Point)>
    decreases evs.len(),
{
    if evs.len() == 0 {
        Seq::empty()
    } else {
        let init = move_points(evs.drop_last());
        match evs.last() {
            PathEvent::Begin { at } => init.push((true, at)),
            PathEvent::Line { to, .. } => init.push((false, to)),
            _ => init,
        }
    }
}

/// Samples grouped into point sequences: a sample flagged as a start opens
/// a new sequence, any other sample extends the current one (or opens the
/// first).
pub open spec fn grouped(samples: Seq<(bool, Point)>) -> Seq<Seq<Point>>
    decreases samples.len(),
{
    if samples.len() == 0 {
        Seq::empty()
    } else {
        let g = grouped(samples.drop_last());
        let (start, p) = samples.last();
        if start || g.len() == 0 {
            g.push(seq![p])
        } else {
            g.update(g.len() - 1, g.last().push(p))
        }
    }
}

/// The point sequences of a flattened path: each Begin opens a sequence
/// with its point, each Line adds its end point, other events add nothing.
pub open spec fn lines_of(evs: Seq<PathEvent>) -> Seq<Seq<Point>> {
    grouped(move_points(evs))
}

pub open spec fn points_model(v: Seq<Vec<Point>>) -> Seq<Seq<Point>> {
    v.map_values(|l: Vec<Point>| l@)
}

/// The G-code lines of walk samples: a rapid move for each start, a linear
/// move for every other sample.
pub open spec fn sample_lines_of(samples: Seq<(bool, Point)>, digit: nat) -> Seq<Seq<char>>
    decreases samples.len(),
{
    if samples.len() == 0 {
        Seq::empty()
    } else {
        let (start, p) = samples.last();
        let line = if start {
            gcode_move(p.x as int, p.y as int, digit)
        } else {
            gcode_line(p.x as int, p.y as int, digit)
        };
        sample_lines_of(samples.drop_last(), digit).push(line)
    }
}

/// The move and line targets of a path.
pub fn event_samples(events: &Vec<PathEvent>) -> (r: Vec<(bool, Point)>)
    ensures
        r@ == move_points(events@),
{
    let mut out: Vec<(bool, Point)> = Vec::new();
    let mut i: usize = 0;
    while i < events.len()
        invariant
            i <= events.len(),
            out@ == move_points(events@.take(i as int)),
        decreases events.len() - i,
    {
        assert(events@.take(i as int + 1).drop_last() =~= events@.take(i as int));
        match events[i] {
            PathEvent::Begin { at } => out.push((true, at)),
            PathEvent::Line { to, .. } => out.push((false, to)),
            _ => {},
        }
        i += 1;
    }
    assert(events@.take(events.len() as int) =~= events@);
    out
}

/// Groups samples into point sequences; a start sample opens a sequence.
pub fn samples_to_lines(samples: &Vec<(bool, Point)>) -> (r: Vec<Vec<Point>>)
    ensures
        points_model(r@) == grouped(samples@),
{
    let mut out: Vec<Vec<Point>> = Vec::new();
    let mut cur: Vec<Point> = Vec::new();
    let mut has_cur = false;
    let mut i: usize = 0;
    assert(points_model(out@) =~= Seq::<Seq<Point>>::empty());
    while i < samples.len()
        invariant
            i <= samples.len(),
            has_cur == (i > 0),
            grouped(samples@.take(i as int)) == if has_cur {
                points_model(out@).push(cur@)
            } else {
                points_model(out@)
            },
        decreases samples.len() - i,
    {
        assert(samples@.take(i as int + 1).drop_last() =~= samples@.take(i as int));
        let (start, p) = samples[i];
        let ghost g = grouped(samples@.take(i as int));
        if !has_cur {
            cur = vec![p];
            has_cur = true;
            assert(cur@ =~= seq![p]);
            assert(g.push(seq![p]) =~= points_model(out@).push(cur@));
        } else if start {
            let ghost before = out@;
            out.push(cur);
            assert(points_model(out@) =~= points_model(before).push(g.last()));
            cur = vec![p];
            assert(cur@ =~= seq![p]);
            assert(g.push(seq![p]) =~= points_model(out@).push(cur@));
        } else {
            cur.push(p);
            assert(g.update(g.len() - 1, g.last().push(p)) =~= points_model(out@).push(cur@));
        }
        i += 1;
    }
    assert(samples@.take(samples.len() as int) =~= samples@);
    if has_cur {
        let ghost before = out@;
        out.push(cur);
        assert(points_model(out@) =~= points_model(before).push(cur@));
    }
    out
}

/// The point sequences of a flattened path.
pub fn events_to_lines(events: &Vec<PathEvent>) -> (r: Vec<Vec<Point>>)
    ensures
        points_model(r@) == lines_of(events@),
{
    let samples = event_samples(events);
    samples_to_lines(&samples)
}

/// G-code for walk samples, after the `begin` text when it is not empty: a
/// rapid move at each start sample, a linear move at every other.
pub fn samples_to_gcode(samples: &Vec<(bool, Point)>, digit: usize, begin: &str) -> (r: String)
    ensures
        r@ == join(with_begin(begin@, sample_lines_of(samples@, digit as nat)), '\n'),
{
    let mut w = GCodeWriter::new(digit);
    let bv = chars_of(begin);
    if bv.len() > 0 {
        w.write_line(begin);
    }
    let ghost base = w.lines_view();
    assert(base + sample_lines_of(samples@.take(0), digit as nat) =~= base);
    let mut i: usize = 0;
    while i < samples.len()
        invariant
            i <= samples.len(),
            w.digits() == digit,
            w.lines_view() == base + sample_lines_of(samples@.take(i as int), digit as nat),
            base == with_begin(begin@, Seq::empty()),
        decreases samples.len() - i,
    {
        assert(samples@.take(i as int + 1).drop_last() =~= samples@.take(i as int));
        let (start, p) = samples[i];
        if start {
            w.move_to(p.x, p.y);
        } else {
            w.line_to(p.x, p.y);
        }
        i += 1;
        assert(w.lines_view() =~= base + sample_lines_of(samples@.take(i as int), digit as nat));
    }
    assert(samples@.take(samples.len() as int) =~= samples@);
    assert(base + sample_lines_of(samples@, digit as nat) =~= with_begin(
        begin@,
        sample_lines_of(samples@, digit as nat),
    ));
    w.to_string()
}

} // verus!

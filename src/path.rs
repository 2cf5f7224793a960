//! The vector path model: multi-contour sequences of begin / line /
//! quadratic / cubic / end events over fixed-point points, a builder for
//! them, and the contour splitter.

use vstd::prelude::*;

verus! {

/// A point in fixed point (millionths of a unit).
#[derive(Clone, Copy, Debug, PartialEq, Eq, Structural)]
pub struct Point {
    pub x: i64,
    pub y: i64,
}

pub fn point(x: i64, y: i64) -> (r: Point)
    ensures
        r == (Point { x, y }),
{
    Point { x, y }
}

/// One event of a path.
#[derive(Clone, Copy, Debug, PartialEq, Eq, Structural)]
pub enum PathEvent {
    Begin { at: Point },
    Line { from: Point, to: Point },
    Quadratic { from: Point, ctrl: Point, to: Point },
    Cubic { from: Point, ctrl1: Point, ctrl2: Point, to: Point },
    End { last: Point, first: Point, close: bool },
}

/// An ordered sequence of path events, possibly of several contours.
#[derive(Clone, Debug)]
pub struct Path {
    pub events: Vec<PathEvent>,
}

pub open spec fn is_segment(e: PathEvent) -> bool {
    e is Line || e is Quadratic || e is Cubic
}

/// One Begin ... End run: a Begin, drawing events, and an End.
pub open spec fn is_contour(c: Seq<PathEvent>) -> bool {
    &&& c.len() >= 2
    &&& c[0] is Begin
    &&& c.last() is End
    &&& forall|i: int| 0 < i < c.len() - 1 ==> is_segment(#[trigger] c[i])
}

/// The runs one after another.
pub open spec fn concat_all(cs: Seq<Seq<PathEvent>>) -> Seq<PathEvent>
    decreases cs.len(),
{
    if cs.len() == 0 {
        Seq::empty()
    } else {
        concat_all(cs.drop_last()) + cs.last()
    }
}

/// What the contour splitter has seen: the finished contours, and the
/// contour that is open, if any.
pub struct SplitState {
    pub done: Seq<Seq<PathEvent>>,
    pub open: Option<Seq<PathEvent>>,
}

/// One event's effect on the splitter: a Begin opens a new contour (an
/// unfinished one is given up), drawing events extend the open contour and
/// are dropped when none is open, and an End finishes the open contour.
pub open spec fn split_step(st: SplitState, e: PathEvent) -> SplitState {
    match e {
        PathEvent::Begin { .. } => SplitState { done: st.done, open: Some(seq![e]) },
        PathEvent::End { .. } => match st.open {
            Some(c) => SplitState { done: st.done.push(c.push(e)), open: None },
            None => st,
        },
        _ => match st.open {
            Some(c) => SplitState { done: st.done, open: Some(c.push(e)) },
            None => st,
        },
    }
}

pub open spec fn split_from(st: SplitState, evs: Seq<PathEvent>) -> SplitState
    decreases evs.len(),
{
    if evs.len() == 0 {
        st
    } else {
        split_step(split_from(st, evs.drop_last()), evs.last())
    }
}

pub open spec fn split_start() -> SplitState {
    SplitState { done: Seq::empty(), open: None }
}

/// The single-contour runs of an event sequence, in order.
pub open spec fn contours(evs: Seq<PathEvent>) -> Seq<Seq<PathEvent>> {
    split_from(split_start(), evs).done
}

pub open spec fn paths_events(ps: Seq<Path>) -> Seq<Seq<PathEvent>> {
    ps.map_values(|p: Path| p.events@)
}

/// Splits a multi-contour path into single-contour paths, in order. Drawing
/// events outside any contour, and a last contour without an End, give no
/// output.
pub fn split_path_contours(path: &Path) -> (r: Vec<Path>)
    ensures
        paths_events(r@) == contours(path.events@),
{
    let evs = &path.events;
    let mut out: Vec<Path> = Vec::new();
    let mut open: Option<Vec<PathEvent>> = None;
    let mut i: usize = 0;
    assert(paths_events(out@) =~= Seq::<Seq<PathEvent>>::empty());
    while i < evs.len()
        invariant
            i <= evs.len(),
            split_from(split_start(), evs@.take(i as int)) == (SplitState {
                done: paths_events(out@),
                open: match open {
                    Some(v) => Some(v@),
                    None => None,
                },
            }),
        decreases evs.len() - i,
    {
        let e = evs[i];
        proof {
            let t = evs@.take(i as int + 1);
            assert(t.drop_last() =~= evs@.take(i as int));
        }
        let ghost old_out = out@;
        match e {
            PathEvent::Begin { .. } => {
                open = Some(vec![e]);
                assert(open->0@ =~= seq![e]);
            },
            PathEvent::End { .. } => {
                match open {
                    Some(mut v) => {
                        v.push(e);
                        out.push(Path { events: v });
                        open = None;
                        assert(paths_events(out@) =~= paths_events(old_out).push(v@));
                    },
                    None => {
                        open = None;
                    },
                }
            },
            _ => {
                match open {
                    Some(mut v) => {
                        v.push(e);
                        open = Some(v);
                    },
                    None => {
                        open = None;
                    },
                }
            },
        }
        i += 1;
    }
    assert(evs@.take(evs.len() as int) =~= evs@);
    out
}

proof fn lemma_split_append(st: SplitState, a: Seq<PathEvent>, b: Seq<PathEvent>)
    ensures
        split_from(st, a + b) == split_from(split_from(st, a), b),
    decreases b.len(),
{
    if b.len() == 0 {
        assert(a + b =~= a);
    } else {
        assert((a + b).drop_last() =~= a + b.drop_last());
        lemma_split_append(st, a, b.drop_last());
    }
}

/// Splitting one contour, from a state with no open contour, finishes it.
proof fn lemma_split_contour(st: SplitState, c: Seq<PathEvent>)
    requires
        is_contour(c),
        st.open is None,
    ensures
        split_from(st, c) == (SplitState { done: st.done.push(c), open: None }),
{
    let body = c.drop_last();
    lemma_split_open(st, body);
    assert(c.drop_last() =~= body);
    assert(body.push(c.last()) =~= c);
    let e = c.last();
    assert(e is End);
}

/// After a Begin and drawing events, the run so far is the open contour.
proof fn lemma_split_open(st: SplitState, body: Seq<PathEvent>)
    requires
        body.len() >= 1,
        body[0] is Begin,
        forall|i: int| 0 < i < body.len() ==> is_segment(#[trigger] body[i]),
        st.open is None,
    ensures
        split_from(st, body) == (SplitState { done: st.done, open: Some(body) }),
    decreases body.len(),
{
    if body.len() == 1 {
        assert(body.drop_last() =~= Seq::<PathEvent>::empty());
        assert(seq![body[0]] =~= body);
    } else {
        let p = body.drop_last();
        assert forall|i: int| 0 < i < p.len() implies is_segment(#[trigger] p[i]) by {
            assert(p[i] == body[i]);
        }
        lemma_split_open(st, p);
        assert(is_segment(body[body.len() - 1]));
        assert(p.push(body.last()) =~= body);
    }
}

/// A path made of whole contours splits back into exactly those contours,
/// each with its events unchanged and in order.
pub proof fn lemma_split_whole_contours(cs: Seq<Seq<PathEvent>>)
    requires
        forall|i: int| 0 <= i < cs.len() ==> is_contour(#[trigger] cs[i]),
    ensures
        contours(concat_all(cs)) == cs,
        split_from(split_start(), concat_all(cs)).open is None,
    decreases cs.len(),
{
    if cs.len() == 0 {
        assert(split_start().done =~= cs);
    } else {
        let init = cs.drop_last();
        assert forall|i: int| 0 <= i < init.len() implies is_contour(#[trigger] init[i]) by {
            assert(init[i] == cs[i]);
        }
        lemma_split_whole_contours(init);
        let st = split_from(split_start(), concat_all(init));
        lemma_split_append(split_start(), concat_all(init), cs.last());
        assert(is_contour(cs[cs.len() - 1]));
        lemma_split_contour(st, cs.last());
        assert(init.push(cs.last()) =~= cs);
    }
}

/// The builder's state as the contracts see it.
pub struct BuilderModel {
    pub events: Seq<PathEvent>,
    pub first: Point,
    pub current: Point,
    pub in_contour: bool,
}

pub open spec fn bm_empty() -> BuilderModel {
    BuilderModel {
        events: Seq::empty(),
        first: Point { x: 0, y: 0 },
        current: Point { x: 0, y: 0 },
        in_contour: false,
    }
}

pub open spec fn bm_begin(b: BuilderModel, at: Point) -> BuilderModel {
    BuilderModel {
        events: b.events.push(PathEvent::Begin { at }),
        first: at,
        current: at,
        in_contour: true,
    }
}

pub open spec fn bm_line(b: BuilderModel, to: Point) -> BuilderModel {
    BuilderModel {
        events: b.events.push(PathEvent::Line { from: b.current, to }),
        current: to,
        ..b
    }
}

pub open spec fn bm_end(b: BuilderModel, close: bool) -> BuilderModel {
    BuilderModel {
        events: b.events.push(PathEvent::End { last: b.current, first: b.first, close }),
        in_contour: false,
        ..b
    }
}

/// Builds a path event by event, tracking the current and first points of
/// the open contour.
#[derive(Clone, Debug)]
pub struct PathBuilder {
    events: Vec<PathEvent>,
    first: Point,
    current: Point,
    in_contour: bool,
}

impl PathBuilder {
    pub closed spec fn model(&self) -> BuilderModel {
        BuilderModel {
            events: self.events@,
            first: self.first,
            current: self.current,
            in_contour: self.in_contour,
        }
    }

    pub fn new() -> (r: Self)
        ensures
            r.model() == bm_empty(),
    {
        PathBuilder {
            events: Vec::new(),
            first: Point { x: 0, y: 0 },
            current: Point { x: 0, y: 0 },
            in_contour: false,
        }
    }

    pub fn is_in_contour(&self) -> (r: bool)
        ensures
            r == self.model().in_contour,
    {
        self.in_contour
    }

    /// Starts a contour at `at`.
    pub fn begin(&mut self, at: Point)
        ensures
            final(self).model() == bm_begin(old(self).model(), at),
    {
        self.events.push(PathEvent::Begin { at });
        self.first = at;
        self.current = at;
        self.in_contour = true;
    }

    /// A straight segment from the current point to `to`.
    pub fn line_to(&mut self, to: Point)
        ensures
            final(self).model() == bm_line(old(self).model(), to),
    {
        self.events.push(PathEvent::Line { from: self.current, to });
        self.current = to;
    }

    /// A quadratic curve from the current point to `to`.
    pub fn quadratic_bezier_to(&mut self, ctrl: Point, to: Point)
        ensures
            final(self).model() == (BuilderModel {
                events: old(self).model().events.push(
                    PathEvent::Quadratic { from: old(self).model().current, ctrl, to },
                ),
                current: to,
                ..old(self).model()
            }),
    {
        self.events.push(PathEvent::Quadratic { from: self.current, ctrl, to });
        self.current = to;
    }

    /// A cubic curve from the current point to `to`.
    pub fn cubic_bezier_to(&mut self, ctrl1: Point, ctrl2: Point, to: Point)
        ensures
            final(self).model() == (BuilderModel {
                events: old(self).model().events.push(
                    PathEvent::Cubic { from: old(self).model().current, ctrl1, ctrl2, to },
                ),
                current: to,
                ..old(self).model()
            }),
    {
        self.events.push(PathEvent::Cubic { from: self.current, ctrl1, ctrl2, to });
        self.current = to;
    }

    /// Ends the open contour, joining it back to its start when `close`.
    pub fn end(&mut self, close: bool)
        ensures
            final(self).model() == bm_end(old(self).model(), close),
    {
        self.events.push(PathEvent::End { last: self.current, first: self.first, close });
        self.in_contour = false;
    }

    /// The path of the events so far.
    pub fn build(self) -> (r: Path)
        ensures
            r.events@ == self.model().events,
    {
        Path { events: self.events }
    }
}

} // verus!

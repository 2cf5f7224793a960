//! The layer builder: a handler that rebuilds per-height vector paths from
//! G-code token lines, tracking the coordinate mode and the unit.

use vstd::prelude::*;
use crate::number::decimal_value;
use crate::parser::{
    handle_all, line_model, lines_model, run_handler, tokenize, tokenize_spec, GCodeValue,
    GCodeValueHandler, Tok,
};
use crate::path::{
    bm_begin, bm_empty, bm_end, bm_line, BuilderModel, Path, PathBuilder, PathEvent, Point,
};

verus! {

/// One layer as the contracts see it: its height token and its path events.
pub struct LayerModel {
    pub z: Option<Tok>,
    pub events: Seq<PathEvent>,
}

/// The layer builder's state as the contracts see it.
pub struct BuildState {
    pub layers: Seq<LayerModel>,
    pub inch: bool,
    pub relative: bool,
    pub last_x: int,
    pub last_y: int,
    pub z: Option<Tok>,
    pub path: Option<BuilderModel>,
    pub path_line: bool,
}

pub open spec fn build_start() -> BuildState {
    BuildState {
        layers: Seq::empty(),
        inch: false,
        relative: false,
        last_x: 0,
        last_y: 0,
        z: None,
        path: None,
        path_line: false,
    }
}

/// The first token at or after `i` whose command is the letter `c`.
pub open spec fn find_from(line: Seq<Tok>, c: char, i: int) -> Option<Tok>
    decreases line.len() - i,
{
    if i < 0 || i >= line.len() {
        None
    } else if line[i].0 == seq![c] {
        Some(line[i])
    } else {
        find_from(line, c, i + 1)
    }
}

pub open spec fn has_xy(line: Seq<Tok>) -> bool {
    exists|k: int| 0 <= k < line.len() && (#[trigger] line[k].0 == seq!['X'] || line[k].0 == seq!['Y'])
}

pub open spec fn clamp64(v: int) -> int {
    if v < i64::MIN {
        i64::MIN as int
    } else if v > i64::MAX {
        i64::MAX as int
    } else {
        v
    }
}

/// A value in the current unit, in millimetres: inches are multiplied by
/// 25.4, rounding toward zero.
pub open spec fn scale_value(v: int, inch: bool) -> int {
    if !inch {
        v
    } else if v >= 0 {
        v * 254 / 10
    } else {
        -((-v) * 254 / 10)
    }
}

/// One axis of a move: the token's value scaled to millimetres, added to the
/// last position in relative mode; the last position when the line has no
/// such token.
pub open spec fn axis(tok: Option<Tok>, last: int, relative: bool, inch: bool) -> int {
    match tok {
        None => last,
        Some(t) => {
            let v = clamp64(scale_value(decimal_value(t.1), inch));
            if relative {
                clamp64(last + v)
            } else {
                v
            }
        },
    }
}

pub open spec fn target(st: BuildState, line: Seq<Tok>) -> Point {
    Point {
        x: axis(find_from(line, 'X', 0), st.last_x, st.relative, st.inch) as i64,
        y: axis(find_from(line, 'Y', 0), st.last_y, st.relative, st.inch) as i64,
    }
}

/// A rapid move: ends the open contour, if any, and begins a new one.
pub open spec fn move_spec(st: BuildState, line: Seq<Tok>) -> BuildState {
    let p = target(st, line);
    let b = match st.path {
        Some(b) => b,
        None => bm_empty(),
    };
    let b1 = if b.in_contour {
        bm_end(b, false)
    } else {
        b
    };
    BuildState {
        last_x: p.x as int,
        last_y: p.y as int,
        path: Some(bm_begin(b1, p)),
        path_line: st.path is Some && st.path_line,
        ..st
    }
}

/// A linear move: draws a segment, or begins a contour when none is open.
pub open spec fn line_spec(st: BuildState, line: Seq<Tok>) -> BuildState {
    let p = target(st, line);
    match st.path {
        None => BuildState {
            last_x: p.x as int,
            last_y: p.y as int,
            path: Some(bm_begin(bm_empty(), p)),
            path_line: false,
            ..st
        },
        Some(b) => BuildState {
            last_x: p.x as int,
            last_y: p.y as int,
            path: Some(bm_line(b, p)),
            path_line: true,
            ..st
        },
    }
}

/// Closes the current layer: when its path has a drawn segment, the path is
/// ended and stored with the height seen before it; the path and the height
/// are then cleared.
pub open spec fn append_spec(st: BuildState) -> BuildState {
    let layers = match st.path {
        Some(b) => if st.path_line {
            let b1 = if b.in_contour {
                bm_end(b, false)
            } else {
                b
            };
            st.layers.push(LayerModel { z: st.z, events: b1.events })
        } else {
            st.layers
        },
        None => st.layers,
    };
    BuildState { layers, z: None, path: None, path_line: false, ..st }
}

pub open spec fn word(t: Tok) -> Seq<char> {
    t.0 + t.1
}

/// The effect of the tokens of `line` from index `i` on: mode and unit
/// words apply in turn, and the first move with X or Y, or the first Z,
/// ends the line.
pub open spec fn handle_from(st: BuildState, line: Seq<Tok>, i: int) -> BuildState
    decreases line.len() - i,
{
    if i < 0 || i >= line.len() {
        st
    } else {
        let t = line[i];
        let w = word(t);
        if w == seq!['G', '9', '0'] {
            handle_from(BuildState { relative: false, ..st }, line, i + 1)
        } else if w == seq!['G', '9', '1'] {
            handle_from(BuildState { relative: true, ..st }, line, i + 1)
        } else if w == seq!['G', '2', '0'] {
            handle_from(BuildState { inch: true, ..st }, line, i + 1)
        } else if w == seq!['G', '2', '1'] {
            handle_from(BuildState { inch: false, ..st }, line, i + 1)
        } else if w == seq!['G', '0'] && has_xy(line) {
            move_spec(st, line)
        } else if w == seq!['G', '1'] && has_xy(line) {
            line_spec(st, line)
        } else if w == seq!['G', '0'] || w == seq!['G', '1'] {
            handle_from(st, line, i + 1)
        } else if t.0 == seq!['Z'] {
            BuildState { z: Some(t), ..append_spec(st) }
        } else {
            handle_from(st, line, i + 1)
        }
    }
}

pub open spec fn handle_line_spec(st: BuildState, line: Seq<Tok>) -> BuildState {
    handle_from(st, line, 0)
}

/// The state after a run of lines.
pub open spec fn handle_lines(st: BuildState, lines: Seq<Seq<Tok>>) -> BuildState
    decreases lines.len(),
{
    if lines.len() == 0 {
        st
    } else {
        handle_line_spec(handle_lines(st, lines.drop_last()), lines.last())
    }
}

/// The state after the end of the text: the last layer closed, and mode,
/// unit, position and height back to their starting values.
pub open spec fn finish_spec(st: BuildState) -> BuildState {
    BuildState { layers: append_spec(st).layers, ..build_start() }
}

/// The layers that a run of token lines gives, the last layer closed.
pub open spec fn layers_of(lines: Seq<Seq<Tok>>) -> Seq<LayerModel> {
    append_spec(handle_lines(build_start(), lines)).layers
}

/// One layer of rebuilt geometry: its height token, if any, and its path.
pub struct GCodeValueHandlerPathLayer {
    pub z: Option<GCodeValue>,
    pub path: Path,
}

pub open spec fn opt_tok(z: Option<GCodeValue>) -> Option<Tok> {
    match z {
        Some(t) => Some(t.model()),
        None => None,
    }
}

impl GCodeValueHandlerPathLayer {
    pub open spec fn model(&self) -> LayerModel {
        LayerModel { z: opt_tok(self.z), events: self.path.events@ }
    }

    pub fn have_z(&self) -> (r: bool)
        ensures
            r == self.z is Some,
    {
        self.z.is_some()
    }

    /// The height in fixed point; 0 without a height token.
    pub fn z_fixed(&self) -> (r: i64)
        ensures
            r == match self.z {
                Some(t) => decimal_value(t.value@),
                None => 0,
            },
    {
        match &self.z {
            Some(t) => t.value_fixed(),
            None => 0,
        }
    }
}

pub open spec fn layers_model(v: Seq<GCodeValueHandlerPathLayer>) -> Seq<LayerModel> {
    v.map_values(|l: GCodeValueHandlerPathLayer| l.model())
}

/// Rebuilds per-height paths from G-code token lines.
pub struct GCodeValueHandlerPath {
    pub layers: Vec<GCodeValueHandlerPathLayer>,
    inch: bool,
    is_relative: bool,
    last_x: i64,
    last_y: i64,
    z: Option<GCodeValue>,
    builder: Option<PathBuilder>,
    is_path_line: bool,
}

fn word_is(t: &GCodeValue, w: &Vec<char>) -> (r: bool)
    ensures
        r == (word(t.model()) == w@),
{
    let s = t.to_string();
    let v = crate::text::chars_of(s.as_str());
    if v.len() != w.len() {
        return false;
    }
    let mut i: usize = 0;
    while i < v.len()
        invariant
            i <= v.len(),
            v.len() == w.len(),
            v@ == word(t.model()),
            forall|k: int| 0 <= k < i ==> v@[k] == w@[k],
        decreases v.len() - i,
    {
        if v[i] != w[i] {
            return false;
        }
        i += 1;
    }
    assert(v@ =~= w@);
    true
}

/// The index of the first token whose command is the letter `c`.
fn find_command(line: &Vec<GCodeValue>, c: char) -> (r: Option<usize>)
    ensures
        match r {
            Some(i) => i < line@.len() && find_from(line_model(line@), c, 0) == Some(
                line_model(line@)[i as int],
            ),
            None => find_from(line_model(line@), c, 0) is None,
        },
{
    let ghost m = line_model(line@);
    let mut i: usize = 0;
    while i < line.len()
        invariant
            i <= line.len(),
            m == line_model(line@),
            find_from(m, c, 0) == find_from(m, c, i as int),
        decreases line.len() - i,
    {
        if line[i].command_is(c) {
            return Some(i);
        }
        i += 1;
    }
    None
}

fn line_has_xy(line: &Vec<GCodeValue>) -> (r: bool)
    ensures
        r == has_xy(line_model(line@)),
{
    let mut i: usize = 0;
    while i < line.len()
        invariant
            i <= line.len(),
            forall|k: int|
                0 <= k < i ==> !(line_model(line@)[k].0 == seq!['X'] || line_model(line@)[k].0
                    == seq!['Y']),
        decreases line.len() - i,
    {
        if line[i].is_xy() {
            assert(line_model(line@)[i as int].0 == line@[i as int].command@);
            return true;
        }
        i += 1;
    }
    false
}

fn clamp_i64(v: i128) -> (r: i64)
    ensures
        r == clamp64(v as int),
{
    if v < i64::MIN as i128 {
        i64::MIN
    } else if v > i64::MAX as i128 {
        i64::MAX
    } else {
        v as i64
    }
}

fn scale_to_mm(v: i64, inch: bool) -> (r: i64)
    ensures
        r == clamp64(scale_value(v as int, inch)),
{
    if !inch {
        return v;
    }
    let m: u128 = if v >= 0 {
        v as u128
    } else {
        (-(v as i128)) as u128
    };
    let q: u128 = m * 254 / 10;
    assert(q <= 254 * 9223372036854775808u128 / 10) by (nonlinear_arith)
        requires
            m <= 9223372036854775808u128,
            q == m * 254 / 10,
    ;
    let s: i128 = if v >= 0 {
        q as i128
    } else {
        -(q as i128)
    };
    clamp_i64(s)
}

impl GCodeValueHandlerPath {
    pub closed spec fn model(&self) -> BuildState {
        BuildState {
            layers: layers_model(self.layers@),
            inch: self.inch,
            relative: self.is_relative,
            last_x: self.last_x as int,
            last_y: self.last_y as int,
            z: opt_tok(self.z),
            path: match self.builder {
                Some(b) => Some(b.model()),
                None => None,
            },
            path_line: self.is_path_line,
        }
    }

    /// A builder in millimetres and absolute mode, at the origin, with no layer.
    pub fn new() -> (r: Self)
        ensures
            r.model() == build_start(),
    {
        let r = GCodeValueHandlerPath {
            layers: Vec::new(),
            inch: false,
            is_relative: false,
            last_x: 0,
            last_y: 0,
            z: None,
            builder: None,
            is_path_line: false,
        };
        assert(layers_model(r.layers@) =~= Seq::<LayerModel>::empty());
        r
    }

    fn axis_value(&self, line: &Vec<GCodeValue>, c: char, last: i64) -> (r: i64)
        ensures
            r == axis(
                find_from(line_model(line@), c, 0),
                last as int,
                self.is_relative,
                self.inch,
            ),
    {
        match find_command(line, c) {
            None => last,
            Some(i) => {
                let v = scale_to_mm(line[i].value_fixed(), self.inch);
                if self.is_relative {
                    clamp_i64(last as i128 + v as i128)
                } else {
                    v
                }
            },
        }
    }

    fn target_point(&self, line: &Vec<GCodeValue>) -> (r: Point)
        ensures
            r == target(self.model(), line_model(line@)),
    {
        let x = self.axis_value(line, 'X', self.last_x);
        let y = self.axis_value(line, 'Y', self.last_y);
        Point { x, y }
    }

    fn move_to(&mut self, line: &Vec<GCodeValue>)
        ensures
            final(self).model() == move_spec(old(self).model(), line_model(line@)),
    {
        let p = self.target_point(line);
        let had = self.builder.is_some();
        let mut b = match self.builder.take() {
            Some(b) => b,
            None => PathBuilder::new(),
        };
        if b.is_in_contour() {
            b.end(false);
        }
        b.begin(p);
        self.builder = Some(b);
        self.last_x = p.x;
        self.last_y = p.y;
        self.is_path_line = had && self.is_path_line;
    }

    fn line_to(&mut self, line: &Vec<GCodeValue>)
        ensures
            final(self).model() == line_spec(old(self).model(), line_model(line@)),
    {
        let p = self.target_point(line);
        match self.builder.take() {
            None => {
                let mut b = PathBuilder::new();
                b.begin(p);
                self.builder = Some(b);
                self.is_path_line = false;
            },
            Some(mut b) => {
                b.line_to(p);
                self.builder = Some(b);
                self.is_path_line = true;
            },
        }
        self.last_x = p.x;
        self.last_y = p.y;
    }

    /// Stores the current path as a layer if it has a drawn segment, then
    /// clears the path and the height.
    fn append_last_layer(&mut self)
        ensures
            final(self).model() == append_spec(old(self).model()),
    {
        let ghost old_layers = self.layers@;
        match self.builder.take() {
            Some(mut b) => {
                if self.is_path_line {
                    if b.is_in_contour() {
                        b.end(false);
                    }
                    let z = match &self.z {
                        Some(t) => Some(t.copied()),
                        None => None,
                    };
                    let path = b.build();
                    self.layers.push(GCodeValueHandlerPathLayer { z, path });
                    assert(layers_model(self.layers@) =~= layers_model(old_layers).push(
                        self.layers@.last().model(),
                    ));
                }
            },
            None => {},
        }
        self.z = None;
        self.is_path_line = false;
    }

    /// Applies one token line.
    pub fn handle_line(&mut self, line: &Vec<GCodeValue>)
        ensures
            final(self).model() == handle_line_spec(old(self).model(), line_model(line@)),
    {
        let ghost m = line_model(line@);
        let g90 = vec!['G', '9', '0'];
        let g91 = vec!['G', '9', '1'];
        let g20 = vec!['G', '2', '0'];
        let g21 = vec!['G', '2', '1'];
        let g0 = vec!['G', '0'];
        let g1 = vec!['G', '1'];
        let mut i: usize = 0;
        while i < line.len()
            invariant
                i <= line.len(),
                m == line_model(line@),
                g90@ == seq!['G', '9', '0'],
                g91@ == seq!['G', '9', '1'],
                g20@ == seq!['G', '2', '0'],
                g21@ == seq!['G', '2', '1'],
                g0@ == seq!['G', '0'],
                g1@ == seq!['G', '1'],
                handle_from(old(self).model(), m, 0) == handle_from(self.model(), m, i as int),
            decreases line.len() - i,
        {
            let t = &line[i];
            assert(m[i as int] == t.model());
            if word_is(t, &g90) {
                self.is_relative = false;
            } else if word_is(t, &g91) {
                self.is_relative = true;
            } else if word_is(t, &g20) {
                self.inch = true;
            } else if word_is(t, &g21) {
                self.inch = false;
            } else if word_is(t, &g0) && line_has_xy(line) {
                self.move_to(line);
                return;
            } else if word_is(t, &g1) && line_has_xy(line) {
                self.line_to(line);
                return;
            } else if !word_is(t, &g0) && !word_is(t, &g1) && t.command_is('Z') {
                let z = t.copied();
                self.append_last_layer();
                self.z = Some(z);
                return;
            }
            i += 1;
        }
    }

    /// The layers built so far.
    pub fn layers(&self) -> (r: &Vec<GCodeValueHandlerPathLayer>)
        ensures
            layers_model(r@) == self.model().layers,
    {
        &self.layers
    }

    /// Closes the last layer and resets mode, unit and position.
    pub fn finish(&mut self)
        ensures
            final(self).model() == finish_spec(old(self).model()),
    {
        self.append_last_layer();
        self.inch = false;
        self.is_relative = false;
        self.last_x = 0;
        self.last_y = 0;
    }
}

impl Default for GCodeValueHandlerPath {
    fn default() -> (r: Self)
        ensures
            r.model() == build_start(),
    {
        GCodeValueHandlerPath::new()
    }
}

impl GCodeValueHandler for GCodeValueHandlerPath {
    type Model = BuildState;

    open spec fn handler_model(&self) -> BuildState {
        self.model()
    }

    open spec fn start_model(m: BuildState) -> BuildState {
        m
    }

    open spec fn line_model_step(m: BuildState, line: Seq<Tok>) -> BuildState {
        handle_line_spec(m, line)
    }

    open spec fn end_model(m: BuildState) -> BuildState {
        finish_spec(m)
    }

    fn start(&mut self) {
    }

    fn handle_gcode_value(&mut self, gcode_value_line: Vec<GCodeValue>) {
        self.handle_line(&gcode_value_line);
    }

    fn end(&mut self) {
        self.finish();
    }
}

proof fn lemma_handle_all_path(st: BuildState, lines: Seq<Seq<Tok>>)
    ensures
        handle_all::<GCodeValueHandlerPath>(st, lines) == handle_lines(st, lines),
    decreases lines.len(),
{
    if lines.len() > 0 {
        lemma_handle_all_path(st, lines.drop_last());
    }
}

/// Feeding token lines to a fresh layer builder, from `start` to `end`,
/// leaves it with the layers that those lines give, and with mode, unit and
/// position at their starting values.
pub proof fn lemma_run_layer_builder(lines: Seq<Seq<Tok>>)
    ensures
        run_handler::<GCodeValueHandlerPath>(build_start(), lines).layers == layers_of(lines),
        run_handler::<GCodeValueHandlerPath>(build_start(), lines) == (BuildState {
            layers: layers_of(lines),
            ..build_start()
        }),
{
    lemma_handle_all_path(build_start(), lines);
}

/// Rebuilds the layers of a G-code text: tokenizes it, applies each line in
/// order, and closes the last layer.
pub fn parse_layers(gcode: &str) -> (r: Vec<GCodeValueHandlerPathLayer>)
    ensures
        layers_model(r@) == layers_of(tokenize_spec(gcode@)),
{
    let lines = tokenize(gcode);
    let mut h = GCodeValueHandlerPath::new();
    let mut i: usize = 0;
    while i < lines.len()
        invariant
            i <= lines.len(),
            lines_model(lines@) == tokenize_spec(gcode@),
            h.model() == handle_lines(build_start(), lines_model(lines@).take(i as int)),
        decreases lines.len() - i,
    {
        proof {
            let t = lines_model(lines@).take(i as int + 1);
            assert(t.drop_last() =~= lines_model(lines@).take(i as int));
        }
        h.handle_line(&lines[i]);
        i += 1;
    }
    assert(lines_model(lines@).take(lines.len() as int) =~= lines_model(lines@));
    h.finish();
    h.layers
}

} // verus!

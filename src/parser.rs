//! The G-code tokenizer: a character-level state machine that turns program
//! text into lines of command/value tokens and hands them to a handler.

use vstd::prelude::*;
use crate::number::{decimal_value, parse_fixed_chars};
use crate::text::{chars_of, push_char, string_of};

verus! {

/// A token as the contracts see it: command letters and value text.
pub type Tok = (Seq<char>, Seq<char>);

/// One word of a G-code line: a command letter and the numeric text after it.
#[derive(Clone, Debug)]
pub struct GCodeValue {
    pub command: String,
    pub value: String,
}

impl GCodeValue {
    pub open spec fn model(&self) -> Tok {
        (self.command@, self.value@)
    }

    /// An empty token.
    pub fn new() -> (r: Self)
        ensures
            r.command@ == Seq::<char>::empty(),
            r.value@ == Seq::<char>::empty(),
    {
        GCodeValue { command: String::new(), value: String::new() }
    }

    /// A copy of the token.
    pub fn copied(&self) -> (r: Self)
        ensures
            r.model() == self.model(),
    {
        GCodeValue { command: self.command.clone(), value: self.value.clone() }
    }

    /// The command followed by the value, as one word.
    pub fn to_string(&self) -> (r: String)
        ensures
            r@ == self.command@ + self.value@,
    {
        let mut s = self.command.clone();
        let v = chars_of(self.value.as_str());
        let mut i: usize = 0;
        while i < v.len()
            invariant
                i <= v.len(),
                v@ == self.value@,
                s@ == self.command@ + v@.take(i as int),
            decreases v.len() - i,
        {
            push_char(&mut s, v[i]);
            i += 1;
            assert(s@ =~= self.command@ + v@.take(i as int));
        }
        assert(v@.take(v.len() as int) =~= v@);
        s
    }

    /// The command is the single letter `c`.
    pub fn command_is(&self, c: char) -> (r: bool)
        ensures
            r == (self.command@ == seq![c]),
    {
        let v = chars_of(self.command.as_str());
        if v.len() == 1 && v[0] == c {
            assert(v@ =~= seq![c]);
            true
        } else {
            false
        }
    }

    pub fn is_xy(&self) -> (r: bool)
        ensures
            r == (self.command@ == seq!['X'] || self.command@ == seq!['Y']),
    {
        self.is_x() || self.is_y()
    }

    pub fn is_x(&self) -> (r: bool)
        ensures
            r == (self.command@ == seq!['X']),
    {
        self.command_is('X')
    }

    pub fn is_y(&self) -> (r: bool)
        ensures
            r == (self.command@ == seq!['Y']),
    {
        self.command_is('Y')
    }

    /// The value in fixed point (millionths); text that is no decimal
    /// literal reads as 0.
    pub fn value_fixed(&self) -> (r: i64)
        ensures
            r == decimal_value(self.value@),
    {
        let v = chars_of(self.value.as_str());
        parse_fixed_chars(&v)
    }
}

pub open spec fn line_model(v: Seq<GCodeValue>) -> Seq<Tok> {
    v.map_values(|t: GCodeValue| t.model())
}

pub open spec fn lines_model(v: Seq<Vec<GCodeValue>>) -> Seq<Seq<Tok>> {
    v.map_values(|l: Vec<GCodeValue>| line_model(l@))
}

/// The command letters that the tokenizer recognizes.
pub open spec fn is_command_char(c: char) -> bool {
    c == 'G' || c == 'M' || c == 'X' || c == 'Y' || c == 'I' || c == 'J' || c == 'S' || c == 'F'
        || c == 'Z'
}

/// Characters that may make up a numeric value.
pub open spec fn is_value_char(c: char) -> bool {
    ('0' <= c && c <= '9') || c == '.' || c == '-' || c == '+' || c == 'E' || c == 'e'
}

pub open spec fn is_newline_char(c: char) -> bool {
    c == '\n' || c == '\r'
}

/// The tokenizer's state between two characters: the finished lines, the
/// tokens of the current line, the token being read, and whether the rest of
/// the line is a comment.
pub struct ScanState {
    pub lines: Seq<Seq<Tok>>,
    pub line: Seq<Tok>,
    pub pending: Option<Tok>,
    pub comment: bool,
}

/// The current line with the pending token, if any, appended.
pub open spec fn flushed(st: ScanState) -> Seq<Tok> {
    match st.pending {
        Some(t) => st.line.push(t),
        None => st.line,
    }
}

/// The finished lines after the current line ends; an empty line is dropped.
pub open spec fn lines_after_end(st: ScanState) -> Seq<Seq<Tok>> {
    if flushed(st).len() > 0 {
        st.lines.push(flushed(st))
    } else {
        st.lines
    }
}

/// One character's effect on the tokenizer.
pub open spec fn scan_step(st: ScanState, c: char) -> ScanState {
    if st.comment {
        if is_newline_char(c) {
            ScanState { comment: false, ..st }
        } else {
            st
        }
    } else if is_command_char(c) {
        ScanState { line: flushed(st), pending: Some((seq![c], Seq::empty())), ..st }
    } else if is_value_char(c) {
        match st.pending {
            Some(t) => ScanState { pending: Some((t.0, t.1.push(c))), ..st },
            None => st,
        }
    } else if c == ';' {
        ScanState { lines: lines_after_end(st), line: Seq::empty(), pending: None, comment: true }
    } else if is_newline_char(c) {
        ScanState { lines: lines_after_end(st), line: Seq::empty(), pending: None, comment: false }
    } else {
        st
    }
}

pub open spec fn scan_start() -> ScanState {
    ScanState { lines: Seq::empty(), line: Seq::empty(), pending: None, comment: false }
}

/// The state after reading `s` from state `st`.
pub open spec fn scan_from(st: ScanState, s: Seq<char>) -> ScanState
    decreases s.len(),
{
    if s.len() == 0 {
        st
    } else {
        scan_step(scan_from(st, s.drop_last()), s.last())
    }
}

/// The state after reading all of `s`.
pub open spec fn scan(s: Seq<char>) -> ScanState {
    scan_from(scan_start(), s)
}

pub proof fn lemma_scan_append(st: ScanState, a: Seq<char>, b: Seq<char>)
    ensures
        scan_from(st, a + b) == scan_from(scan_from(st, a), b),
    decreases b.len(),
{
    if b.len() == 0 {
        assert(a + b =~= a);
    } else {
        assert((a + b).drop_last() =~= a + b.drop_last());
        lemma_scan_append(st, a, b.drop_last());
    }
}

proof fn lemma_scan_in_comment(st: ScanState, c: Seq<char>)
    requires
        st.comment,
        forall|i: int| 0 <= i < c.len() ==> !is_newline_char(#[trigger] c[i]),
    ensures
        scan_from(st, c) == st,
    decreases c.len(),
{
    if c.len() > 0 {
        let c1 = c.drop_last();
        assert forall|i: int| 0 <= i < c1.len() implies !is_newline_char(#[trigger] c1[i]) by {
            assert(c1[i] == c[i]);
        }
        lemma_scan_in_comment(st, c1);
        assert(!is_newline_char(c[c.len() - 1]));
    }
}

/// A `;` discards the rest of its line: text after it, up to a newline,
/// adds no token.
pub proof fn lemma_comment_discarded(s: Seq<char>, c: Seq<char>)
    requires
        forall|i: int| 0 <= i < c.len() ==> !is_newline_char(#[trigger] c[i]),
    ensures
        tokenize_spec(s + seq![';'] + c) == tokenize_spec(s),
{
    lemma_scan_append(scan_start(), s, seq![';']);
    let st0 = scan(s);
    assert(seq![';'].drop_last() =~= Seq::<char>::empty());
    assert(scan_from(st0, Seq::<char>::empty()) == st0);
    assert(scan_from(st0, seq![';']) == scan_step(st0, ';'));
    let st = scan(s + seq![';']);
    assert(st == scan_step(st0, ';'));
    assert(st.comment);
    if !st0.comment {
        assert(flushed(st) =~= Seq::<Tok>::empty());
        assert(lines_after_end(st) == lines_after_end(st0));
    }
    lemma_scan_append(scan_start(), s + seq![';'], c);
    lemma_scan_in_comment(st, c);
}

/// The non-empty token lines of a G-code text, in order.
pub open spec fn tokenize_spec(s: Seq<char>) -> Seq<Seq<Tok>> {
    lines_after_end(scan(s))
}

pub fn is_newline(c: char) -> (r: bool)
    ensures
        r == is_newline_char(c),
{
    c == '\n' || c == '\r'
}

fn is_command(c: char) -> (r: bool)
    ensures
        r == is_command_char(c),
{
    c == 'G' || c == 'M' || c == 'X' || c == 'Y' || c == 'I' || c == 'J' || c == 'S' || c == 'F'
        || c == 'Z'
}

fn is_value(c: char) -> (r: bool)
    ensures
        r == is_value_char(c),
{
    ('0' <= c && c <= '9') || c == '.' || c == '-' || c == '+' || c == 'E' || c == 'e'
}

/// Appends the pending token, if any, to the line.
fn flush_pending(line: &mut Vec<GCodeValue>, has: bool, cmd: char, val: &String)
    ensures
        has ==> line_model(final(line)@) == line_model(old(line)@).push((seq![cmd], val@)),
        has == false ==> final(line)@ == old(line)@,
{
    if has {
        let c = vec![cmd];
        let t = GCodeValue { command: string_of(&c), value: val.clone() };
        line.push(t);
        proof {
            assert(c@ =~= seq![cmd]);
            assert(line_model(line@) =~= line_model(old(line)@).push((seq![cmd], val@)));
        }
    }
}

/// Splits a G-code text into its non-empty token lines. A command letter
/// starts a token, value characters extend it, `;` ends the line and starts a
/// comment, and a newline ends the line.
pub fn tokenize(text: &str) -> (r: Vec<Vec<GCodeValue>>)
    ensures
        lines_model(r@) == tokenize_spec(text@),
{
    let chars = chars_of(text);
    let ghost s = chars@;
    let mut lines: Vec<Vec<GCodeValue>> = Vec::new();
    let mut line: Vec<GCodeValue> = Vec::new();
    let mut has: bool = false;
    let mut cmd: char = ' ';
    let mut val = String::new();
    let mut comment: bool = false;
    let mut i: usize = 0;
    assert(s.take(0) =~= Seq::<char>::empty());
    assert(lines_model(lines@) =~= Seq::<Seq<Tok>>::empty());
    assert(line_model(line@) =~= Seq::<Tok>::empty());
    while i < chars.len()
        invariant
            i <= chars.len(),
            s == chars@,
            s == text@,
            scan(s.take(i as int)) == (ScanState {
                lines: lines_model(lines@),
                line: line_model(line@),
                pending: if has {
                    Some((seq![cmd], val@))
                } else {
                    None
                },
                comment,
            }),
        decreases chars.len() - i,
    {
        let c = chars[i];
        let ghost before = scan(s.take(i as int));
        proof {
            let t = s.take(i as int + 1);
            assert(t.drop_last() =~= s.take(i as int));
            assert(t.last() == c);
        }
        if comment {
            if is_newline(c) {
                comment = false;
            }
        } else if is_command(c) {
            flush_pending(&mut line, has, cmd, &val);
            has = true;
            cmd = c;
            val = String::new();
        } else if is_value(c) {
            if has {
                push_char(&mut val, c);
            }
        } else if c == ';' || is_newline(c) {
            flush_pending(&mut line, has, cmd, &val);
            let ghost old_lines = lines@;
            if line.len() > 0 {
                lines.push(line);
                proof {
                    assert(lines_model(lines@) =~= lines_model(old_lines).push(flushed(before)));
                }
            }
            line = Vec::new();
            has = false;
            val = String::new();
            comment = c == ';';
            assert(line_model(line@) =~= Seq::<Tok>::empty());
        }
        i += 1;
    }
    assert(s.take(chars.len() as int) =~= s);
    let ghost before = scan(s);
    flush_pending(&mut line, has, cmd, &val);
    let ghost old_lines = lines@;
    if line.len() > 0 {
        lines.push(line);
        assert(lines_model(lines@) =~= lines_model(old_lines).push(flushed(before)));
    }
    lines
}

/// Receives the token lines of a G-code text: `start` before the first line,
/// `handle_gcode_value` for each non-empty line, `end` after the last. Each
/// handler states its effect on a model of its state.
pub trait GCodeValueHandler {
    type Model;

    spec fn handler_model(&self) -> Self::Model;

    spec fn start_model(m: Self::Model) -> Self::Model;

    spec fn line_model_step(m: Self::Model, line: Seq<Tok>) -> Self::Model;

    spec fn end_model(m: Self::Model) -> Self::Model;

    fn start(&mut self)
        ensures
            final(self).handler_model() == Self::start_model(old(self).handler_model()),
    ;

    fn handle_gcode_value(&mut self, gcode_value_line: Vec<GCodeValue>)
        ensures
            final(self).handler_model() == Self::line_model_step(
                old(self).handler_model(),
                line_model(gcode_value_line@),
            ),
    ;

    fn end(&mut self)
        ensures
            final(self).handler_model() == Self::end_model(old(self).handler_model()),
    ;
}

/// A handler's model after it has received `lines` in order.
pub open spec fn handle_all<H: GCodeValueHandler>(m: H::Model, lines: Seq<Seq<Tok>>) -> H::Model
    decreases lines.len(),
{
    if lines.len() == 0 {
        m
    } else {
        H::line_model_step(handle_all::<H>(m, lines.drop_last()), lines.last())
    }
}

/// A handler's model after a whole run: `start`, the lines, then `end`.
pub open spec fn run_handler<H: GCodeValueHandler>(m: H::Model, lines: Seq<Seq<Tok>>) -> H::Model {
    H::end_model(handle_all::<H>(H::start_model(m), lines))
}

/// A handler that counts the lines it receives.
pub struct GCodeValueHandlerImpl {
    pub line_count: usize,
}

impl GCodeValueHandlerImpl {
    pub fn new() -> (r: Self)
        ensures
            r.line_count == 0,
    {
        GCodeValueHandlerImpl { line_count: 0 }
    }
}

impl Default for GCodeValueHandlerImpl {
    fn default() -> (r: Self)
        ensures
            r.line_count == 0,
    {
        GCodeValueHandlerImpl::new()
    }
}

/// One more line counted, staying at the largest count once there.
pub open spec fn count_step(n: usize) -> usize {
    if n < usize::MAX {
        (n + 1) as usize
    } else {
        n
    }
}

impl GCodeValueHandler for GCodeValueHandlerImpl {
    type Model = usize;

    open spec fn handler_model(&self) -> usize {
        self.line_count
    }

    open spec fn start_model(m: usize) -> usize {
        0
    }

    open spec fn line_model_step(m: usize, line: Seq<Tok>) -> usize {
        count_step(m)
    }

    open spec fn end_model(m: usize) -> usize {
        m
    }

    fn start(&mut self) {
        self.line_count = 0;
    }

    fn handle_gcode_value(&mut self, gcode_value_line: Vec<GCodeValue>) {
        if self.line_count < usize::MAX {
            self.line_count = self.line_count + 1;
        }
    }

    fn end(&mut self) {
    }
}

/// A copy of a token line, token by token.
fn copy_line(line: &Vec<GCodeValue>) -> (r: Vec<GCodeValue>)
    ensures
        line_model(r@) == line_model(line@),
{
    let mut out: Vec<GCodeValue> = Vec::new();
    let mut i: usize = 0;
    while i < line.len()
        invariant
            i <= line.len(),
            line_model(out@) == line_model(line@).take(i as int),
        decreases line.len() - i,
    {
        let ghost prev = out@;
        let c = line[i].copied();
        out.push(c);
        assert(line_model(out@) =~= line_model(prev).push(c.model()));
        assert(line_model(line@).take(i + 1) =~= line_model(line@).take(i as int).push(
            line_model(line@)[i as int],
        ));
        i += 1;
    }
    assert(line_model(line@).take(line.len() as int) =~= line_model(line@));
    out
}

/// Drives a handler over the lines of a G-code text.
pub struct GCodeParser {
    gcode: String,
}

impl GCodeParser {
    pub closed spec fn text(&self) -> Seq<char> {
        self.gcode@
    }

    pub fn new(gcode: String) -> (r: Self)
        ensures
            r.text() == gcode@,
    {
        GCodeParser { gcode }
    }

    /// Tokenizes the text and feeds the handler: `start`, each non-empty
    /// line in order, then `end`. Returns the lines that were handed over.
    pub fn parse<H: GCodeValueHandler>(&mut self, handler: &mut H) -> (r: Vec<Vec<GCodeValue>>)
        ensures
            lines_model(r@) == tokenize_spec(old(self).text()),
            final(handler).handler_model() == run_handler::<H>(
                old(handler).handler_model(),
                tokenize_spec(old(self).text()),
            ),
            final(self).text() == old(self).text(),
    {
        let lines = tokenize(self.gcode.as_str());
        handler.start();
        let ghost m0 = handler.handler_model();
        let mut i: usize = 0;
        while i < lines.len()
            invariant
                i <= lines.len(),
                handler.handler_model() == handle_all::<H>(m0, lines_model(lines@).take(i as int)),
            decreases lines.len() - i,
        {
            proof {
                let t = lines_model(lines@).take(i as int + 1);
                assert(t.drop_last() =~= lines_model(lines@).take(i as int));
            }
            let line = copy_line(&lines[i]);
            handler.handle_gcode_value(line);
            i += 1;
        }
        assert(lines_model(lines@).take(lines.len() as int) =~= lines_model(lines@));
        handler.end();
        lines
    }
}

} // verus!

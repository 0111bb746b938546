//! Reading a configuration file line by line: each line is empty, a
//! comment, or a setting with its value. A path setting's value is read by
//! the path reader; a number setting's value is a math block, which the
//! caller evaluates on the same cursor when asked. A line with a syntax
//! error is recorded and skipped.
//!
//! What the reader does is also told, in order, as notes.
use vstd::prelude::*;
use std::collections::VecDeque;
use crate::lexer::{LexicalUnit, Token};
use crate::parse::{
    Error, ParseCursor, Rule, LineStart, token_views, line_start_scan, LineOutcome, asn_scan, mark_scan,
    unwind_to_config, error_line_scan, lemma_asn_scan_bounds, lemma_line_start_bounds, lemma_mark_scan_bounds,
    lemma_garbage_scan_bounds, lemma_comment_scan_bounds, comment_scan,
};
use crate::path::{
    PathParse, PathStep, PathState, PathOutcome, path_step, lemma_path_step_bounds, lemma_path_step_quiet, product,
};
use crate::settings::Settings;
use crate::text::{texts, lemma_texts_push};

verus! {

/// What the reader did, for a log.
#[derive(Debug)]
pub enum Note {
    /// A file to read next was named, on this line.
    NewFile { line: i32, path: String },
    /// A library path was set, on this line.
    NewLibPath { line: i32, path: String },
    /// A whole-number setting was set, on this line.
    NewNumber { line: i32, setting: Token, value: i32 },
    /// The decay rate was read, on this line.
    NewDecay { line: i32 },
    /// This line is empty.
    Empty { line: i32 },
    /// This line has a syntax error.
    SyntaxError { line: i32, message: String },
}

/// A note, in the ghost world.
pub enum NoteView {
    NewFile(int, Seq<char>),
    NewLibPath(int, Seq<char>),
    NewNumber(int, Token, i32),
    NewDecay(int),
    Empty(int),
    SyntaxError(int, Seq<char>),
}

pub open spec fn note_view(n: Note) -> NoteView {
    match n {
        Note::NewFile { line, path } => NoteView::NewFile(line as int, path@),
        Note::NewLibPath { line, path } => NoteView::NewLibPath(line as int, path@),
        Note::NewNumber { line, setting, value } => NoteView::NewNumber(line as int, setting, value),
        Note::NewDecay { line } => NoteView::NewDecay(line as int),
        Note::Empty { line } => NoteView::Empty(line as int),
        Note::SyntaxError { line, message } => NoteView::SyntaxError(line as int, message@),
    }
}

/// What a math block that the reader asks for is for.
#[derive(Debug, Clone, Copy, PartialEq, Eq, Structural)]
pub enum MathUse {
    /// A math block inside a path, in a list or not: hand its numbers, as
    /// texts, to `path_numbers`.
    Path { in_list: bool },
    /// The value of a whole-number setting: hand the rounded last value to
    /// `whole_value`.
    Whole(Token),
    /// The decay rate: keep the last value, and call `decay_value`.
    Decay,
}

/// What one step of the reader came to.
#[derive(Debug)]
pub enum LineStep {
    /// Go on stepping.
    Working,
    /// Evaluate a math block on the cursor, for this use.
    NeedMath(MathUse),
    /// The file is read.
    Finished,
}

/// What one step came to, in the ghost world.
pub enum LineStepView {
    Working,
    NeedMath(MathUse),
    Finished,
}

pub open spec fn line_step_view(s: LineStep) -> LineStepView {
    match s {
        LineStep::Working => LineStepView::Working,
        LineStep::NeedMath(u) => LineStepView::NeedMath(u),
        LineStep::Finished => LineStepView::Finished,
    }
}

/// Where the reader is.
pub enum Stage {
    /// Between settings.
    Lines,
    /// Reading the value of a path setting: a file to read (`files`) or a
    /// library path.
    Path { files: bool, path: PathParse },
    /// Waiting for the value of a number setting.
    Value { setting: Token },
}

/// Where the reader is, in the ghost world.
pub enum StageView {
    Lines,
    Path(bool, PathState),
    Value(Token),
}

pub open spec fn stage_view(s: Stage) -> StageView {
    match s {
        Stage::Lines => StageView::Lines,
        Stage::Path { files, path } => StageView::Path(files, path.state()),
        Stage::Value { setting } => StageView::Value(setting),
    }
}

/// The whole-number settings and the library paths.
pub type SettingsView = (i32, Seq<Seq<char>>, i32, i32, i32);

pub open spec fn settings_view(s: Settings) -> SettingsView {
    (s.spec_history_len(), s.spec_library_paths(), s.spec_top_songs_len(), s.spec_top_albums_len(), s.spec_top_artists_len())
}

/// The reader in the ghost world: where it is, the rule stack, the tokens
/// still to read, the line, the syntax errors (line and message), the files
/// named, the notes, and the settings.
pub type LinesView = (
    StageView,
    Seq<Rule>,
    Seq<(Token, Seq<char>)>,
    int,
    Seq<(i32, Seq<char>)>,
    Seq<Seq<char>>,
    Seq<NoteView>,
    SettingsView,
);

/// A syntax error on the current line: it is recorded and noted, and the
/// rest of the line is read past.
pub open spec fn failed(v: LinesView, m: Seq<char>) -> LinesView {
    let r = error_line_scan(v.2, unwind_to_config(v.1), v.3 + 1);
    (
        StageView::Lines,
        r.1,
        v.2.skip(r.0),
        r.2,
        v.4.push((v.3 as i32, m)),
        v.5,
        v.6.push(NoteView::SyntaxError(v.3, m)),
        v.7,
    )
}

/// A syntax error never ends the reading: the error is recorded with its
/// line, the reader is back between settings, on a later line, and nothing
/// that was read before is taken back (the files named and the settings
/// stay).
pub proof fn law_error_goes_on_to_the_next_line(v: LinesView, m: Seq<char>)
    ensures
        ({
            let f = failed(v, m);
            &&& f.0 == StageView::Lines
            &&& f.3 >= v.3 + 1
            &&& f.4 == v.4.push((v.3 as i32, m))
            &&& f.5 == v.5
            &&& f.7 == v.7
            &&& f.2.len() <= v.2.len()
        }),
{
    lemma_error_line_scan_line(v.2, unwind_to_config(v.1), v.3 + 1);
}

proof fn lemma_error_line_scan_line(ts: Seq<(Token, Seq<char>)>, stack: Seq<Rule>, line: int)
    ensures
        error_line_scan(ts, stack, line).2 >= line,
        0 <= error_line_scan(ts, stack, line).0 <= ts.len(),
    decreases ts.len(),
{
    if ts.len() > 0 {
        if ts[0].0 == Token::OpenComm {
            lemma_comment_scan_bounds(ts.drop_first(), stack.push(Rule::CloseComm), line);
            let c = comment_scan(ts.drop_first(), stack.push(Rule::CloseComm), line);
            lemma_error_line_scan_line(ts.skip(1 + c.0), c.1, c.2);
        } else if ts[0].0 != Token::EndL {
            lemma_error_line_scan_line(ts.drop_first(), stack, line);
        }
    }
}

/// The rule stack, tokens and line after reading `n` tokens into the stack
/// `stack` and line `line`.
pub open spec fn moved(v: LinesView, stack: Seq<Rule>, n: int, line: int) -> LinesView {
    (v.0, stack, v.2.skip(n), line, v.4, v.5, v.6, v.7)
}

/// The start of a setting's value: a path's, or a math block's.
pub open spec fn setting_start(v: LinesView, t: Token) -> (LinesView, LineStepView) {
    let a = asn_scan(v.2, v.1, v.3);
    match a.3 {
        Some(m) => (failed(moved(v, a.1, a.0, a.2), m), LineStepView::Working),
        None => if t == Token::File || t == Token::LibPath {
            let fresh = (
                seq![Seq::<char>::empty()],
                Seq::<Seq<char>>::empty(),
                seq![Seq::<char>::empty()],
                Seq::<char>::empty(),
            );
            let w = moved(v, a.1.push(Rule::Char), a.0, a.2);
            ((StageView::Path(t == Token::File, fresh), w.1, w.2, w.3, w.4, w.5, w.6, w.7), LineStepView::Working)
        } else {
            let w = moved(v, a.1.push(Rule::CloseMath), a.0, a.2);
            (
                (StageView::Value(t), w.1, w.2, w.3, w.4, w.5, w.6, w.7),
                LineStepView::NeedMath(if t == Token::TopDecay {
                    MathUse::Decay
                } else {
                    MathUse::Whole(t)
                }),
            )
        },
    }
}

/// One step between settings: the rule at the top of the stack starts a
/// line, or reads past white space, a comment or an empty line, or starts a
/// setting's value.
pub open spec fn lines_step(v: LinesView) -> (LinesView, LineStepView) {
    let rule = if v.1.len() > 0 {
        Some(v.1.last())
    } else {
        None
    };
    let stack = if v.1.len() > 0 {
        v.1.drop_last()
    } else {
        v.1
    };
    let s = line_start_scan(rule, stack, v.2, v.3);
    let w = moved(v, s.0, s.1, s.2);
    match s.3 {
        LineOutcome::Continue => (w, LineStepView::Working),
        LineOutcome::Empty => (
            (w.0, w.1, w.2, w.3, w.4, w.5, w.6.push(NoteView::Empty(v.3)), w.7),
            LineStepView::Working,
        ),
        LineOutcome::Finished => (w, LineStepView::Finished),
        LineOutcome::Failed(m) => (failed(w, m), LineStepView::Working),
        LineOutcome::Setting(t) => setting_start(w, t),
    }
}

/// The notes of the paths of a path setting, on line `line`.
pub open spec fn path_notes(files: bool, paths: Seq<Seq<char>>, line: int) -> Seq<NoteView> {
    paths.map_values(|p: Seq<char>| if files {
        NoteView::NewFile(line, p)
    } else {
        NoteView::NewLibPath(line, p)
    })
}

/// One step of reading a path setting's value; when the path ends with its
/// line, its paths are files to read or library paths, and the next line
/// starts.
pub open spec fn path_stage_step(v: LinesView, files: bool, st: PathState) -> (LinesView, LineStepView) {
    let s = path_step(st, v.1, v.2, v.3);
    let w = moved(v, s.1, s.2, s.3);
    let here = (StageView::Path(files, s.0), w.1, w.2, w.3, w.4, w.5, w.6, w.7);
    match s.4 {
        PathOutcome::Working => (here, LineStepView::Working),
        PathOutcome::NeedMath(in_list) => (here, LineStepView::NeedMath(MathUse::Path { in_list })),
        PathOutcome::Done(paths) => {
            let notes = w.6 + path_notes(files, paths, w.3);
            let sv = w.7;
            if files {
                ((StageView::Lines, w.1, w.2, w.3 + 1, w.4, w.5 + paths, notes, sv), LineStepView::Working)
            } else {
                (
                    (StageView::Lines, w.1, w.2, w.3 + 1, w.4, w.5, notes, (sv.0, sv.1 + paths, sv.2, sv.3, sv.4)),
                    LineStepView::Working,
                )
            }
        },
        PathOutcome::Failed(m) => (failed((StageView::Lines, w.1, w.2, w.3, w.4, w.5, w.6, w.7), m), LineStepView::Working),
    }
}

/// The settings whose value is a whole number.
pub open spec fn is_whole_setting(t: Token) -> bool {
    t == Token::MaxHist || t == Token::TopSngLen || t == Token::TopAlbLen || t == Token::TopArtLen
}

/// The settings after a whole-number setting `t` is set to `n`.
pub open spec fn with_number(sv: SettingsView, t: Token, n: i32) -> SettingsView {
    if t == Token::MaxHist {
        (n, sv.1, sv.2, sv.3, sv.4)
    } else if t == Token::TopSngLen {
        (sv.0, sv.1, n, sv.3, sv.4)
    } else if t == Token::TopAlbLen {
        (sv.0, sv.1, sv.2, n, sv.4)
    } else if t == Token::TopArtLen {
        (sv.0, sv.1, sv.2, sv.3, n)
    } else {
        sv
    }
}

/// The end of a number setting's line, after its value `value` (none for
/// the decay rate, which the caller keeps): the line must end there; then
/// the setting is set and noted, and the next line starts.
pub open spec fn value_end(v: LinesView, t: Token, value: i32) -> LinesView {
    let e = mark_scan(v.2, v.1, v.3, Token::EndL, "Missing End of Line Token"@);
    let w = moved(v, e.1, e.0, e.2);
    match e.3 {
        Some(m) => failed((StageView::Lines, w.1, w.2, w.3, w.4, w.5, w.6, w.7), m),
        None => {
            let note = if t == Token::TopDecay {
                NoteView::NewDecay(w.3)
            } else {
                NoteView::NewNumber(w.3, t, value)
            };
            (StageView::Lines, w.1, w.2, w.3 + 1, w.4, w.5, w.6.push(note), with_number(w.7, t, value))
        },
    }
}

/// One step of the reader from `v`, where it is not waiting for a value.
pub open spec fn step_of(v: LinesView) -> (LinesView, LineStepView) {
    match v.0 {
        StageView::Path(files, st) => path_stage_step(v, files, st),
        _ => lines_step(v),
    }
}

/// The weight of the rule stack in the reader's measure of progress: its
/// length, and two more between settings when `Config` is on top (a line is
/// about to start).
pub open spec fn stack_weight(v: LinesView) -> int {
    v.1.len() + if v.0 is Lines && v.1.len() > 0 && v.1.last() == Rule::Config {
        2int
    } else {
        0int
    }
}

/// `after` is closer to the end of the reading than `before`: fewer tokens
/// remain; or as many, on a later line; or the same line, with a lighter
/// rule stack. While line numbers stay below `i32::MAX` (which the reader
/// requires), this order has no infinite descending chain.
pub open spec fn closer(after: LinesView, before: LinesView) -> bool {
    ||| after.2.len() < before.2.len()
    ||| after.2.len() == before.2.len() && after.3 > before.3
    ||| after.2.len() == before.2.len() && after.3 == before.3 && stack_weight(after) < stack_weight(before)
}

/// Line numbers have room for the tokens that remain.
pub open spec fn has_room_view(v: LinesView) -> bool {
    0 <= v.3 && v.3 + v.2.len() < i32::MAX
}

/// The syntax errors are recorded in strictly increasing line order, each
/// on line 1 or later and before the line being read.
pub open spec fn errors_in_order(v: LinesView) -> bool {
    &&& v.3 >= 1
    &&& forall|i: int| 0 <= i < v.4.len() ==> 1 <= #[trigger] v.4[i].0 && v.4[i].0 < v.3
    &&& forall|i: int, j: int| 0 <= i < j < v.4.len() ==> #[trigger] v.4[i].0 < #[trigger] v.4[j].0
}

proof fn lemma_failed_in_order(w: LinesView, m: Seq<char>)
    requires
        errors_in_order(w),
        w.3 < i32::MAX,
    ensures
        errors_in_order(failed(w, m)),
        failed(w, m).2.len() <= w.2.len(),
        failed(w, m).3 > w.3,
{
    law_error_goes_on_to_the_next_line(w, m);
    let f = failed(w, m);
    assert forall|i: int| 0 <= i < f.4.len() implies 1 <= #[trigger] f.4[i].0 && f.4[i].0 < f.3 by {
        if i < w.4.len() {
            assert(f.4[i] == w.4[i]);
        }
    }
    assert forall|i: int, j: int| 0 <= i < j < f.4.len() implies #[trigger] f.4[i].0 < #[trigger] f.4[j].0 by {
        assert(f.4[i] == w.4[i]);
        if j < w.4.len() {
            assert(f.4[j] == w.4[j]);
        }
    }
}

/// Every step of the reader gets closer to the end: a step that asks for a
/// math block reads at least one token, a working step moves on in the
/// order `closer`; no step gives back a token or goes back a line.
pub proof fn law_reading_makes_progress(v: LinesView)
    requires
        !(v.0 is Value),
        has_room_view(v),
    ensures
        step_of(v).0.2.len() <= v.2.len(),
        step_of(v).0.3 >= v.3,
        step_of(v).1 is Working ==> closer(step_of(v).0, v),
        step_of(v).1 is NeedMath ==> step_of(v).0.2.len() < v.2.len(),
{
    lemma_step_progress(v, false);
}

/// Syntax errors come out in strictly increasing line order, each on line 1
/// or later: every step keeps that so.
pub proof fn law_errors_in_line_order(v: LinesView)
    requires
        !(v.0 is Value),
        has_room_view(v),
        errors_in_order(v),
    ensures
        errors_in_order(step_of(v).0),
{
    lemma_step_progress(v, true);
}

#[verifier::spinoff_prover]
proof fn lemma_step_progress(v: LinesView, ordered: bool)
    requires
        !(v.0 is Value),
        has_room_view(v),
        ordered ==> errors_in_order(v),
    ensures
        step_of(v).0.2.len() <= v.2.len(),
        step_of(v).0.3 >= v.3,
        step_of(v).1 is Working ==> closer(step_of(v).0, v),
        step_of(v).1 is NeedMath ==> step_of(v).0.2.len() < v.2.len(),
        ordered ==> errors_in_order(step_of(v).0),
{
    match v.0 {
        StageView::Path(files, st) => {
            lemma_path_step_bounds(st, v.1, v.2, v.3);
            let s = path_step(st, v.1, v.2, v.3);
            let w = moved(v, s.1, s.2, s.3);
            lemma_path_step_quiet(st, v.1, v.2, v.3);
            assert(w.2.len() == v.2.len() - s.2);
            if s.4 is Failed {
                let m = s.4->Failed_0;
                let w2 = (StageView::Lines, w.1, w.2, w.3, w.4, w.5, w.6, w.7);
                law_error_goes_on_to_the_next_line(w2, m);
                if ordered {
                    lemma_failed_in_order(w2, m);
                }
            }
        },
        _ => {
            let rule = if v.1.len() > 0 {
                Some(v.1.last())
            } else {
                None
            };
            let stack = if v.1.len() > 0 {
                v.1.drop_last()
            } else {
                v.1
            };
            lemma_line_start_bounds(rule, stack, v.2, v.3);
            let s = line_start_scan(rule, stack, v.2, v.3);
            let w = moved(v, s.0, s.1, s.2);
            match s.3 {
                LineOutcome::Failed(m) => {
                    law_error_goes_on_to_the_next_line(w, m);
                    if ordered {
                        lemma_failed_in_order(w, m);
                    }
                },
                LineOutcome::Setting(t) => {
                    lemma_asn_scan_bounds(w.2, w.1, w.3);
                    let a = asn_scan(w.2, w.1, w.3);
                    if a.3 is Some {
                        let w2 = moved(w, a.1, a.0, a.2);
                        law_error_goes_on_to_the_next_line(w2, a.3->0);
                        if ordered {
                            lemma_failed_in_order(w2, a.3->0);
                        }
                    }
                },
                LineOutcome::Continue => {
                    if v.2.len() > 0 {
                        lemma_comment_scan_bounds(v.2.drop_first(), stack.push(Rule::Line).push(Rule::CloseComm), v.3);
                    }
                },
                _ => {},
            }
        },
    }
}

/// Handing over a number setting's value gives back no token and goes back
/// no line, and keeps the errors in line order.
pub proof fn law_value_end_makes_progress(v: LinesView, t: Token, value: i32)
    requires
        has_room_view(v),
    ensures
        value_end(v, t, value).2.len() <= v.2.len(),
        value_end(v, t, value).3 >= v.3,
        errors_in_order(v) ==> errors_in_order(value_end(v, t, value)),
{
    lemma_mark_scan_bounds(v.2, v.1, v.3, Token::EndL, "Missing End of Line Token"@);
    let e = mark_scan(v.2, v.1, v.3, Token::EndL, "Missing End of Line Token"@);
    let w = moved(v, e.1, e.0, e.2);
    if e.3 is Some {
        let w2 = (StageView::Lines, w.1, w.2, w.3, w.4, w.5, w.6, w.7);
        law_error_goes_on_to_the_next_line(w2, e.3->0);
        if errors_in_order(v) {
            lemma_failed_in_order(w2, e.3->0);
        }
    }
}

/// A failed math block gives back no token, moves on a line, and keeps the
/// errors in line order.
pub proof fn law_math_failure_makes_progress(v: LinesView, m: Seq<char>)
    requires
        has_room_view(v),
    ensures
        failed(v, m).2.len() <= v.2.len(),
        failed(v, m).3 > v.3,
        errors_in_order(v) ==> errors_in_order(failed(v, m)),
{
    law_error_goes_on_to_the_next_line(v, m);
    if errors_in_order(v) {
        lemma_failed_in_order(v, m);
    }
}

/// A math block asked for by the reader, read on its cursor: the reader's
/// stage, errors, files, notes and settings stay; tokens are only read
/// (never given back) and lines only counted on; and the line numbers
/// still have room.
pub open spec fn math_read(c: LinesView, m: LinesView) -> bool {
    &&& m.0 == c.0
    &&& m.4 == c.4
    &&& m.5 == c.5
    &&& m.6 == c.6
    &&& m.7 == c.7
    &&& m.2.len() <= c.2.len()
    &&& m.3 >= c.3
    &&& has_room_view(m)
}

/// The answer handed to the reader after a math block: its error
/// (`math_failed`), a number setting's value (`whole_value`,
/// `decay_value`), or a path's numbers (`path_numbers`, which change only
/// the path read so far).
pub open spec fn answered(m: LinesView, b: LinesView) -> bool {
    ||| exists|msg: Seq<char>| b == #[trigger] failed(m, msg)
    ||| (m.0 matches StageView::Value(t) && exists|value: i32| b == #[trigger] value_end(m, t, value))
    ||| (m.0 is Path && b.0 is Path && b.1 == m.1 && b.2 == m.2 && b.3 == m.3 && b.4 == m.4 && b.5 == m.5
        && b.6 == m.6 && b.7 == m.7)
}

/// One move of a reading: a step of the reader (where the line numbers have
/// room), and, when it asks for a math block, the block read on the cursor
/// and the answer handed back.
pub open spec fn reader_move(a: LinesView, b: LinesView) -> bool {
    &&& !(a.0 is Value)
    &&& has_room_view(a)
    &&& {
        ||| step_of(a).1 is Working && b == step_of(a).0
        ||| step_of(a).1 is NeedMath && exists|m: LinesView| math_read(step_of(a).0, m) && #[trigger] answered(m, b)
    }
}

/// Each move of a reading gets closer to the end, goes back no line, and
/// keeps the errors in line order.
#[verifier::spinoff_prover]
proof fn lemma_move(a: LinesView, b: LinesView)
    requires
        reader_move(a, b),
    ensures
        closer(b, a),
        b.3 >= a.3,
        errors_in_order(a) ==> errors_in_order(b),
{
    law_reading_makes_progress(a);
    if errors_in_order(a) {
        law_errors_in_line_order(a);
    }
    let c = step_of(a).0;
    if step_of(a).1 is NeedMath {
        let m = choose|m: LinesView| math_read(c, m) && #[trigger] answered(m, b);
        if errors_in_order(a) {
            assert forall|i: int| 0 <= i < m.4.len() implies 1 <= #[trigger] m.4[i].0 && m.4[i].0 < m.3 by {
                assert(m.4[i] == c.4[i]);
            }
            assert(errors_in_order(m));
        }
        if exists|msg: Seq<char>| b == #[trigger] failed(m, msg) {
            let msg = choose|msg: Seq<char>| b == #[trigger] failed(m, msg);
            law_math_failure_makes_progress(m, msg);
        } else if m.0 is Value && exists|value: i32| b == #[trigger] value_end(m, m.0->Value_0, value) {
            let value = choose|value: i32| b == #[trigger] value_end(m, m.0->Value_0, value);
            law_value_end_makes_progress(m, m.0->Value_0, value);
        } else {
            assert(b.4 == m.4);
        }
    }
}

/// Errors come out in line order over a whole reading: in any run of moves
/// from a state whose errors are in order (a new reader, at line 1 with no
/// errors, is one), every state has its errors in strictly increasing line
/// order, each on line 1 or later, and no later state is on an earlier
/// line. (The reader has no outcome that fails: each step works on, asks for
/// a math block, or finishes.)
pub proof fn law_run_keeps_errors_in_order(vs: Seq<LinesView>)
    requires
        vs.len() > 0,
        errors_in_order(vs[0]),
        forall|i: int| 0 <= i < vs.len() - 1 ==> reader_move(#[trigger] vs[i], vs[i + 1]),
    ensures
        forall|i: int| 0 <= i < vs.len() ==> errors_in_order(#[trigger] vs[i]),
        forall|i: int, j: int| 0 <= i <= j < vs.len() ==> #[trigger] vs[i].3 <= #[trigger] vs[j].3,
    decreases vs.len(),
{
    if vs.len() > 1 {
        let front = vs.drop_last();
        assert forall|i: int| 0 <= i < front.len() - 1 implies reader_move(#[trigger] front[i], front[i + 1]) by {
            assert(front[i] == vs[i] && front[i + 1] == vs[i + 1]);
        }
        law_run_keeps_errors_in_order(front);
        let n = vs.len() - 1;
        assert(reader_move(vs[n - 1], vs[n]));
        assert(front[n - 1] == vs[n - 1]);
        lemma_move(vs[n - 1], vs[n]);
        assert forall|i: int| 0 <= i < vs.len() implies errors_in_order(#[trigger] vs[i]) by {
            if i < n {
                assert(front[i] == vs[i]);
            }
        }
        assert forall|i: int, j: int| 0 <= i <= j < vs.len() implies #[trigger] vs[i].3 <= #[trigger] vs[j].3 by {
            if j < n {
                assert(front[i] == vs[i] && front[j] == vs[j]);
            } else if i < n {
                assert(front[i] == vs[i] && front[n - 1] == vs[n - 1]);
            }
        }
    }
}

proof fn lemma_run_stops_from(f: spec_fn(nat) -> LinesView, i: nat)
    ensures
        exists|k: nat| k >= i && !reader_move(#[trigger] f(k), f(k + 1)),
    decreases f(i).2.len(), i32::MAX - f(i).3, stack_weight(f(i)),
{
    let j = (i + 1) as nat;
    if !reader_move(f(i), f(j)) {
        assert(!reader_move(f(i), f(i + 1)));
    } else if !reader_move(f(j), f((j + 1) as nat)) {
        assert(!reader_move(f(j), f(j + 1)));
    } else {
        lemma_move(f(i), f(j));
        lemma_run_stops_from(f, j);
    }
}

/// Every reading ends: no run of moves goes on for ever. In any sequence of
/// states, some state is not followed by a move of the reader made while the
/// line numbers have room (a step, and, where the step asks for one, a math
/// block and its answer). So a reading stops: at `Finished`, or when the
/// line numbers run out of room.
pub proof fn law_every_run_ends(f: spec_fn(nat) -> LinesView)
    ensures
        exists|k: nat| !reader_move(#[trigger] f(k), f(k + 1)),
{
    lemma_run_stops_from(f, 0);
}

/// The reader of one configuration file.
pub struct LineReader {
    pub cursor: ParseCursor,
    errors: Vec<Error>,
    sub_files: Vec<String>,
    notes: Vec<Note>,
    stage: Stage,
}

/// The lines and messages of syntax errors.
pub open spec fn error_views(es: Seq<Error>) -> Seq<(i32, Seq<char>)> {
    es.map_values(|e: Error| (e.line(), e.text()))
}

impl LineReader {
    /// The cursor.
    pub closed spec fn cur(&self) -> ParseCursor {
        self.cursor
    }

    pub closed spec fn stage(&self) -> StageView {
        stage_view(self.stage)
    }

    pub closed spec fn errs(&self) -> Seq<(i32, Seq<char>)> {
        error_views(self.errors@)
    }

    pub closed spec fn files(&self) -> Seq<Seq<char>> {
        texts(self.sub_files@)
    }

    pub closed spec fn notes_view(&self) -> Seq<NoteView> {
        self.notes@.map_values(|n: Note| note_view(n))
    }

    /// The reader with `settings`, in the ghost world.
    pub closed spec fn lines_view(&self, settings: Settings) -> LinesView {
        (
            self.stage(),
            self.cursor.stack@,
            token_views(self.cursor.tokens),
            self.cursor.line_number as int,
            self.errs(),
            self.files(),
            self.notes_view(),
            settings_view(settings),
        )
    }

    /// Line numbers stay in the `i32` range however many tokens remain, with
    /// room for one more line.
    pub closed spec fn room(&self) -> bool {
        &&& self.cursor.line_number >= 0
        &&& self.cursor.line_number + self.cursor.tokens@.len() < i32::MAX
    }

    /// The room the reader asks for is the room of its ghost view, and a new
    /// reader (line 1, no errors) has its errors in line order.
    pub proof fn lemma_room_of_view(&self, settings: Settings)
        ensures
            self.room() == has_room_view(self.lines_view(settings)),
            self.cur().line_number == 1 && self.errs().len() == 0 ==> errors_in_order(self.lines_view(settings)),
    {
        assert(token_views(self.cursor.tokens).len() == self.cursor.tokens@.len());
    }

    /// A reader of the tokens `tokens`, at line 1, before any line.
    pub fn new(tokens: VecDeque<LexicalUnit>) -> (r: LineReader)
        ensures
            r.stage() == StageView::Lines,
            r.cur().stack@ == seq![Rule::Config],
            r.cur().tokens == tokens,
            r.cur().line_number == 1,
            r.errs() == Seq::<(i32, Seq<char>)>::empty(),
            r.files() == Seq::<Seq<char>>::empty(),
            r.notes_view() == Seq::<NoteView>::empty(),
    {
        let mut stack: Vec<Rule> = Vec::new();
        stack.push(Rule::Config);
        let r = LineReader {
            cursor: ParseCursor { stack, tokens, line_number: 1 },
            errors: Vec::new(),
            sub_files: Vec::new(),
            notes: Vec::new(),
            stage: Stage::Lines,
        };
        assert(r.errs() =~= Seq::<(i32, Seq<char>)>::empty());
        assert(r.files() =~= Seq::<Seq<char>>::empty());
        assert(r.notes_view() =~= Seq::<NoteView>::empty());
        r
    }

    /// Whether line numbers have room for the tokens that remain.
    pub fn has_room(&self) -> (r: bool)
        ensures
            r == self.room(),
    {
        self.cursor.line_number >= 0 && (self.cursor.tokens.len() as u64) < (i32::MAX - self.cursor.line_number) as u64
    }

    fn note(&mut self, note: Note)
        ensures
            final(self).notes_view() == old(self).notes_view().push(note_view(note)),
            final(self).stage() == old(self).stage(),
            final(self).cur() == old(self).cur(),
            final(self).errs() == old(self).errs(),
            final(self).files() == old(self).files(),
    {
        self.notes.push(note);
        assert(self.notes_view() =~= old(self).notes_view().push(note_view(note)));
    }

    /// A syntax error on the current line.
    fn fail(&mut self, message: String)
        requires
            old(self).room(),
        ensures
            forall|s: Settings| #[trigger] final(self).lines_view(s) == failed(old(self).lines_view(s), message@),
            final(self).cur().lines_fit(),
    {
        let line = self.cursor.line_number;
        let m = message.clone();
        self.note(Note::SyntaxError { line, message: m });
        self.stage = Stage::Lines;
        let error = self.cursor.line_error(message);
        let ghost before = self.errors@;
        self.errors.push(error);
        assert(error_views(self.errors@) =~= error_views(before).push((line, message@)));
    }
    /// Starts the value of the setting `t`, just read.
    fn start_setting(&mut self, t: Token, Ghost(settings): Ghost<Settings>) -> (r: LineStep)
        requires
            old(self).room(),
            old(self).stage() == StageView::Lines,
            t == Token::File || t == Token::LibPath || t == Token::MaxHist || t == Token::TopSngLen || t
                == Token::TopAlbLen || t == Token::TopArtLen || t == Token::TopDecay,
        ensures
            ({
                let s = setting_start(old(self).lines_view(settings), t);
                &&& final(self).lines_view(settings) == s.0
                &&& line_step_view(r) == s.1
            }),
    {
        let ghost v = self.lines_view(settings);
        proof {
            lemma_asn_scan_bounds(v.2, v.1, v.3);
        }
        if t == Token::File || t == Token::LibPath {
            match PathParse::begin(&mut self.cursor) {
                Ok(path) => {
                    self.stage = Stage::Path { files: t == Token::File, path };
                },
                Err(message) => {
                    self.fail(message);
                },
            }
            LineStep::Working
        } else {
            match self.cursor.parse_asn() {
                Ok(()) => {
                    self.cursor.stack.push(Rule::CloseMath);
                    self.stage = Stage::Value { setting: t };
                    if t == Token::TopDecay {
                        LineStep::NeedMath(MathUse::Decay)
                    } else {
                        LineStep::NeedMath(MathUse::Whole(t))
                    }
                },
                Err(message) => {
                    self.fail(message);
                    LineStep::Working
                },
            }
        }
    }

    /// One step between settings.
    fn step_lines(&mut self, Ghost(settings): Ghost<Settings>) -> (r: LineStep)
        requires
            old(self).room(),
            old(self).stage() == StageView::Lines,
        ensures
            ({
                let s = lines_step(old(self).lines_view(settings));
                &&& final(self).lines_view(settings) == s.0
                &&& line_step_view(r) == s.1
            }),
    {
        let ghost v = self.lines_view(settings);
        let rule = self.cursor.stack.pop();
        let line = self.cursor.line_number;
        proof {
            let stack = if v.1.len() > 0 { v.1.drop_last() } else { v.1 };
            lemma_line_start_bounds(rule, stack, v.2, v.3);
            assert(token_views(self.cursor.tokens).len() == self.cursor.tokens@.len());
        }
        match self.cursor.line_start(rule) {
            LineStart::Continue => LineStep::Working,
            LineStart::Empty => {
                self.note(Note::Empty { line });
                LineStep::Working
            },
            LineStart::Finished => LineStep::Finished,
            LineStart::Failed(message) => {
                self.fail(message);
                LineStep::Working
            },
            LineStart::Setting(t) => self.start_setting(t, Ghost(settings)),
        }
    }
    /// The paths of a path setting: files to read, or library paths.
    fn take_paths(&mut self, files: bool, paths: Vec<String>, settings: &mut Settings)
        ensures
            ({
                let line = old(self).cur().line_number as int;
                let ps = texts(paths@);
                let sv = settings_view(*old(settings));
                &&& final(self).notes_view() == old(self).notes_view() + path_notes(files, ps, line)
                &&& final(self).files() == if files {
                    old(self).files() + ps
                } else {
                    old(self).files()
                }
                &&& settings_view(*final(settings)) == if files {
                    sv
                } else {
                    (sv.0, sv.1 + ps, sv.2, sv.3, sv.4)
                }
            }),
            final(self).stage() == old(self).stage(),
            final(self).cur() == old(self).cur(),
            final(self).errs() == old(self).errs(),
    {
        let ghost ps = texts(paths@);
        let ghost notes0 = self.notes_view();
        let ghost files0 = self.files();
        let ghost sv0 = settings_view(*settings);
        let line = self.cursor.line_number;
        let mut i: usize = 0;
        while i < paths.len()
            invariant
                0 <= i <= paths@.len(),
                ps == texts(paths@),
                line == self.cur().line_number,
                self.cur() == old(self).cur(),
                self.stage() == old(self).stage(),
                self.errs() == old(self).errs(),
                notes0 == old(self).notes_view(),
                files0 == old(self).files(),
                sv0 == settings_view(*old(settings)),
                self.notes_view() == notes0 + path_notes(files, ps.take(i as int), line as int),
                self.files() == if files {
                    files0 + ps.take(i as int)
                } else {
                    files0
                },
                settings_view(*settings) == if files {
                    sv0
                } else {
                    (sv0.0, sv0.1 + ps.take(i as int), sv0.2, sv0.3, sv0.4)
                },
            decreases paths@.len() - i,
        {
            let path = paths[i].clone();
            let ghost notes_before = self.notes_view();
            if files {
                self.note(Note::NewFile { line, path: paths[i].clone() });
                let ghost before = self.sub_files@;
                self.sub_files.push(path);
                proof {
                    lemma_texts_push(before, path);
                    assert(files0 + ps.take(i + 1) =~= (files0 + ps.take(i as int)).push(path@));
                }
            } else {
                self.note(Note::NewLibPath { line, path: paths[i].clone() });
                settings.add_library_path(path);
                assert(sv0.1 + ps.take(i + 1) =~= (sv0.1 + ps.take(i as int)).push(path@));
            }
            assert(path_notes(files, ps.take(i + 1), line as int) =~= path_notes(files, ps.take(i as int), line as int).push(
                if files {
                    NoteView::NewFile(line as int, path@)
                } else {
                    NoteView::NewLibPath(line as int, path@)
                },
            ));
            i = i + 1;
        }
        assert(ps.take(paths@.len() as int) =~= ps);
    }

    /// One step of reading a path setting's value.
    fn step_path(&mut self, settings: &mut Settings) -> (r: LineStep)
        requires
            old(self).room(),
            old(self).stage() is Path,
        ensures
            ({
                let s = match old(self).stage() {
                    StageView::Path(files, st) => path_stage_step(old(self).lines_view(*old(settings)), files, st),
                    _ => (old(self).lines_view(*old(settings)), LineStepView::Working),
                };
                &&& final(self).lines_view(*final(settings)) == s.0
                &&& line_step_view(r) == s.1
            }),
    {
        let ghost v = self.lines_view(*settings);
        let mut stage = Stage::Lines;
        std::mem::swap(&mut stage, &mut self.stage);
        match stage {
            Stage::Path { files, mut path } => {
                proof {
                    lemma_path_step_bounds(path.state(), v.1, v.2, v.3);
                    assert(token_views(self.cursor.tokens).len() == self.cursor.tokens@.len());
                }
                match path.step(&mut self.cursor) {
                    PathStep::Working => {
                        self.stage = Stage::Path { files, path };
                        LineStep::Working
                    },
                    PathStep::NeedMath { in_list } => {
                        self.stage = Stage::Path { files, path };
                        LineStep::NeedMath(MathUse::Path { in_list })
                    },
                    PathStep::Done(paths) => {
                        self.take_paths(files, paths, settings);
                        self.cursor.line_number = self.cursor.line_number + 1;
                        LineStep::Working
                    },
                    PathStep::Failed(message) => {
                        self.fail(message);
                        LineStep::Working
                    },
                }
            },
            _ => {
                self.stage = stage;
                LineStep::Working
            },
        }
    }
    /// One step of reading: between settings, or in a path setting's value.
    /// (A number setting's value is handed over with `whole_value` or
    /// `decay_value`, or its error with `math_failed`.)
    pub fn step(&mut self, settings: &mut Settings) -> (r: LineStep)
        requires
            old(self).room(),
            !(old(self).stage() is Value),
        ensures
            ({
                let s = step_of(old(self).lines_view(*old(settings)));
                &&& final(self).lines_view(*final(settings)) == s.0
                &&& line_step_view(r) == s.1
            }),
    {
        match self.stage {
            Stage::Lines => self.step_lines(Ghost(*settings)),
            _ => self.step_path(settings),
        }
    }

    /// The numbers of a math block inside the path being read, as texts.
    pub fn path_numbers(&mut self, in_list: bool, numbers: Vec<String>)
        requires
            old(self).stage() is Path,
        ensures
            ({
                let ns = texts(numbers@);
                match old(self).stage() {
                    StageView::Path(files, st) => final(self).stage() == StageView::Path(
                        files,
                        if in_list {
                            (st.0, product(st.1, ns), st.2, st.3)
                        } else {
                            (product(st.0, ns), st.1, st.2, st.3)
                        },
                    ),
                    _ => true,
                }
            }),
            final(self).cur() == old(self).cur(),
            final(self).errs() == old(self).errs(),
            final(self).files() == old(self).files(),
            final(self).notes_view() == old(self).notes_view(),
    {
        let mut stage = Stage::Lines;
        std::mem::swap(&mut stage, &mut self.stage);
        match stage {
            Stage::Path { files, mut path } => {
                path.add_numbers(in_list, numbers);
                self.stage = Stage::Path { files, path };
            },
            _ => {
                self.stage = stage;
            },
        }
    }

    /// The end of a number setting's line, after its value.
    fn end_value(&mut self, settings: &mut Settings, t: Token, value: i32) -> (accepted: bool)
        requires
            old(self).room(),
            t == Token::MaxHist || t == Token::TopSngLen || t == Token::TopAlbLen || t == Token::TopArtLen || t
                == Token::TopDecay,
        ensures
            final(self).lines_view(*final(settings)) == value_end(old(self).lines_view(*old(settings)), t, value),
            accepted == (mark_scan(
                token_views(old(self).cur().tokens),
                old(self).cur().stack@,
                old(self).cur().line_number as int,
                Token::EndL,
                "Missing End of Line Token"@,
            ).3 is None),
    {
        let ghost v = self.lines_view(*settings);
        proof {
            lemma_mark_scan_bounds(v.2, v.1, v.3, Token::EndL, "Missing End of Line Token"@);
            lemma_garbage_scan_bounds(v.2, v.1, v.3);
            assert(token_views(self.cursor.tokens).len() == self.cursor.tokens@.len());
        }
        self.stage = Stage::Lines;
        match self.cursor.parse_to_endl() {
            Ok(()) => {
                let line = self.cursor.line_number;
                if t == Token::TopDecay {
                    self.note(Note::NewDecay { line });
                } else {
                    if t == Token::MaxHist {
                        settings.set_history_len(value);
                    } else if t == Token::TopSngLen {
                        settings.set_top_songs_len(value);
                    } else if t == Token::TopAlbLen {
                        settings.set_top_albums_len(value);
                    } else {
                        settings.set_top_artists_len(value);
                    }
                    self.note(Note::NewNumber { line, setting: t, value });
                }
                self.cursor.line_number = line + 1;
                true
            },
            Err(message) => {
                assert(token_views(self.cursor.tokens).len() == self.cursor.tokens@.len());
                self.fail(message);
                false
            },
        }
    }

    /// The value of the whole-number setting whose math block was evaluated:
    /// the line must end after it; then the setting is set.
    pub fn whole_value(&mut self, settings: &mut Settings, value: i32)
        requires
            old(self).room(),
            old(self).stage() matches StageView::Value(t) && is_whole_setting(t),
        ensures
            match old(self).stage() {
                StageView::Value(t) => final(self).lines_view(*final(settings)) == value_end(
                    old(self).lines_view(*old(settings)),
                    t,
                    value,
                ),
                _ => true,
            },
            match old(self).stage() {
                StageView::Value(t) => {
                    let ended = mark_scan(
                        token_views(old(self).cur().tokens),
                        old(self).cur().stack@,
                        old(self).cur().line_number as int,
                        Token::EndL,
                        "Missing End of Line Token"@,
                    ).3 is None;
                    &&& final(settings).spec_history_len() == if ended && t == Token::MaxHist {
                        value
                    } else {
                        old(settings).spec_history_len()
                    }
                    &&& final(settings).spec_top_songs_len() == if ended && t == Token::TopSngLen {
                        value
                    } else {
                        old(settings).spec_top_songs_len()
                    }
                    &&& final(settings).spec_top_albums_len() == if ended && t == Token::TopAlbLen {
                        value
                    } else {
                        old(settings).spec_top_albums_len()
                    }
                    &&& final(settings).spec_top_artists_len() == if ended && t == Token::TopArtLen {
                        value
                    } else {
                        old(settings).spec_top_artists_len()
                    }
                    &&& final(settings).spec_library_paths() == old(settings).spec_library_paths()
                },
                _ => true,
            },
    {
        match self.stage {
            Stage::Value { setting } => {
                let ghost v = self.lines_view(*settings);
                let ghost s0 = *settings;
                self.end_value(settings, setting, value);
                proof {
                    law_number_line_sets_its_own_setting(v, setting, value, s0, *settings);
                }
            },
            _ => {},
        }
    }

    /// The decay rate's math block was evaluated (its value stays with the
    /// caller): the line must end after it; then the rate is to be set,
    /// which `accepted` tells.
    pub fn decay_value(&mut self, settings: &mut Settings) -> (accepted: bool)
        requires
            old(self).room(),
            old(self).stage() == StageView::Value(Token::TopDecay),
        ensures
            final(self).lines_view(*final(settings)) == value_end(
                old(self).lines_view(*old(settings)),
                Token::TopDecay,
                0,
            ),
            accepted == (mark_scan(
                token_views(old(self).cur().tokens),
                old(self).cur().stack@,
                old(self).cur().line_number as int,
                Token::EndL,
                "Missing End of Line Token"@,
            ).3 is None),
    {
        self.end_value(settings, Token::TopDecay, 0)
    }

    /// The math block that was asked for has the error `message`.
    pub fn math_failed(&mut self, message: String)
        requires
            old(self).room(),
        ensures
            forall|s: Settings| #[trigger] final(self).lines_view(s) == failed(old(self).lines_view(s), message@),
    {
        self.fail(message);
    }

    /// The notes so far, in order; they are taken away.
    pub fn take_notes(&mut self) -> (r: Vec<Note>)
        ensures
            r@.map_values(|n: Note| note_view(n)) == old(self).notes_view(),
            final(self).notes_view() == Seq::<NoteView>::empty(),
            final(self).stage() == old(self).stage(),
            final(self).cur() == old(self).cur(),
            final(self).errs() == old(self).errs(),
            final(self).files() == old(self).files(),
    {
        let mut r: Vec<Note> = Vec::new();
        std::mem::swap(&mut r, &mut self.notes);
        assert(self.notes_view() =~= Seq::<NoteView>::empty());
        r
    }

    /// The syntax errors and the files named.
    pub fn finish(self) -> (r: (Vec<Error>, Vec<String>))
        ensures
            error_views(r.0@) == self.errs(),
            texts(r.1@) == self.files(),
    {
        (self.errors, self.sub_files)
    }
}


/// The settings that a number setting's line leaves, read through the
/// settings' getters: when the line ends right after the value, a
/// whole-number keyword sets its own setting, `maxHistory` the history
/// length, `topSongsLen`, `topAlbumsLen` and `topArtistsLen` the top songs',
/// albums' and artists' lengths, and every other setting keeps its value;
/// the decay rate, and a line that does not end there, leave all of them.
pub proof fn law_number_line_sets_its_own_setting(v: LinesView, t: Token, n: i32, s0: Settings, s1: Settings)
    requires
        is_whole_setting(t) || t == Token::TopDecay,
        v.7 == settings_view(s0),
        value_end(v, t, n).7 == settings_view(s1),
    ensures
        ({
            let ended = mark_scan(v.2, v.1, v.3, Token::EndL, "Missing End of Line Token"@).3 is None;
            &&& s1.spec_history_len() == if ended && t == Token::MaxHist {
                n
            } else {
                s0.spec_history_len()
            }
            &&& s1.spec_top_songs_len() == if ended && t == Token::TopSngLen {
                n
            } else {
                s0.spec_top_songs_len()
            }
            &&& s1.spec_top_albums_len() == if ended && t == Token::TopAlbLen {
                n
            } else {
                s0.spec_top_albums_len()
            }
            &&& s1.spec_top_artists_len() == if ended && t == Token::TopArtLen {
                n
            } else {
                s0.spec_top_artists_len()
            }
            &&& s1.spec_library_paths() == s0.spec_library_paths()
        }),
{
}

} // verus!

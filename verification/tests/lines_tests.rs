use longhorn::lexer::{Lexer, Token};
use longhorn::lines::{LineReader, LineStep, MathUse, Note};
use longhorn::math::{Level, MathParse, MathStep, PassKind, PassStep};
use longhorn::parse::ParseCursor;
use longhorn::settings::Settings;

/// Evaluates levels joined by `+` only.
fn evaluate(terms: &mut Vec<f64>, lens: &mut Vec<usize>, ops: &mut Vec<Token>, level_len: usize) -> Result<Vec<f64>, String> {
    let mut level = Level::gather(terms, lens, ops, level_len)?;
    for kind in [PassKind::Negate, PassKind::Power, PassKind::Product, PassKind::Sum] {
        loop {
            match level.pass_step(kind) {
                PassStep::Working => {}
                PassStep::Negate { term, .. } => level.push_results(term?.iter().map(|e| -e).collect()),
                PassStep::Apply { one, two, .. } => {
                    let mut values = vec![];
                    for a in &one {
                        for b in &two {
                            values.push(a + b);
                        }
                    }
                    level.push_results(values);
                }
                PassStep::Finished => break,
                PassStep::Failed(m) => return Err(m),
            }
        }
    }
    level.finish()
}

fn math(cursor: &mut ParseCursor) -> Result<Vec<f64>, String> {
    let mut m = MathParse::begin(cursor, -1.0);
    loop {
        match m.step(cursor) {
            MathStep::Working => {}
            MathStep::Number(t) => m.push_number(t.parse::<f64>().map_err(|e| e.to_string())?),
            MathStep::Level => {
                let n = m.level_len();
                let r = evaluate(&mut m.term_stack, &mut m.term_len_stack, &mut m.op_stack, n);
                match m.level_done(r) {
                    MathStep::Done(v) => return Ok(v),
                    MathStep::Failed(e) => return Err(e),
                    _ => {}
                }
            }
            MathStep::Done(v) => return Ok(v),
            MathStep::Failed(e) => return Err(e),
        }
    }
}

struct Read {
    settings: Settings,
    decay: Option<f64>,
    notes: Vec<String>,
    errors: Vec<(i32, String)>,
    files: Vec<String>,
}

fn read(text: &str) -> Read {
    let mut settings = Settings::new();
    let mut reader = LineReader::new(Lexer::process_text(text));
    let mut decay = None;
    let mut notes = vec![];
    loop {
        assert!(reader.has_room());
        match reader.step(&mut settings) {
            LineStep::Working => {}
            LineStep::Finished => break,
            LineStep::NeedMath(usage) => match (usage, math(&mut reader.cursor)) {
                (_, Err(m)) => reader.math_failed(m),
                (MathUse::Path { in_list }, Ok(v)) => reader.path_numbers(in_list, v.iter().map(|n| n.to_string()).collect()),
                (MathUse::Whole(_), Ok(v)) => reader.whole_value(&mut settings, v[v.len() - 1].round() as i32),
                (MathUse::Decay, Ok(v)) => {
                    if reader.decay_value(&mut settings) {
                        decay = Some(v[v.len() - 1]);
                    }
                }
            },
        }
        for note in reader.take_notes() {
            notes.push(match note {
                Note::NewFile { line, path } => format!("{} file {}", line, path),
                Note::NewLibPath { line, path } => format!("{} lib {}", line, path),
                Note::NewNumber { line, setting, value } => format!("{} {:?} {}", line, setting, value),
                Note::NewDecay { line } => format!("{} decay", line),
                Note::Empty { line } => format!("{} empty", line),
                Note::SyntaxError { line, message } => format!("{} error {}", line, message),
            });
        }
    }
    let (errors, files) = reader.finish();
    Read {
        settings,
        decay,
        notes,
        errors: errors.iter().map(|e| (e.get_line(), e.get_message())).collect(),
        files,
    }
}

#[test]
fn settings_are_read_line_by_line() {
    let r = read("maxHistory = 10\n\nlibraryPath = /a\nfile = b\ntopSongsLen = 2 + 3\n");
    assert_eq!(r.settings.history_len(), 10);
    assert_eq!(r.settings.library_paths(), vec!["~/Music".to_string(), "/a".to_string()]);
    assert_eq!(r.settings.top_songs_len(), 5);
    assert_eq!(r.files, vec!["b".to_string()]);
    assert!(r.errors.is_empty());
    assert_eq!(r.notes, vec!["1 MaxHist 10", "2 empty", "3 lib /a", "4 file b", "5 TopSngLen 5"]);
}

#[test]
fn a_line_with_an_error_is_skipped_and_reading_goes_on() {
    let r = read("junk\nmaxHistory = 5\n");
    assert_eq!(r.errors, vec![(1, "Unexpected Token While Parsing Start of Line".to_string())]);
    assert_eq!(r.settings.history_len(), 5);
    assert_eq!(r.notes, vec!["1 error Unexpected Token While Parsing Start of Line", "2 MaxHist 5"]);
}

#[test]
fn a_value_must_end_its_line() {
    let r = read("maxHistory = 5 6\ntopAlbumsLen = 7\n");
    assert_eq!(r.errors, vec![(1, "Missing End of Line Token".to_string())]);
    assert_eq!(r.settings.history_len(), 50);
    assert_eq!(r.settings.top_albums_len(), 7);
}

#[test]
fn the_decay_rate_is_left_to_the_caller() {
    let r = read("topDecayRate = 0.5\n");
    assert_eq!(r.decay, Some(0.5));
    assert_eq!(r.notes, vec!["1 decay"]);
    let r = read("topDecayRate = 0.5 x\n");
    assert_eq!(r.decay, None);
    assert_eq!(r.errors, vec![(1, "Missing End of Line Token".to_string())]);
}

#[test]
fn a_math_block_in_a_path_is_evaluated() {
    let r = read("file = t{1 + 1}\n");
    assert_eq!(r.files, vec!["t2".to_string()]);
    assert!(r.errors.is_empty());
}

#[test]
fn a_math_error_is_a_line_error() {
    let r = read("maxHistory = (1\nfile = a\nfile = b\n");
    assert_eq!(r.errors, vec![(1, "Unexpected Token When Closing Parenthesis".to_string())]);
    // the math block read the line's end, so the next line is the one skipped
    assert_eq!(r.files, vec!["b".to_string()]);
}

#[test]
fn errors_come_out_in_line_order() {
    let r = read("junk\n\nmaxHistory = 5 6\n/* a\nb */ more junk\nfile = [x\n");
    let lines: Vec<i32> = r.errors.iter().map(|e| e.0).collect();
    assert_eq!(lines, vec![1, 3, 5, 6]);
}

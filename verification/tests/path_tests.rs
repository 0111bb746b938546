use longhorn::lexer::{Lexer, Token};
use longhorn::parse::{LineStart, ParseCursor, Rule};
use longhorn::path::{PathParse, PathStep};

fn cursor(text: &str) -> ParseCursor {
    ParseCursor { stack: vec![Rule::Config], tokens: Lexer::process_text(text), line_number: 1 }
}

/// Reads a path setting's value; math blocks are stood in for by the
/// given numbers, their tokens skipped up to the closing brace.
fn read_path(text: &str, numbers: &[&str]) -> (Result<Vec<String>, String>, ParseCursor) {
    let mut c = cursor(text);
    let mut path = match PathParse::begin(&mut c) {
        Ok(p) => p,
        Err(m) => return (Err(m), c),
    };
    loop {
        match path.step(&mut c) {
            PathStep::Working => {}
            PathStep::NeedMath { in_list } => {
                while let Some(unit) = c.tokens.pop_front() {
                    if unit.get_token() == Token::CloseCurl {
                        break;
                    }
                }
                assert_eq!(c.stack.pop(), Some(Rule::CloseCurl));
                path.add_numbers(in_list, numbers.iter().map(|n| n.to_string()).collect());
            }
            PathStep::Done(paths) => return (Ok(paths), c),
            PathStep::Failed(m) => return (Err(m), c),
        }
    }
}

fn strings(v: &[&str]) -> Vec<String> {
    v.iter().map(|s| s.to_string()).collect()
}

#[test]
fn plain_path_is_read_to_the_end_of_the_line() {
    let (r, c) = read_path(" = /a/b\nnext\n", &[]);
    assert_eq!(r, Ok(strings(&["/a/b"])));
    assert_eq!(c.stack, vec![Rule::Config]);
    assert_eq!(c.tokens.len(), 2);
}

#[test]
fn inner_white_space_stays_and_trailing_white_space_goes() {
    let (r, _) = read_path("= a b  \n", &[]);
    assert_eq!(r, Ok(strings(&["a b"])));
}

#[test]
fn escaped_characters_are_taken_as_they_are() {
    let (r, _) = read_path("= a\\[b\n", &[]);
    assert_eq!(r, Ok(strings(&["a[b"])));
}

#[test]
fn comments_inside_a_path_are_skipped() {
    let (r, _) = read_path("= a/*x*/b\n", &[]);
    assert_eq!(r, Ok(strings(&["ab"])));
}

#[test]
fn a_bracketed_item_is_added_to_the_path() {
    let (r, _) = read_path("= a[b c]d\n", &[]);
    assert_eq!(r, Ok(strings(&["ab cd"])));
}

#[test]
fn a_math_block_multiplies_the_paths() {
    let (r, _) = read_path("= track{1}.flac\n", &["1", "2"]);
    assert_eq!(r, Ok(strings(&["track1.flac", "track2.flac"])));
}

#[test]
fn path_errors() {
    let (r, _) = read_path(" a\n", &[]);
    assert_eq!(r, Err("Missing Assignment Token".to_string()));
    let (r, c) = read_path("= [a\n", &[]);
    assert_eq!(r, Err("Unexpected New-Line in Path List".to_string()));
    assert_eq!(c.tokens[0].get_token(), Token::EndL);
    let (r, _) = read_path("= ab ", &[]);
    assert_eq!(r, Err("Unexpected End of File While Parsing Path".to_string()));
}

#[test]
fn line_start_reads_keywords_and_empty_lines() {
    let mut c = cursor("\nfile = a\n");
    let rule = c.stack.pop();
    assert!(matches!(c.line_start(rule), LineStart::Continue));
    assert_eq!(c.stack, vec![Rule::Config, Rule::Line]);
    let rule = c.stack.pop();
    assert!(matches!(c.line_start(rule), LineStart::Empty));
    assert_eq!(c.line_number, 2);
    let rule = c.stack.pop();
    assert!(matches!(c.line_start(rule), LineStart::Continue));
    let rule = c.stack.pop();
    assert!(matches!(c.line_start(rule), LineStart::Setting(Token::File)));
    assert_eq!(c.stack, vec![Rule::Config]);
}

#[test]
fn line_start_errors_and_the_end() {
    let mut c = cursor("= 3\n");
    assert!(matches!(c.line_start(Some(Rule::Line)), LineStart::Failed(m) if m == "Unexpected Token While Parsing Start of Line"));
    let mut c = cursor("");
    assert!(matches!(c.line_start(Some(Rule::Config)), LineStart::Finished));
    assert!(matches!(c.line_start(Some(Rule::Line)), LineStart::Failed(m) if m == "Unexpected End of File While Parsing Line"));
    assert!(matches!(c.line_start(Some(Rule::Term)), LineStart::Failed(m) if m == "Unexpected Rule While Parsing Line"));
}

#[test]
fn error_recovery_skips_the_rest_of_the_line() {
    let mut c = cursor("junk /* a\nb */ more\nfile\n");
    c.stack = vec![Rule::Config, Rule::Line, Rule::Char, Rule::CloseSquare];
    c.skip_error_line();
    assert_eq!(c.stack, vec![Rule::Config]);
    assert_eq!(c.line_number, 2);
    assert_eq!(c.tokens.len(), 2);
    assert_eq!(c.tokens[0].get_token(), Token::File);
}

#[test]
fn a_line_error_is_recorded_and_its_line_skipped() {
    let mut c = cursor("junk more\nfile\n");
    c.stack = vec![Rule::Config, Rule::Line, Rule::Char];
    c.line_number = 3;
    let e = c.line_error("bad line".to_string());
    assert_eq!(e.get_line(), 3);
    assert_eq!(e.get_message(), "bad line");
    assert_eq!(c.line_number, 4);
    assert_eq!(c.stack, vec![Rule::Config]);
    assert_eq!(c.tokens.len(), 2);
    assert_eq!(c.tokens[0].get_token(), Token::File);
}

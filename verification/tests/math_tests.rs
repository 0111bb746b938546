use longhorn::lexer::{Lexer, Token};
use longhorn::math::{pairs, pass_order, Level, MathParse, MathStep, PassKind, PassStep};
use longhorn::parse::{build_list_term, level_stack_add_term_list, ParseCursor, Rule};
use std::collections::VecDeque;

/// A cursor for an integer setting's value: the block ends at the line.
fn cursor(text: &str) -> ParseCursor {
    ParseCursor { stack: vec![Rule::Config, Rule::CloseMath], tokens: Lexer::process_text(text), line_number: 1 }
}

/// Evaluates a level of one term, or of terms joined by `+`.
fn evaluate(terms: &mut Vec<f64>, lens: &mut Vec<usize>, ops: &mut Vec<Token>, level_len: usize) -> Result<Vec<f64>, String> {
    let mut level_terms = VecDeque::new();
    let mut level_lens = VecDeque::new();
    level_stack_add_term_list(terms, &mut level_terms, lens, &mut level_lens)?;
    let mut sum = build_list_term(&mut level_terms, &mut level_lens)?;
    for _ in 1..level_len {
        assert_eq!(ops.pop(), Some(Token::Plus));
        level_stack_add_term_list(terms, &mut level_terms, lens, &mut level_lens)?;
        let term = build_list_term(&mut level_terms, &mut level_lens)?;
        sum = vec![sum[0] + term[0]];
    }
    Ok(sum)
}

fn read_math(text: &str) -> (Result<Vec<f64>, String>, ParseCursor) {
    let mut c = cursor(text);
    let mut math = MathParse::begin(&mut c, -1.0);
    loop {
        assert!(math.counts_fit());
        match math.step(&mut c) {
            MathStep::Working => {}
            MathStep::Number(text) => math.push_number(text.parse::<f64>().unwrap()),
            MathStep::Level => {
                let level_len = math.level_len();
                let level = evaluate(&mut math.term_stack, &mut math.term_len_stack, &mut math.op_stack, level_len);
                match math.level_done(level) {
                    MathStep::Done(values) => return (Ok(values), c),
                    MathStep::Failed(m) => return (Err(m), c),
                    _ => {}
                }
            }
            MathStep::Done(values) => return (Ok(values), c),
            MathStep::Failed(m) => return (Err(m), c),
        }
    }
}

#[test]
fn a_number_is_read_up_to_the_end_of_the_line() {
    let (r, c) = read_math("5\n");
    assert_eq!(r, Ok(vec![5.0]));
    assert_eq!(c.stack, vec![Rule::Config]);
    assert_eq!(c.tokens.len(), 1);
    assert_eq!(c.tokens[0].get_token(), Token::EndL);
}

#[test]
fn numbers_with_a_decimal_point_are_read_whole() {
    let (r, _) = read_math("1.5 + .25\n");
    assert_eq!(r, Ok(vec![1.75]));
}

#[test]
fn operators_make_the_level_longer() {
    let mut c = cursor("1 + 2\n");
    let mut math = MathParse::begin(&mut c, -1.0);
    assert!(matches!(math.step(&mut c), MathStep::Number(t) if t == "1"));
    math.push_number(1.0);
    assert!(matches!(math.step(&mut c), MathStep::Working));
    assert_eq!(math.level_len(), 2);
    assert_eq!(math.op_stack, vec![Token::Plus]);
    assert!(matches!(math.step(&mut c), MathStep::Number(t) if t == "2"));
}

#[test]
fn a_list_is_one_term_of_its_items() {
    let (r, _) = read_math("[1 2 3]\n");
    assert_eq!(r, Ok(vec![1.0, 2.0, 3.0]));
}

#[test]
fn a_minus_sign_pushes_minus_one_and_a_negation() {
    let mut c = cursor("-4\n");
    let mut math = MathParse::begin(&mut c, -1.0);
    assert!(matches!(math.step(&mut c), MathStep::Working));
    assert_eq!(math.term_stack, vec![-1.0]);
    assert_eq!(math.term_len_stack, vec![0]);
    assert_eq!(math.op_stack, vec![Token::NegativeMult]);
    assert_eq!(math.level_len(), 2);
}

#[test]
fn math_errors() {
    let (r, _) = read_math("-\n");
    assert_eq!(r, Err("Unexpected Token While Parsing Math Term".to_string()));
    let (r, _) = read_math("(1\n");
    assert_eq!(r, Err("Unexpected Token When Closing Parenthesis".to_string()));
    let (r, _) = read_math("");
    assert_eq!(r, Err("Unexpected End of File While Parsing Garbage".to_string()));
    let mut c = cursor("1\n");
    c.stack = vec![Rule::Config, Rule::Line];
    let mut math: MathParse<f64> = MathParse::begin(&mut c, -1.0);
    c.stack.clear();
    assert!(matches!(math.step(&mut c), MathStep::Failed(m) if m == "Unexpected End of Rule Stack While Parsing Math"));
}

#[test]
fn an_evaluation_error_is_passed_on() {
    let mut c = cursor("1\n");
    let mut math = MathParse::begin(&mut c, -1.0);
    assert!(matches!(math.step(&mut c), MathStep::Number(_)));
    math.push_number(1.0);
    assert!(matches!(math.step(&mut c), MathStep::Level));
    let r = math.level_done(Err("bad level".to_string()));
    assert!(matches!(r, MathStep::Failed(m) if m == "bad level"));
}

#[test]
fn a_block_must_end_as_one_term() {
    let mut c = cursor("1\n");
    let mut math = MathParse::begin(&mut c, -1.0);
    assert!(matches!(math.step(&mut c), MathStep::Number(_)));
    math.push_number(1.0);
    assert!(matches!(math.step(&mut c), MathStep::Level));
    // the level's term is taken, but an operator is left behind
    math.term_stack.pop();
    math.term_len_stack.pop();
    math.op_stack.push(Token::Plus);
    let r = math.level_done(Ok(vec![7.0]));
    assert!(matches!(r, MathStep::Failed(m) if m == "Unexpected Operators in Stack When Returning From Math"));
}

fn evaluate_level(terms: &mut Vec<i64>, lens: &mut Vec<usize>, ops: &mut Vec<Token>, level_len: usize) -> Result<Vec<i64>, String> {
    let mut level = Level::gather(terms, lens, ops, level_len)?;
    for kind in [PassKind::Negate, PassKind::Power, PassKind::Product, PassKind::Sum] {
        loop {
            match level.pass_step(kind) {
                PassStep::Working => {}
                PassStep::Negate { first, term } => {
                    if first != -1 {
                        return Err("Unexpected Term While Performing Negative Mult".to_string());
                    }
                    level.push_results(term?.iter().map(|e| -e).collect());
                }
                PassStep::Apply { op, one, two } => {
                    let mut values = vec![];
                    for a in &one {
                        for b in &two {
                            values.push(match op {
                                Token::Carrot => a.pow(*b as u32),
                                Token::Star => a * b,
                                Token::Slash => a / b,
                                Token::Percent => a.rem_euclid(*b),
                                Token::Plus => a + b,
                                _ => a - b,
                            });
                        }
                    }
                    level.push_results(values);
                }
                PassStep::Finished => break,
                PassStep::Failed(m) => return Err(m),
            }
        }
    }
    level.finish()
}

#[test]
fn a_level_is_evaluated_by_precedence_over_lists() {
    // 1 + [2 3] * 4 ^ 2, after a term of an outer level
    let mut terms = vec![9, 1, 2, 3, 4, 2];
    let mut lens = vec![0usize, 0, 0, 0, 2, 0, 0];
    let mut ops = vec![Token::Dash, Token::Plus, Token::Star, Token::Carrot];
    let r = evaluate_level(&mut terms, &mut lens, &mut ops, 4);
    assert_eq!(r, Ok(vec![33, 49]));
    assert_eq!(terms, vec![9]);
    assert_eq!(lens, vec![0]);
    assert_eq!(ops.len(), 1);
}

#[test]
fn a_negation_multiplies_by_minus_one() {
    let mut terms = vec![-1, 4];
    let mut lens = vec![0usize, 0];
    let mut ops = vec![Token::NegativeMult];
    assert_eq!(evaluate_level(&mut terms, &mut lens, &mut ops, 2), Ok(vec![-4]));
}

#[test]
fn level_errors() {
    let mut terms = vec![1, 2];
    let mut lens = vec![0usize, 0];
    let mut ops = vec![];
    assert_eq!(
        evaluate_level(&mut terms, &mut lens, &mut ops, 2).err(),
        Some("Unexpected End of Operators While Constructing Level Stack".to_string())
    );
    assert_eq!(terms, vec![1]);
    assert_eq!(lens, vec![0]);

    let mut terms = vec![1, 2];
    let mut lens = vec![0usize, 0];
    let mut ops = vec![Token::Dot];
    assert_eq!(
        evaluate_level(&mut terms, &mut lens, &mut ops, 2).err(),
        Some("Unexpected Term List When Returning From Calculate Level".to_string())
    );

    let mut terms = vec![5, 4];
    let mut lens = vec![0usize, 0];
    let mut ops = vec![Token::NegativeMult];
    assert_eq!(
        evaluate_level(&mut terms, &mut lens, &mut ops, 2).err(),
        Some("Unexpected Term While Performing Negative Mult".to_string())
    );
}

#[test]
fn passes_go_by_precedence() {
    assert_eq!(pass_order(), vec![PassKind::Negate, PassKind::Power, PassKind::Product, PassKind::Sum]);
}

#[test]
fn pairs_go_by_the_first_term_then_the_second() {
    let p = pairs(&vec![1, 2], &vec![10, 20, 30]);
    assert_eq!(p, vec![(1, 10), (1, 20), (1, 30), (2, 10), (2, 20), (2, 30)]);
    assert!(pairs(&vec![1, 2], &Vec::<i32>::new()).is_empty());
}

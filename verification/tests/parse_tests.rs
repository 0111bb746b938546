use longhorn::lexer::{Lexer, Token};
use longhorn::parse::{build_list_term, level_stack_add_term_list, ParseCursor, Rule, Status};
use std::collections::VecDeque;

fn cursor(text: &str) -> ParseCursor {
    ParseCursor { stack: vec![Rule::Config], tokens: Lexer::process_text(text), line_number: 1 }
}

#[test]
fn assignment_mark_and_garbage_are_read() {
    let mut c = cursor(" /* note */ = 5\n");
    assert!(c.parse_asn().is_ok());
    assert_eq!(c.tokens[0].get_token(), Token::Num);
    assert_eq!(c.stack, vec![Rule::Config]);
}

#[test]
fn missing_assignment_mark_is_reported() {
    let mut c = cursor(" 5\n");
    assert_eq!(c.parse_asn(), Err("Missing Assignment Token".to_string()));
    let mut c = cursor("  ");
    assert!(c.tokens.is_empty());
    let mut d = cursor("");
    assert_eq!(d.parse_asn(), Err("Unexpected End of File While Parsing Garbage".to_string()));
    c.tokens.clear();
    assert_eq!(c.parse_clear_garbage(), Err("Unexpected End of File While Parsing Garbage".to_string()));
}

#[test]
fn end_of_line_is_read() {
    let mut c = cursor("  \n");
    assert!(c.parse_to_endl().is_ok());
    assert!(c.tokens.is_empty());
    let mut c = cursor(" x\n");
    assert_eq!(c.parse_to_endl(), Err("Missing End of Line Token".to_string()));
}

#[test]
fn nested_comments_are_skipped_whole() {
    let mut c = cursor("/* a /* b */ c\n */ x\n");
    assert!(c.parse_clear_garbage().is_ok());
    assert_eq!(c.tokens[0].get_token(), Token::String);
    assert_eq!(c.tokens[0].get_lexime(), "x");
    assert_eq!(c.stack, vec![Rule::Config]);
    assert_eq!(c.line_number, 2);
}

#[test]
fn unclosed_comment_is_an_error() {
    let mut c = cursor("a /* b\n");
    c.tokens.pop_front();
    c.tokens.pop_front();
    c.tokens.pop_front();
    c.stack.push(Rule::CloseComm);
    match c.parse_comment() {
        Status::LineError(m) => assert_eq!(m, "Unexpected End of File While Parsing Comment"),
        Status::Done => panic!("the comment does not close"),
    }
}

#[test]
fn numbers_and_decimals() {
    let mut c = cursor(".25\n");
    assert_eq!(c.parse_num(), Ok(".25".to_string()));
    let mut c = cursor("x\n");
    assert_eq!(c.parse_num(), Ok("".to_string()));
    assert_eq!(c.parse_decimal(), Ok("".to_string()));
    let mut c = cursor("");
    assert_eq!(c.parse_num(), Err("Unexpected End of File While Parsing Num".to_string()));
    assert_eq!(c.parse_decimal(), Err("Unexpected End of File While Parsing Decimal".to_string()));
}

#[test]
fn list_terms_are_built_from_the_level_stacks() {
    let mut terms: VecDeque<f64> = VecDeque::from(vec![1.0, 2.0, 3.0, 4.0]);
    let mut lens: VecDeque<usize> = VecDeque::from(vec![0, 2, 0, 0, 0]);
    assert_eq!(build_list_term(&mut terms, &mut lens), Ok(vec![1.0]));
    assert_eq!(build_list_term(&mut terms, &mut lens), Ok(vec![2.0, 3.0]));
    assert_eq!(build_list_term(&mut terms, &mut lens), Ok(vec![4.0]));
    assert_eq!(
        build_list_term(&mut terms, &mut lens),
        Err("Unexpected End of Level Term Len Stack While Constructing Term".to_string())
    );
    let mut terms: VecDeque<f64> = VecDeque::from(vec![1.0]);
    let mut lens: VecDeque<usize> = VecDeque::from(vec![3, 0, 0, 0]);
    assert_eq!(
        build_list_term(&mut terms, &mut lens),
        Err("Unexpected End of Level Term Stack While Constructing List Term".to_string())
    );
}

#[test]
fn level_term_takes_a_single_value() {
    let mut terms = vec![1, 2, 3];
    let mut lens = vec![0usize, 2, 0];
    let mut level_terms = VecDeque::from(vec![9]);
    let mut level_lens = VecDeque::from(vec![0usize]);
    let r = level_stack_add_term_list(&mut terms, &mut level_terms, &mut lens, &mut level_lens);
    assert_eq!(r, Ok(()));
    assert_eq!(terms, vec![1, 2]);
    assert_eq!(lens, vec![0, 2]);
    assert_eq!(level_terms, VecDeque::from(vec![3, 9]));
    assert_eq!(level_lens, VecDeque::from(vec![0, 0]));
}

#[test]
fn level_term_flattens_nested_lists() {
    // [1, [2, 3]] after a single value 7
    let mut terms = vec![7, 1, 2, 3];
    let mut lens = vec![0usize, 0, 0, 0, 2, 2];
    let mut level_terms = VecDeque::new();
    let mut level_lens = VecDeque::new();
    let r = level_stack_add_term_list(&mut terms, &mut level_terms, &mut lens, &mut level_lens);
    assert_eq!(r, Ok(()));
    assert_eq!(terms, vec![7]);
    assert_eq!(lens, vec![0]);
    assert_eq!(level_terms, VecDeque::from(vec![1, 2, 3]));
    assert_eq!(level_lens, VecDeque::from(vec![3, 0, 0, 0]));
}

#[test]
fn level_term_of_a_list_holding_one_list() {
    // [[1, 2]]
    let mut terms = vec![1, 2];
    let mut lens = vec![0usize, 0, 2, 1];
    let mut level_terms = VecDeque::new();
    let mut level_lens = VecDeque::new();
    assert_eq!(level_stack_add_term_list(&mut terms, &mut level_terms, &mut lens, &mut level_lens), Ok(()));
    assert_eq!(level_terms, VecDeque::from(vec![1, 2]));
    assert_eq!(level_lens, VecDeque::from(vec![2, 0, 0]));
    assert!(terms.is_empty());
    assert!(lens.is_empty());
}

#[test]
fn level_term_errors() {
    let mut terms: Vec<i32> = vec![];
    let mut lens: Vec<usize> = vec![];
    let mut level_terms = VecDeque::new();
    let mut level_lens = VecDeque::new();
    assert_eq!(
        level_stack_add_term_list(&mut terms, &mut level_terms, &mut lens, &mut level_lens),
        Err("Unexpected End of Term Len Stack While Constructing Level Term".to_string())
    );

    let mut lens = vec![0usize];
    assert_eq!(
        level_stack_add_term_list(&mut terms, &mut level_terms, &mut lens, &mut level_lens),
        Err("Unexpected End of Term Stack While Constructing Level Term".to_string())
    );
    assert_eq!(level_lens, VecDeque::from(vec![0]));

    let mut lens = vec![3usize];
    let mut level_lens = VecDeque::new();
    assert_eq!(
        level_stack_add_term_list(&mut terms, &mut level_terms, &mut lens, &mut level_lens),
        Err("Unexpected End of Term Len Stack While Constructing Level List Term".to_string())
    );
    assert!(level_lens.is_empty());

    let mut terms = vec![5];
    let mut lens = vec![0usize, 0, 2];
    let mut level_terms = VecDeque::new();
    let mut level_lens = VecDeque::new();
    assert_eq!(
        level_stack_add_term_list(&mut terms, &mut level_terms, &mut lens, &mut level_lens),
        Err("Unexpected End of Term Stack While Constructing Level List Term".to_string())
    );
    assert_eq!(level_terms, VecDeque::from(vec![5]));
    assert_eq!(level_lens, VecDeque::from(vec![0, 0]));
    assert!(lens.is_empty());
}

#[test]
fn a_moved_term_reads_back_whole() {
    // a nested list [1, [2, 3]] moved in front of a single value 9
    let mut terms = vec![1, 2, 3];
    let mut lens = vec![0usize, 0, 0, 2, 2];
    let mut level_terms = VecDeque::from(vec![9]);
    let mut level_lens = VecDeque::from(vec![0usize]);
    assert_eq!(level_stack_add_term_list(&mut terms, &mut level_terms, &mut lens, &mut level_lens), Ok(()));
    assert_eq!(build_list_term(&mut level_terms, &mut level_lens), Ok(vec![1, 2, 3]));
    assert_eq!(level_terms, VecDeque::from(vec![9]));
    assert_eq!(level_lens, VecDeque::from(vec![0]));
    // a single value
    let mut terms = vec![4];
    let mut lens = vec![0usize];
    let mut level_terms = VecDeque::new();
    let mut level_lens = VecDeque::new();
    assert_eq!(level_stack_add_term_list(&mut terms, &mut level_terms, &mut lens, &mut level_lens), Ok(()));
    assert_eq!(build_list_term(&mut level_terms, &mut level_lens), Ok(vec![4]));
    assert!(level_terms.is_empty() && level_lens.is_empty());
}

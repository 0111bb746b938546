use longhorn::lexer::{LexicalUnit, Lexer, Machine, SubMachine, Token};
use std::collections::VecDeque;

fn units(text: &str) -> Vec<(Token, String)> {
    let tokens: VecDeque<LexicalUnit> = Lexer::process_text(text);
    tokens.iter().map(|u| (u.get_token(), u.get_lexime())).collect()
}

fn unit(t: Token, s: &str) -> (Token, String) {
    (t, s.to_string())
}

#[test]
fn assignment_line_is_split_into_units() {
    assert_eq!(
        units("maxHistory = 10\n"),
        vec![
            unit(Token::MaxHist, "maxHistory"),
            unit(Token::WhiteSpace, " "),
            unit(Token::Asn, "="),
            unit(Token::WhiteSpace, " "),
            unit(Token::Num, "10"),
            unit(Token::EndL, "\n"),
        ]
    );
}

#[test]
fn every_keyword_is_recognised() {
    assert_eq!(units("file\n")[0], unit(Token::File, "file"));
    assert_eq!(units("libraryPath\n")[0], unit(Token::LibPath, "libraryPath"));
    assert_eq!(units("MAXHISTORY\n")[0], unit(Token::MaxHist, "MAXHISTORY"));
    assert_eq!(units("topSongsLen\n")[0], unit(Token::TopSngLen, "topSongsLen"));
    assert_eq!(units("TopAlbumsLen\n")[0], unit(Token::TopAlbLen, "TopAlbumsLen"));
    assert_eq!(units("topartistslen\n")[0], unit(Token::TopArtLen, "topartistslen"));
    assert_eq!(units("TOPDECAYRATE\n")[0], unit(Token::TopDecay, "TOPDECAYRATE"));
}

#[test]
fn file_keyword_needs_a_small_final_e() {
    assert_eq!(units("FILe\n"), vec![unit(Token::File, "FILe"), unit(Token::EndL, "\n")]);
    assert_eq!(units("FILE\n"), vec![unit(Token::String, "FILE"), unit(Token::EndL, "\n")]);
}

#[test]
fn broken_keyword_becomes_a_string() {
    assert_eq!(units("maxi\n"), vec![unit(Token::String, "maxi"), unit(Token::EndL, "\n")]);
    assert_eq!(units("f1\n"), vec![unit(Token::String, "f"), unit(Token::Num, "1"), unit(Token::EndL, "\n")]);
}

#[test]
fn comments_and_slashes() {
    assert_eq!(
        units("/* x */\n"),
        vec![
            unit(Token::OpenComm, "/*"),
            unit(Token::WhiteSpace, " "),
            unit(Token::String, "x"),
            unit(Token::WhiteSpace, " "),
            unit(Token::CloseComm, "*/"),
            unit(Token::EndL, "\n"),
        ]
    );
    assert_eq!(units("a/b"), vec![unit(Token::String, "a"), unit(Token::Slash, "/")]);
    assert_eq!(units("2*3\n"), vec![unit(Token::Num, "2"), unit(Token::Star, "*"), unit(Token::Num, "3"), unit(Token::EndL, "\n")]);
}

#[test]
fn single_symbol_tokens() {
    assert_eq!(
        units("[]{}()=+-^%\\.\r"),
        vec![
            unit(Token::OpenSquare, "["),
            unit(Token::CloseSquare, "]"),
            unit(Token::OpenCurl, "{"),
            unit(Token::CloseCurl, "}"),
            unit(Token::OpenParen, "("),
            unit(Token::CloseParen, ")"),
            unit(Token::Asn, "="),
            unit(Token::Plus, "+"),
            unit(Token::Dash, "-"),
            unit(Token::Carrot, "^"),
            unit(Token::Percent, "%"),
            unit(Token::Esc, "\\"),
            unit(Token::Dot, "."),
            unit(Token::EndL, "\r"),
        ]
    );
}

#[test]
fn white_space_ends_at_a_line_end() {
    assert_eq!(
        units(" \t\nx "),
        vec![unit(Token::WhiteSpace, " \t"), unit(Token::EndL, "\n"), unit(Token::String, "x")]
    );
}

#[test]
fn unfinished_text_is_not_emitted() {
    assert!(units("").is_empty());
    assert!(units("abc").is_empty());
    assert!(units("123").is_empty());
}

#[test]
fn leximes_spell_the_emitted_text() {
    let text = "file = ~/music/{1+2}\n/* note */ topDecayRate=0.5\n";
    let spelled: String = units(text).into_iter().map(|(_, l)| l).collect();
    assert_eq!(spelled, text);
    assert!(units(text).iter().all(|(_, l)| !l.is_empty()));
}

#[test]
fn non_ascii_text_is_a_string() {
    assert_eq!(units("été\n"), vec![unit(Token::String, "été"), unit(Token::EndL, "\n")]);
}

#[test]
fn lexical_unit_accessors() {
    let u = LexicalUnit::new(Token::Num, "42".to_string());
    assert_eq!(u.get_token(), Token::Num);
    assert_eq!(u.get_lexime(), "42");
}

#[test]
fn an_input_ending_its_line_is_spelled_whole() {
    for text in ["maxHistory = 10\n", "a/*b*/ c\r", "file = [x y]{1.5}\n", ""] {
        let units: VecDeque<LexicalUnit> = Lexer::process_text(text);
        let spelled: String = units.iter().map(|u| u.get_lexime()).collect();
        assert_eq!(spelled, text);
        assert!(units.iter().all(|u| !u.get_lexime().is_empty()));
    }
}

#[test]
fn a_keyword_in_any_case_is_recognised_symbol_by_symbol() {
    let mut m = Machine::new();
    let word: Vec<char> = "LiBrArYpAtH".chars().collect();
    for c in &word[..word.len() - 1] {
        assert_eq!(m.transition(*c), None);
    }
    assert_eq!(m.transition(word[word.len() - 1]), Some(Token::LibPath));
    assert_eq!(m.state, SubMachine::StartMachine);
}

//! The token-level pieces of the configuration parser that need no
//! arithmetic: syntax errors, the rule stack, and reading past white space,
//! comments and the fixed marks of an assignment.
use vstd::prelude::*;
use std::collections::VecDeque;
use crate::lexer::{LexicalUnit, Token, unit_views};
use crate::text::{push_char, push_text};

verus! {

/// A syntax error, with the line it was found on.
#[derive(Debug)]
pub struct Error {
    line_number: i32,
    message: String,
}

impl Error {
    pub closed spec fn line(&self) -> i32 {
        self.line_number
    }

    pub closed spec fn text(&self) -> Seq<char> {
        self.message@
    }

    pub fn new(line_number: i32, message: String) -> (e: Error)
        ensures
            e.line() == line_number,
            e.text() == message@,
    {
        Error { line_number, message }
    }

    pub fn get_line(&self) -> (r: i32)
        ensures
            r == self.line(),
    {
        self.line_number
    }

    pub fn get_message(&self) -> (r: String)
        ensures
            r@ == self.text(),
    {
        self.message.clone()
    }
}


/// The outcome of reading a comment: done, or an error on the line.
#[derive(Debug)]
pub enum Status {
    LineError(String),
    Done,
}

/// The error message of an outcome, if it is an error.
pub open spec fn status_error(s: Status) -> Option<Seq<char>> {
    match s {
        Status::LineError(m) => Some(m@),
        Status::Done => None,
    }
}

/// The rules of the configuration grammar that the parser's stack holds.
#[derive(Debug, Clone, Copy, PartialEq, Eq, Structural)]
pub enum Rule {
    // start rule
    Config,
    // individual assignment
    Line,
    // intermediate for path
    Char,
    EscapedChar,
    CloseSquareEscaped,
    // intermediate for a sub math block/number
    Term,
    CloseMath,
    // terminals
    CloseComm,
    CloseCurl,
    CloseSquare,
    CloseSquareNotComma,
    CloseParen,
}

/// Reading a comment (the rule stack ends with one `CloseComm` per comment
/// still open): how many tokens are read, the rule stack and line number
/// after, and the error message, if the comment does not end well.
pub open spec fn comment_scan(ts: Seq<(Token, Seq<char>)>, stack: Seq<Rule>, line: int) -> (
    int,
    Seq<Rule>,
    int,
    Option<Seq<char>>,
)
    decreases ts.len(),
{
    if ts.len() == 0 {
        (0, stack, line, Some("Unexpected End of File While Parsing Comment"@))
    } else {
        let t = ts[0].0;
        let rest = ts.drop_first();
        if t == Token::OpenComm {
            let r = comment_scan(rest, stack.push(Rule::CloseComm), line);
            (r.0 + 1, r.1, r.2, r.3)
        } else if t == Token::EndL {
            let r = comment_scan(rest, stack, line + 1);
            (r.0 + 1, r.1, r.2, r.3)
        } else if t == Token::CloseComm {
            if stack.len() == 0 {
                (1, stack, line, Some("Unexpected End of Rule Stack While Parsing Comment"@))
            } else if stack.last() != Rule::CloseComm {
                (1, stack.drop_last(), line, Some("Missing Close Comment Rule on Stack"@))
            } else if stack.drop_last().len() == 0 {
                (1, stack.drop_last(), line, Some("Unexpected End of Rule Stack While Parsing Comment"@))
            } else if stack.drop_last().last() != Rule::CloseComm {
                (1, stack.drop_last(), line, None)
            } else {
                let r = comment_scan(rest, stack.drop_last(), line);
                (r.0 + 1, r.1, r.2, r.3)
            }
        } else {
            let r = comment_scan(rest, stack, line);
            (r.0 + 1, r.1, r.2, r.3)
        }
    }
}

/// Reading past white space and comments: how many tokens are read, the
/// rule stack and line number after, and whether a token follows (`false`
/// when the tokens run out).
pub open spec fn garbage_scan(ts: Seq<(Token, Seq<char>)>, stack: Seq<Rule>, line: int) -> (
    int,
    Seq<Rule>,
    int,
    bool,
)
    decreases ts.len(),
{
    if ts.len() == 0 {
        (0, stack, line, false)
    } else if ts[0].0 == Token::WhiteSpace {
        let r = garbage_scan(ts.drop_first(), stack, line);
        (r.0 + 1, r.1, r.2, r.3)
    } else if ts[0].0 == Token::OpenComm {
        let c = comment_scan(ts.drop_first(), stack.push(Rule::CloseComm), line);
        let n = 1 + c.0;
        proof {
            lemma_comment_scan_bounds(ts.drop_first(), stack.push(Rule::CloseComm), line);
        }
        let r = garbage_scan(ts.skip(n), c.1, c.2);
        (n + r.0, r.1, r.2, r.3)
    } else {
        (0, stack, line, true)
    }
}

/// A comment scan reads at least one token when there is one, never more
/// than there are, and counts at most one line per token read.
pub proof fn lemma_comment_scan_bounds(ts: Seq<(Token, Seq<char>)>, stack: Seq<Rule>, line: int)
    ensures
        ts.len() == 0 ==> comment_scan(ts, stack, line).0 == 0,
        ts.len() > 0 ==> 1 <= comment_scan(ts, stack, line).0,
        comment_scan(ts, stack, line).0 <= ts.len(),
        line <= comment_scan(ts, stack, line).2 <= line + comment_scan(ts, stack, line).0,
    decreases ts.len(),
{
    if ts.len() > 0 {
        let t = ts[0].0;
        let rest = ts.drop_first();
        if t == Token::OpenComm {
            lemma_comment_scan_bounds(rest, stack.push(Rule::CloseComm), line);
        } else if t == Token::EndL {
            lemma_comment_scan_bounds(rest, stack, line + 1);
        } else if t == Token::CloseComm {
            lemma_comment_scan_bounds(rest, stack.drop_last(), line);
        } else {
            lemma_comment_scan_bounds(rest, stack, line);
        }
    }
}

/// Reading past garbage stops at the first token that is neither white
/// space nor the opening of a comment, and succeeds exactly when such a
/// token comes.
pub proof fn lemma_garbage_scan_bounds(ts: Seq<(Token, Seq<char>)>, stack: Seq<Rule>, line: int)
    ensures
        0 <= garbage_scan(ts, stack, line).0 <= ts.len(),
        line <= garbage_scan(ts, stack, line).2 <= line + garbage_scan(ts, stack, line).0,
        garbage_scan(ts, stack, line).3 <==> garbage_scan(ts, stack, line).0 < ts.len(),
        garbage_scan(ts, stack, line).3 ==> ts[garbage_scan(ts, stack, line).0].0 != Token::WhiteSpace
            && ts[garbage_scan(ts, stack, line).0].0 != Token::OpenComm,
    decreases ts.len(),
{
    if ts.len() > 0 {
        if ts[0].0 == Token::WhiteSpace {
            lemma_garbage_scan_bounds(ts.drop_first(), stack, line);
            let r = garbage_scan(ts.drop_first(), stack, line);
            if r.3 {
                assert(ts[r.0 + 1] == ts.drop_first()[r.0]);
            }
        } else if ts[0].0 == Token::OpenComm {
            lemma_comment_scan_bounds(ts.drop_first(), stack.push(Rule::CloseComm), line);
            let c = comment_scan(ts.drop_first(), stack.push(Rule::CloseComm), line);
            let n = 1 + c.0;
            lemma_garbage_scan_bounds(ts.skip(n), c.1, c.2);
            let r = garbage_scan(ts.skip(n), c.1, c.2);
            if r.3 {
                assert(ts[n + r.0] == ts.skip(n)[r.0]);
            }
        }
    }
}

/// Reading a mark counts at most one line for each token read before the
/// mark, and reads the mark itself when it comes.
pub proof fn lemma_mark_scan_bounds(
    ts: Seq<(Token, Seq<char>)>,
    stack: Seq<Rule>,
    line: int,
    expected: Token,
    missing: Seq<char>,
)
    ensures
        ({
            let m = mark_scan(ts, stack, line, expected, missing);
            &&& 0 <= m.0 <= ts.len()
            &&& line <= m.2 <= line + m.0
            &&& (garbage_scan(ts, stack, line).3 ==> m.2 <= line + m.0 - 1)
        }),
{
    lemma_garbage_scan_bounds(ts, stack, line);
}

/// Reading an assignment counts at most one line for each token read.
pub proof fn lemma_asn_scan_bounds(ts: Seq<(Token, Seq<char>)>, stack: Seq<Rule>, line: int)
    ensures
        ({
            let a = asn_scan(ts, stack, line);
            &&& 0 <= a.0 <= ts.len()
            &&& line <= a.2 <= line + a.0
        }),
{
    let m = mark_scan(ts, stack, line, Token::Asn, "Missing Assignment Token"@);
    lemma_mark_scan_bounds(ts, stack, line, Token::Asn, "Missing Assignment Token"@);
    if m.3 is None {
        lemma_garbage_scan_bounds(ts.skip(m.0), m.1, m.2);
    }
}

/// Starting a line counts at most one line for each token read.
pub proof fn lemma_line_start_bounds(rule: Option<Rule>, stack: Seq<Rule>, ts: Seq<(Token, Seq<char>)>, line: int)
    ensures
        ({
            let s = line_start_scan(rule, stack, ts, line);
            &&& 0 <= s.1 <= ts.len()
            &&& line <= s.2 <= line + s.1
        }),
{
    if ts.len() > 0 {
        lemma_comment_scan_bounds(ts.drop_first(), stack.push(Rule::Line).push(Rule::CloseComm), line);
    }
}

/// The text of a result whose value and error are both strings.
pub open spec fn text_result(r: Result<String, String>) -> Result<Seq<char>, Seq<char>> {
    match r {
        Ok(v) => Ok(v@),
        Err(e) => Err(e@),
    }
}

/// Reading past garbage, then one token that must be `expected`, reporting
/// `missing` when it is another: tokens read, rule stack and line after,
/// and the error, if any.
pub open spec fn mark_scan(
    ts: Seq<(Token, Seq<char>)>,
    stack: Seq<Rule>,
    line: int,
    expected: Token,
    missing: Seq<char>,
) -> (int, Seq<Rule>, int, Option<Seq<char>>) {
    let g = garbage_scan(ts, stack, line);
    if !g.3 {
        (g.0, g.1, g.2, Some("Unexpected End of File While Parsing Garbage"@))
    } else if ts[g.0].0 != expected {
        (g.0 + 1, g.1, g.2, Some(missing))
    } else {
        (g.0 + 1, g.1, g.2, None)
    }
}

/// Reading an assignment mark with the garbage around it.
pub open spec fn asn_scan(ts: Seq<(Token, Seq<char>)>, stack: Seq<Rule>, line: int) -> (
    int,
    Seq<Rule>,
    int,
    Option<Seq<char>>,
) {
    let m = mark_scan(ts, stack, line, Token::Asn, "Missing Assignment Token"@);
    if m.3 is Some {
        m
    } else {
        let g = garbage_scan(ts.skip(m.0), m.1, m.2);
        if !g.3 {
            (m.0 + g.0, g.1, g.2, Some("Unexpected End of File While Parsing Garbage"@))
        } else {
            (m.0 + g.0, g.1, g.2, None)
        }
    }
}

/// The digits after a decimal point: the lexime of a number token that
/// comes next, none otherwise; an error when no token comes.
pub open spec fn decimal_scan(ts: Seq<(Token, Seq<char>)>) -> (int, Result<Seq<char>, Seq<char>>) {
    if ts.len() == 0 {
        (0, Err("Unexpected End of File While Parsing Decimal"@))
    } else if ts[0].0 == Token::Num {
        (1, Ok(ts[0].1))
    } else {
        (0, Ok(Seq::empty()))
    }
}

/// The fractional part of a number whose digits were read: a point and
/// its digits when a point comes next, nothing otherwise.
pub open spec fn num_scan(ts: Seq<(Token, Seq<char>)>) -> (int, Result<Seq<char>, Seq<char>>) {
    if ts.len() == 0 {
        (0, Err("Unexpected End of File While Parsing Num"@))
    } else if ts[0].0 == Token::Dot {
        let d = decimal_scan(ts.drop_first());
        (1 + d.0, match d.1 {
            Ok(digits) => Ok(seq!['.'] + digits),
            Err(e) => Err(e),
        })
    } else {
        (0, Ok(Seq::empty()))
    }
}

/// Building one term from the front of the level stacks: the term, or an
/// error; how many terms and how many lengths were taken.
pub open spec fn list_term_scan<T>(terms: Seq<T>, lens: Seq<usize>) -> (Result<Seq<T>, Seq<char>>, int, int) {
    if lens.len() == 0 {
        (Err("Unexpected End of Level Term Len Stack While Constructing Term"@), 0, 0)
    } else if lens[0] == 0 {
        if terms.len() == 0 {
            (Err("Unexpected End of Level Term Stack While Constructing Term"@), 0, 1)
        } else {
            (Ok(seq![terms[0]]), 1, 1)
        }
    } else {
        let n = lens[0] as int;
        let m = lens.len() - 1;
        if terms.len() < n && terms.len() <= m {
            (Err("Unexpected End of Level Term Stack While Constructing List Term"@), terms.len() as int, 1 + terms.len() as int)
        } else if m < n {
            (Err("Unexpected End of Level Term Len Stack While Constructing List Term"@), m + 1, lens.len() as int)
        } else {
            (Ok(terms.take(n)), n, 1 + n)
        }
    }
}

/// Takes one term from the front of the level stacks: a single value when
/// the next length is zero, else that many values (each with its length
/// entry) as a list.
pub fn build_list_term<T: Copy>(
    level_term_stack: &mut VecDeque<T>,
    level_term_len_stack: &mut VecDeque<usize>,
) -> (r: Result<Vec<T>, String>)
    ensures
        ({
            let s = list_term_scan(old(level_term_stack)@, old(level_term_len_stack)@);
            &&& final(level_term_stack)@ == old(level_term_stack)@.skip(s.1)
            &&& final(level_term_len_stack)@ == old(level_term_len_stack)@.skip(s.2)
            &&& match r {
                Ok(term) => s.0 == Ok::<Seq<T>, Seq<char>>(term@),
                Err(e) => s.0 == Err::<Seq<T>, Seq<char>>(e@),
            }
        }),
{
    let ghost terms = level_term_stack@;
    let ghost lens = level_term_len_stack@;
    let mut term: Vec<T> = Vec::new();
    if let Some(len) = level_term_len_stack.pop_front() {
        if len == 0 {
            if let Some(element) = level_term_stack.pop_front() {
                term.push(element);
                assert(term@ =~= seq![terms[0]]);
            } else {
                assert(terms.skip(0) =~= terms);
                return Err(String::from_str("Unexpected End of Level Term Stack While Constructing Term"));
            }
        } else {
            let mut i: usize = 0;
            while i < len
                invariant
                    terms == old(level_term_stack)@,
                    lens == old(level_term_len_stack)@,
                    lens.len() > 0,
                    len == lens[0],
                    0 <= i <= len,
                    i <= terms.len(),
                    i <= lens.len() - 1,
                    level_term_stack@ == terms.skip(i as int),
                    level_term_len_stack@ == lens.skip(1 + i),
                    term@ == terms.take(i as int),
                decreases len - i,
            {
                if let Some(element) = level_term_stack.pop_front() {
                    term.push(element);
                    assert(term@ =~= terms.take(i + 1));
                    assert(level_term_stack@ =~= terms.skip(i + 1));
                } else {
                    return Err(String::from_str("Unexpected End of Level Term Stack While Constructing List Term"));
                }
                if let None = level_term_len_stack.pop_front() {
                    return Err(String::from_str("Unexpected End of Level Term Len Stack While Constructing List Term"));
                }
                assert(level_term_len_stack@ =~= lens.skip(2 + i));
                i = i + 1;
            }
        }
    } else {
        assert(terms.skip(0) =~= terms);
        assert(lens.skip(0) =~= lens);
        return Err(String::from_str("Unexpected End of Level Term Len Stack While Constructing Term"));
    }
    Ok(term)
}

/// Reading `need` more items of a list term from the backs of the length
/// stack `lens` and the value stack `terms`: a length entry of zero is a
/// single value, taken from `terms`; any other entry `n` opens a sub-list,
/// whose `n` items are read in its place. The result: length entries read,
/// values taken, zero entries read, and the error, if a stack runs out.
pub open spec fn list_items_scan<T>(lens: Seq<usize>, terms: Seq<T>, need: int) -> (int, int, int, Option<Seq<char>>)
    decreases lens.len(),
{
    if need <= 0 {
        (0, 0, 0, None)
    } else if lens.len() == 0 {
        (0, 0, 0, Some("Unexpected End of Term Len Stack While Constructing Level List Term"@))
    } else if lens.last() == 0 {
        if terms.len() == 0 {
            (1, 0, 1, Some("Unexpected End of Term Stack While Constructing Level List Term"@))
        } else {
            let r = list_items_scan(lens.drop_last(), terms.drop_last(), need - 1);
            (r.0 + 1, r.1 + 1, r.2 + 1, r.3)
        }
    } else {
        let r = list_items_scan(lens.drop_last(), terms, need - 1 + lens.last());
        (r.0 + 1, r.1, r.2, r.3)
    }
}

/// `n` zero length entries.
pub open spec fn zero_lens(n: int) -> Seq<usize> {
    Seq::new(n as nat, |i: int| 0usize)
}

/// Moving the last term of the stacks to the front of the level stacks,
/// with its nested lists flattened into one: length entries read, values
/// taken, the length entries put at the front of the level length stack,
/// and the error, if a stack runs out.
pub open spec fn level_term_scan<T>(lens: Seq<usize>, terms: Seq<T>) -> (int, int, Seq<usize>, Option<Seq<char>>) {
    if lens.len() == 0 {
        (0, 0, Seq::empty(), Some("Unexpected End of Term Len Stack While Constructing Level Term"@))
    } else if lens.last() == 0 {
        if terms.len() == 0 {
            (1, 0, seq![0usize], Some("Unexpected End of Term Stack While Constructing Level Term"@))
        } else {
            (1, 1, seq![0usize], None)
        }
    } else {
        let r = list_items_scan(lens.drop_last(), terms, lens.last() as int);
        (
            r.0 + 1,
            r.1,
            if r.3 is None {
                seq![r.1 as usize] + zero_lens(r.2)
            } else {
                zero_lens(r.2)
            },
            r.3,
        )
    }
}

/// Moving a term reads no more entries or values than there are.
pub proof fn lemma_level_term_scan_bounds<T>(lens: Seq<usize>, terms: Seq<T>)
    ensures
        0 <= level_term_scan(lens, terms).0 <= lens.len(),
        0 <= level_term_scan(lens, terms).1 <= terms.len(),
        level_term_scan(lens, terms).3 is None ==> level_term_scan(lens, terms).0 >= 1,
{
    if lens.len() > 0 && lens.last() != 0 {
        lemma_list_items_scan_bounds(lens.drop_last(), terms, lens.last() as int);
    }
}

/// A list whose items are read without error holds at least one value.
proof fn lemma_list_items_hold_a_value<T>(lens: Seq<usize>, terms: Seq<T>, need: int)
    requires
        need > 0,
        list_items_scan(lens, terms, need).3 is None,
    ensures
        list_items_scan(lens, terms, need).1 >= 1,
    decreases lens.len(),
{
    if lens.len() > 0 && lens.last() != 0 {
        lemma_list_items_hold_a_value(lens.drop_last(), terms, need - 1 + lens.last());
    } else if lens.len() > 0 && terms.len() > 0 {
        lemma_list_items_scan_bounds(lens.drop_last(), terms.drop_last(), need - 1);
    }
}

/// A term moved onto the level stacks reads back whole: building a term at
/// the front of the level stacks gives exactly the values that were moved,
/// and takes exactly the values and length entries that were put there.
pub proof fn law_moved_term_reads_back<T>(
    lens: Seq<usize>,
    terms: Seq<T>,
    level_terms: Seq<T>,
    level_lens: Seq<usize>,
)
    requires
        level_term_scan(lens, terms).3 is None,
        terms.len() <= usize::MAX,
    ensures
        ({
            let s = level_term_scan(lens, terms);
            let moved = terms.skip(terms.len() - s.1);
            &&& moved.len() == s.1
            &&& list_term_scan(moved + level_terms, s.2 + level_lens) == (
                Ok::<Seq<T>, Seq<char>>(moved),
                s.1,
                s.2.len() as int,
            )
        }),
{
    let s = level_term_scan(lens, terms);
    lemma_level_term_scan_bounds(lens, terms);
    let moved = terms.skip(terms.len() - s.1);
    let t2 = moved + level_terms;
    let l2 = s.2 + level_lens;
    if lens.last() == 0 {
        assert(t2[0] == moved[0]);
        assert(seq![t2[0]] =~= moved);
    } else {
        let r = list_items_scan(lens.drop_last(), terms, lens.last() as int);
        lemma_list_items_scan_bounds(lens.drop_last(), terms, lens.last() as int);
        lemma_list_items_hold_a_value(lens.drop_last(), terms, lens.last() as int);
        assert(l2[0] == r.1 as usize);
        assert(t2.take(r.1) =~= moved);
    }
}

/// The sum of the entries.
pub open spec fn entry_sum(s: Seq<usize>) -> int
    decreases s.len(),
{
    if s.len() == 0 {
        0
    } else {
        entry_sum(s.drop_last()) + s.last()
    }
}

/// A list scan takes no more values than it reads zero entries, and no more
/// entries or values than there are.
proof fn lemma_list_items_scan_bounds<T>(lens: Seq<usize>, terms: Seq<T>, need: int)
    ensures
        ({
            let r = list_items_scan(lens, terms, need);
            &&& 0 <= r.1 <= r.2 <= r.0 <= lens.len()
            &&& r.1 <= terms.len()
            &&& r.3 is None ==> r.1 == r.2
        }),
    decreases lens.len(),
{
    if need > 0 && lens.len() > 0 {
        if lens.last() == 0 {
            if terms.len() > 0 {
                lemma_list_items_scan_bounds(lens.drop_last(), terms.drop_last(), need - 1);
            }
        } else {
            lemma_list_items_scan_bounds(lens.drop_last(), terms, need - 1 + lens.last());
        }
    }
}

/// Moves the last term of `term_stack` / `term_len_stack` to the front of
/// the level stacks: a single value as one value with a zero length entry;
/// a list, with every nested list flattened into it, as its values, one
/// zero entry each, and in front of them one entry for their number.
pub fn level_stack_add_term_list<T: Copy>(
    term_stack: &mut Vec<T>,
    level_term_stack: &mut VecDeque<T>,
    term_len_stack: &mut Vec<usize>,
    level_term_len_stack: &mut VecDeque<usize>,
) -> (r: Result<(), String>)
    ensures
        ({
            let s = level_term_scan(old(term_len_stack)@, old(term_stack)@);
            let nl = old(term_len_stack)@.len();
            let nt = old(term_stack)@.len();
            &&& final(term_len_stack)@ == old(term_len_stack)@.take(nl - s.0)
            &&& final(term_stack)@ == old(term_stack)@.take(nt - s.1)
            &&& final(level_term_stack)@ == old(term_stack)@.skip(nt - s.1) + old(level_term_stack)@
            &&& final(level_term_len_stack)@ == s.2 + old(level_term_len_stack)@
            &&& match r {
                Ok(()) => s.3 is None,
                Err(e) => s.3 == Some(e@),
            }
        }),
{
    let ghost lens0 = term_len_stack@;
    let ghost terms0 = term_stack@;
    let ghost level_terms0 = level_term_stack@;
    let ghost level_lens0 = level_term_len_stack@;
    let first = match term_len_stack.pop() {
        Some(first) => first,
        None => {
            assert(lens0.take(0) =~= lens0);
            assert(terms0.take(terms0.len() as int) =~= terms0);
            assert(terms0.skip(terms0.len() as int) + level_terms0 =~= level_terms0);
            assert(Seq::<usize>::empty() + level_lens0 =~= level_lens0);
            return Err(String::from_str("Unexpected End of Term Len Stack While Constructing Level Term"));
        },
    };
    // first term is a single value
    if first == 0 {
        level_term_len_stack.push_front(0);
        assert(level_term_len_stack@ =~= seq![0usize] + level_lens0);
        match term_stack.pop() {
            Some(term) => {
                level_term_stack.push_front(term);
                assert(level_term_stack@ =~= terms0.skip(terms0.len() - 1) + level_terms0);
                return Ok(());
            },
            None => {
                assert(terms0.take(0) =~= terms0);
                assert(terms0.skip(0) + level_terms0 =~= level_terms0);
                return Err(String::from_str("Unexpected End of Term Stack While Constructing Level Term"));
            },
        }
    }
    // first term is a list: the items still to read in each open list,
    // innermost last
    let ghost lens1 = term_len_stack@;
    let total_terms = term_stack.len();
    let mut remaining: Vec<usize> = Vec::new();
    remaining.push(first);
    let mut leaves: usize = 0;
    proof {
        assert(remaining@.drop_last() =~= Seq::<usize>::empty());
        reveal_with_fuel(entry_sum, 2);
        assert(entry_sum(remaining@) == first);
        assert(lens1 =~= lens0.drop_last());
        assert(lens1.take(lens1.len() as int) =~= lens1);
        assert(terms0.take(terms0.len() as int) =~= terms0);
        assert(terms0.skip(terms0.len() as int) + level_terms0 =~= level_terms0);
        assert(zero_lens(0) + level_lens0 =~= level_lens0);
    }
    while remaining.len() > 0
        invariant
            lens0 == old(term_len_stack)@,
            terms0 == old(term_stack)@,
            level_terms0 == old(level_term_stack)@,
            level_lens0 == old(level_term_len_stack)@,
            lens1 == lens0.drop_last(),
            lens0.len() > 0,
            lens0.last() == first,
            first > 0,
            terms0.len() == total_terms,
            term_len_stack@ == lens1.take(term_len_stack@.len() as int),
            term_stack@ == terms0.take(term_stack@.len() as int),
            term_len_stack@.len() <= lens1.len(),
            term_stack@.len() <= terms0.len(),
            leaves == terms0.len() - term_stack@.len(),
            level_term_stack@ == terms0.skip(term_stack@.len() as int) + level_terms0,
            level_term_len_stack@ == zero_lens(leaves as int) + level_lens0,
            forall|i: int| 0 <= i < remaining@.len() ==> remaining@[i] > 0,
            ({
                let whole = list_items_scan(lens1, terms0, first as int);
                let rest = list_items_scan(term_len_stack@, term_stack@, entry_sum(remaining@));
                &&& whole.0 == lens1.len() - term_len_stack@.len() + rest.0
                &&& whole.1 == leaves + rest.1
                &&& whole.2 == leaves + rest.2
                &&& whole.3 == rest.3
            }),
        decreases term_len_stack@.len(),
    {
        let ghost lens_now = term_len_stack@;
        let ghost terms_now = term_stack@;
        let ghost rem = remaining@;
        proof {
            lemma_entry_sum_positive(rem);
        }
        let e = match term_len_stack.pop() {
            Some(e) => e,
            None => {
                proof {
                    lemma_list_items_scan_bounds(lens1, terms0, first as int);
                    assert(lens_now.len() == 0);
                    assert(lens0.take(0) =~= term_len_stack@);
                }
                return Err(String::from_str("Unexpected End of Term Len Stack While Constructing Level List Term"));
            },
        };
        // one item of the innermost open list is read
        let top = remaining.len() - 1;
        let left = remaining[top] - 1;
        remaining.set(top, left);
        if left == 0 {
            remaining.pop();
        }
        proof {
            lemma_entry_sum_update_last(rem, left);
            if left == 0 {
                lemma_entry_sum_pop(rem.update(rem.len() - 1, left));
            }
        }
        if e == 0 {
            level_term_len_stack.push_front(0);
            match term_stack.pop() {
                Some(term) => {
                    level_term_stack.push_front(term);
                    leaves = leaves + 1;
                    proof {
                        assert(term_stack@ =~= terms0.take(term_stack@.len() as int));
                        assert(term_len_stack@ =~= lens1.take(term_len_stack@.len() as int));
                        assert(level_term_stack@ =~= terms0.skip(term_stack@.len() as int) + level_terms0);
                        assert(level_term_len_stack@ =~= zero_lens(leaves as int) + level_lens0);
                        assert(lens_now.drop_last() =~= term_len_stack@);
                        assert(terms_now.drop_last() =~= term_stack@);
                    }
                },
                None => {
                    proof {
                        lemma_list_items_scan_bounds(lens1, terms0, first as int);
                        assert(level_term_len_stack@ =~= zero_lens(leaves + 1) + level_lens0);
                    }
                    return Err(String::from_str("Unexpected End of Term Stack While Constructing Level List Term"));
                },
            }
        } else {
            let ghost before = remaining@;
            remaining.push(e);
            proof {
                lemma_entry_sum_push(before, e);
                assert(lens_now.drop_last() =~= term_len_stack@);
                assert(term_len_stack@ =~= lens1.take(term_len_stack@.len() as int));
            }
        }
    }
    level_term_len_stack.push_front(leaves);
    proof {
        lemma_list_items_scan_bounds(lens1, terms0, first as int);
        assert(remaining@ =~= Seq::<usize>::empty());
        assert(level_term_len_stack@ =~= seq![leaves] + zero_lens(leaves as int) + level_lens0);
    }
    Ok(())
}

proof fn lemma_entry_sum_positive(s: Seq<usize>)
    requires
        forall|i: int| 0 <= i < s.len() ==> s[i] > 0,
    ensures
        s.len() > 0 <==> entry_sum(s) > 0,
        entry_sum(s) >= 0,
    decreases s.len(),
{
    if s.len() > 0 {
        lemma_entry_sum_positive(s.drop_last());
    }
}

proof fn lemma_entry_sum_update_last(s: Seq<usize>, v: usize)
    requires
        s.len() > 0,
    ensures
        entry_sum(s.update(s.len() - 1, v)) == entry_sum(s) - s.last() + v,
{
    assert(s.update(s.len() - 1, v).drop_last() =~= s.drop_last());
}

proof fn lemma_entry_sum_pop(s: Seq<usize>)
    requires
        s.len() > 0,
    ensures
        entry_sum(s.drop_last()) == entry_sum(s) - s.last(),
{
}

proof fn lemma_entry_sum_push(s: Seq<usize>, v: usize)
    ensures
        entry_sum(s.push(v)) == entry_sum(s) + v,
{
    assert(s.push(v).drop_last() =~= s);
}

/// What the start of a line came to, in the ghost world.
pub enum LineOutcome {
    /// Go on with the next rule.
    Continue,
    /// An empty line was read.
    Empty,
    /// No tokens are left: the configuration is read.
    Finished,
    /// A setting's keyword: its value comes next.
    Setting(Token),
    /// A syntax error.
    Failed(Seq<char>),
}

/// The keywords that start a setting.
pub open spec fn is_setting(t: Token) -> bool {
    t == Token::File || t == Token::LibPath || t == Token::MaxHist || t == Token::TopSngLen
        || t == Token::TopAlbLen || t == Token::TopArtLen || t == Token::TopDecay
}

/// Carrying out `rule`, popped from the rule stack, at the start of a line:
/// the rule stack, tokens read and line after, and the outcome.
pub open spec fn line_start_scan(rule: Option<Rule>, stack: Seq<Rule>, ts: Seq<(Token, Seq<char>)>, line: int) -> (
    Seq<Rule>,
    int,
    int,
    LineOutcome,
) {
    if rule == Some(Rule::Config) {
        if ts.len() > 0 {
            (stack.push(Rule::Config).push(Rule::Line), 0, line, LineOutcome::Continue)
        } else {
            (stack, 0, line, LineOutcome::Finished)
        }
    } else if rule == Some(Rule::Line) {
        if ts.len() == 0 {
            (stack, 0, line, LineOutcome::Failed("Unexpected End of File While Parsing Line"@))
        } else {
            let t = ts[0].0;
            if t == Token::WhiteSpace {
                (stack.push(Rule::Line), 1, line, LineOutcome::Continue)
            } else if t == Token::OpenComm {
                let c = comment_scan(ts.drop_first(), stack.push(Rule::Line).push(Rule::CloseComm), line);
                (c.1, 1 + c.0, c.2, LineOutcome::Continue)
            } else if is_setting(t) {
                (stack, 1, line, LineOutcome::Setting(t))
            } else if t == Token::EndL {
                (stack, 1, line + 1, LineOutcome::Empty)
            } else {
                (stack, 1, line, LineOutcome::Failed("Unexpected Token While Parsing Start of Line"@))
            }
        }
    } else {
        (stack, 0, line, LineOutcome::Failed("Unexpected Rule While Parsing Line"@))
    }
}

/// What the start of a line came to.
#[derive(Debug)]
pub enum LineStart {
    /// Go on with the next rule.
    Continue,
    /// An empty line was read.
    Empty,
    /// No tokens are left: the configuration is read.
    Finished,
    /// A setting's keyword: its value comes next.
    Setting(Token),
    /// A syntax error.
    Failed(String),
}

pub open spec fn line_start_outcome(s: LineStart) -> LineOutcome {
    match s {
        LineStart::Continue => LineOutcome::Continue,
        LineStart::Empty => LineOutcome::Empty,
        LineStart::Finished => LineOutcome::Finished,
        LineStart::Setting(t) => LineOutcome::Setting(t),
        LineStart::Failed(m) => LineOutcome::Failed(m@),
    }
}

/// The rule stack after an error: the rules of the failed line are dropped,
/// down to the last `Config`, which stays (all of them, if none is left).
pub open spec fn unwind_to_config(stack: Seq<Rule>) -> Seq<Rule>
    decreases stack.len(),
{
    if stack.len() == 0 {
        stack
    } else if stack.last() == Rule::Config {
        stack
    } else {
        unwind_to_config(stack.drop_last())
    }
}

/// After an error the rule stack is cut back, never added to: what is left
/// is the stack up to its last `Config`, which stays on top.
pub proof fn law_recovery_cuts_back_to_config(stack: Seq<Rule>)
    ensures
        unwind_to_config(stack).len() <= stack.len(),
        unwind_to_config(stack) == stack.take(unwind_to_config(stack).len() as int),
        stack.contains(Rule::Config) ==> unwind_to_config(stack).len() > 0 && unwind_to_config(stack).last()
            == Rule::Config,
        !stack.contains(Rule::Config) ==> unwind_to_config(stack).len() == 0,
    decreases stack.len(),
{
    if stack.len() == 0 {
        assert(stack.take(0) =~= stack);
    } else if stack.last() == Rule::Config {
        assert(stack.take(stack.len() as int) =~= stack);
        assert(stack.contains(Rule::Config)) by {
            assert(stack[stack.len() - 1] == Rule::Config);
        }
    } else {
        let front = stack.drop_last();
        law_recovery_cuts_back_to_config(front);
        let u = unwind_to_config(front);
        assert(stack.take(u.len() as int) =~= front.take(u.len() as int));
        if stack.contains(Rule::Config) {
            let i = choose|i: int| 0 <= i < stack.len() && stack[i] == Rule::Config;
            assert(front[i] == Rule::Config);
        }
        if front.contains(Rule::Config) {
            let i = choose|i: int| 0 <= i < front.len() && front[i] == Rule::Config;
            assert(stack[i] == Rule::Config);
        }
    }
}

/// Reading past the rest of a line with an error, up to and including its
/// end, reading comments whole (a comment may run over several lines):
/// tokens read, rule stack and line after.
pub open spec fn error_line_scan(ts: Seq<(Token, Seq<char>)>, stack: Seq<Rule>, line: int) -> (int, Seq<Rule>, int)
    decreases ts.len(),
{
    if ts.len() == 0 {
        (0, stack, line)
    } else if ts[0].0 == Token::OpenComm {
        let c = comment_scan(ts.drop_first(), stack.push(Rule::CloseComm), line);
        let n = 1 + c.0;
        proof {
            lemma_comment_scan_bounds(ts.drop_first(), stack.push(Rule::CloseComm), line);
        }
        let r = error_line_scan(ts.skip(n), c.1, c.2);
        (n + r.0, r.1, r.2)
    } else if ts[0].0 == Token::EndL {
        (1, stack, line)
    } else {
        let r = error_line_scan(ts.drop_first(), stack, line);
        (1 + r.0, r.1, r.2)
    }
}

/// The state of parsing a token stream: the rule stack, the tokens still to
/// read, and the number of the line being read.
pub struct ParseCursor {
    pub stack: Vec<Rule>,
    pub tokens: VecDeque<LexicalUnit>,
    pub line_number: i32,
}

/// The token views of the units still to read.
pub open spec fn token_views(tokens: VecDeque<LexicalUnit>) -> Seq<(Token, Seq<char>)> {
    unit_views(tokens@)
}

impl ParseCursor {
    /// Line numbers cannot run past the `i32` range however many tokens
    /// remain.
    pub open spec fn lines_fit(&self) -> bool {
        self.line_number + self.tokens@.len() <= i32::MAX && self.line_number >= 0
    }

    /// Reads a comment whose opening mark has been read (and a `CloseComm`
    /// pushed for it), up to and including its closing mark.
    pub fn parse_comment(&mut self) -> (r: Status)
        requires
            old(self).lines_fit(),
        ensures
            final(self).lines_fit(),
            ({
                let c = comment_scan(token_views(old(self).tokens), old(self).stack@, old(self).line_number as int);
                &&& token_views(final(self).tokens) == token_views(old(self).tokens).skip(c.0)
                &&& final(self).stack@ == c.1
                &&& final(self).line_number == c.2
                &&& status_error(r) == c.3
            }),
    {
        let ghost ts0 = token_views(self.tokens);
        let ghost st0 = self.stack@;
        let ghost line0 = self.line_number as int;
        proof {
            lemma_comment_scan_bounds(ts0, st0, line0);
            assert(ts0.skip(0) =~= ts0);
        }
        let ghost mut read: int = 0;
        loop
            invariant
                ts0 == token_views(old(self).tokens),
                st0 == old(self).stack@,
                line0 == old(self).line_number as int,
                0 <= read <= ts0.len(),
                token_views(self.tokens) == ts0.skip(read),
                self.line_number + self.tokens@.len() <= i32::MAX,
                self.line_number >= 0,
                ({
                    let c = comment_scan(ts0, st0, line0);
                    let d = comment_scan(ts0.skip(read), self.stack@, self.line_number as int);
                    &&& c.0 == read + d.0
                    &&& c.1 == d.1
                    &&& c.2 == d.2
                    &&& c.3 == d.3
                }),
            decreases self.tokens@.len(),
        {
            let ghost ts = token_views(self.tokens);
            proof {
                lemma_comment_scan_bounds(ts, self.stack@, self.line_number as int);
            }
            if self.tokens.len() > 0 {
                let lexical_unit = match self.tokens.pop_front() {
                    Some(u) => u,
                    None => { return Status::LineError(String::from_str("Unexpected End of File While Parsing Comment")); },
                };
                let token = lexical_unit.get_token();
                proof {
                    assert(ts[0] == lexical_unit@);
                    assert(token_views(self.tokens) =~= ts.drop_first());
                    assert(ts0.skip(read + 1) =~= ts.drop_first());
                    read = read + 1;
                }
                if token == Token::OpenComm {
                    self.stack.push(Rule::CloseComm);
                } else if token == Token::EndL {
                    self.line_number = self.line_number + 1;
                } else if token == Token::CloseComm {
                    match self.stack.pop() {
                        Some(rule) => {
                            if rule != Rule::CloseComm {
                                return Status::LineError(String::from_str("Missing Close Comment Rule on Stack"));
                            }
                        },
                        None => {
                            return Status::LineError(String::from_str("Unexpected End of Rule Stack While Parsing Comment"));
                        },
                    }
                    let n = self.stack.len();
                    if n > 0 {
                        if self.stack[n - 1] != Rule::CloseComm {
                            return Status::Done;
                        }
                    } else {
                        return Status::LineError(String::from_str("Unexpected End of Rule Stack While Parsing Comment"));
                    }
                }
            } else {
                let r = Status::LineError(String::from_str("Unexpected End of File While Parsing Comment"));
                assert(ts.len() == 0);
                assert(comment_scan(ts, self.stack@, self.line_number as int).0 == 0);
                assert(comment_scan(ts, self.stack@, self.line_number as int).3 == status_error(r));
                return r;
            }
        }
    }

    /// Carries out `rule`, just popped from the rule stack, at the start of
    /// a line: `Config` starts another line while tokens remain; `Line`
    /// reads past white space, comments and empty lines, and reports the
    /// keyword of a setting.
    pub fn line_start(&mut self, rule: Option<Rule>) -> (r: LineStart)
        requires
            old(self).lines_fit(),
        ensures
            final(self).lines_fit(),
            ({
                let s = line_start_scan(rule, old(self).stack@, token_views(old(self).tokens), old(self).line_number as int);
                &&& final(self).stack@ == s.0
                &&& token_views(final(self).tokens) == token_views(old(self).tokens).skip(s.1)
                &&& final(self).line_number == s.2
                &&& line_start_outcome(r) == s.3
            }),
    {
        let ghost ts0 = token_views(self.tokens);
        let ghost stack0 = self.stack@;
        let ghost line0 = self.line_number as int;
        assert(ts0.skip(0) =~= ts0);
        match rule {
            Some(Rule::Config) => {
                // try to parse another line
                if self.tokens.len() > 0 {
                    self.stack.push(Rule::Config);
                    self.stack.push(Rule::Line);
                    LineStart::Continue
                } else {
                    // end parsing
                    LineStart::Finished
                }
            },
            Some(Rule::Line) => {
                let unit = match self.tokens.pop_front() {
                    Some(unit) => unit,
                    None => {
                        return LineStart::Failed(String::from_str("Unexpected End of File While Parsing Line"));
                    },
                };
                proof {
                    assert(unit@ == ts0[0]);
                    assert(token_views(self.tokens) =~= ts0.drop_first());
                    assert(ts0.drop_first() =~= ts0.skip(1));
                }
                let token = unit.get_token();
                match token {
                    // ignore
                    Token::WhiteSpace => {
                        self.stack.push(Rule::Line);
                        LineStart::Continue
                    },
                    Token::OpenComm => {
                        self.stack.push(Rule::Line);
                        self.stack.push(Rule::CloseComm);
                        proof {
                            lemma_comment_scan_bounds(ts0.skip(1), self.stack@, line0);
                        }
                        self.parse_comment();
                        proof {
                            let c = comment_scan(ts0.skip(1), stack0.push(Rule::Line).push(Rule::CloseComm), line0);
                            assert(ts0.skip(1).skip(c.0) =~= ts0.skip(1 + c.0));
                        }
                        LineStart::Continue
                    },
                    // valid line assignment
                    Token::File | Token::LibPath | Token::MaxHist | Token::TopSngLen | Token::TopAlbLen
                    | Token::TopArtLen | Token::TopDecay => LineStart::Setting(token),
                    // empty line
                    Token::EndL => {
                        self.line_number = self.line_number + 1;
                        LineStart::Empty
                    },
                    _ => LineStart::Failed(String::from_str("Unexpected Token While Parsing Start of Line")),
                }
            },
            _ => LineStart::Failed(String::from_str("Unexpected Rule While Parsing Line")),
        }
    }

    /// After a syntax error: drops the rules of the failed line, down to the
    /// last `Config`, and reads past the rest of the line (comments whole).
    pub fn skip_error_line(&mut self)
        requires
            old(self).lines_fit(),
        ensures
            final(self).lines_fit(),
            ({
                let st = unwind_to_config(old(self).stack@);
                let e = error_line_scan(token_views(old(self).tokens), st, old(self).line_number as int);
                &&& token_views(final(self).tokens) == token_views(old(self).tokens).skip(e.0)
                &&& final(self).stack@ == e.1
                &&& final(self).line_number == e.2
            }),
    {
        // clear stack of remaining rules from the error line
        loop
            invariant
                unwind_to_config(self.stack@) == unwind_to_config(old(self).stack@),
                self.tokens == old(self).tokens,
                self.line_number == old(self).line_number,
            ensures
                self.stack@ == unwind_to_config(old(self).stack@),
                self.tokens == old(self).tokens,
                self.line_number == old(self).line_number,
            decreases self.stack@.len(),
        {
            let ghost before = self.stack@;
            match self.stack.pop() {
                Some(rule) => {
                    if rule == Rule::Config {
                        self.stack.push(Rule::Config);
                        assert(self.stack@ =~= before);
                        break;
                    }
                },
                None => {
                    break;
                },
            }
        }
        // advance past tokens in the error line
        let ghost ts0 = token_views(self.tokens);
        let ghost st0 = self.stack@;
        let ghost line0 = self.line_number as int;
        let ghost mut read: int = 0;
        assert(ts0.skip(0) =~= ts0);
        loop
            invariant_except_break
                0 <= read <= ts0.len(),
                token_views(self.tokens) == ts0.skip(read),
                ({
                    let e = error_line_scan(ts0, st0, line0);
                    let d = error_line_scan(ts0.skip(read), self.stack@, self.line_number as int);
                    &&& e.0 == read + d.0
                    &&& e.1 == d.1
                    &&& e.2 == d.2
                }),
            invariant
                ts0 == token_views(old(self).tokens),
                st0 == unwind_to_config(old(self).stack@),
                line0 == old(self).line_number as int,
                self.lines_fit(),
            ensures
                ({
                    let e = error_line_scan(ts0, st0, line0);
                    &&& token_views(self.tokens) == ts0.skip(e.0)
                    &&& self.stack@ == e.1
                    &&& self.line_number == e.2
                }),
            decreases self.tokens@.len(),
        {
            let ghost ts = token_views(self.tokens);
            let unit = match self.tokens.pop_front() {
                Some(unit) => unit,
                None => {
                    break;
                },
            };
            proof {
                assert(unit@ == ts[0]);
                assert(token_views(self.tokens) =~= ts.drop_first());
                assert(ts.drop_first() =~= ts0.skip(read + 1));
                read = read + 1;
            }
            // comments are read whole: they can carry a statement over lines
            if unit.get_token() == Token::OpenComm {
                let ghost stack_before = self.stack@;
                let ghost line_before = self.line_number as int;
                self.stack.push(Rule::CloseComm);
                proof {
                    lemma_comment_scan_bounds(ts.drop_first(), self.stack@, line_before);
                }
                self.parse_comment();
                proof {
                    let c = comment_scan(ts.drop_first(), stack_before.push(Rule::CloseComm), line_before);
                    assert(ts.skip(1 + c.0) =~= ts.drop_first().skip(c.0));
                    assert(ts0.skip(read + c.0) =~= ts.drop_first().skip(c.0));
                    read = read + c.0;
                }
            } else if unit.get_token() == Token::EndL {
                break;
            }
        }
    }

    /// A syntax error on the current line: the error is recorded with the
    /// line's number, the count moves to the next line, and the rest of the
    /// failed line is read past.
    pub fn line_error(&mut self, message: String) -> (e: Error)
        requires
            old(self).line_number >= 0,
            old(self).line_number + old(self).tokens@.len() < i32::MAX,
        ensures
            final(self).lines_fit(),
            e.line() == old(self).line_number,
            e.text() == message@,
            ({
                let st = unwind_to_config(old(self).stack@);
                let r = error_line_scan(token_views(old(self).tokens), st, old(self).line_number + 1);
                &&& token_views(final(self).tokens) == token_views(old(self).tokens).skip(r.0)
                &&& final(self).stack@ == r.1
                &&& final(self).line_number == r.2
            }),
    {
        let e = Error::new(self.line_number, message);
        self.line_number = self.line_number + 1;
        self.skip_error_line();
        e
    }

    /// Reads past white space and comments; an error when the tokens run out.
    pub fn parse_clear_garbage(&mut self) -> (r: Result<(), String>)
        requires
            old(self).lines_fit(),
        ensures
            final(self).lines_fit(),
            ({
                let g = garbage_scan(token_views(old(self).tokens), old(self).stack@, old(self).line_number as int);
                &&& token_views(final(self).tokens) == token_views(old(self).tokens).skip(g.0)
                &&& final(self).stack@ == g.1
                &&& final(self).line_number == g.2
                &&& (r is Ok <==> g.3)
                &&& (r matches Err(m) ==> m@ == "Unexpected End of File While Parsing Garbage"@)
            }),
    {
        let ghost ts0 = token_views(self.tokens);
        let ghost st0 = self.stack@;
        let ghost line0 = self.line_number as int;
        proof {
            assert(ts0.skip(0) =~= ts0);
        }
        let ghost mut read: int = 0;
        loop
            invariant
                ts0 == token_views(old(self).tokens),
                st0 == old(self).stack@,
                line0 == old(self).line_number as int,
                0 <= read <= ts0.len(),
                token_views(self.tokens) == ts0.skip(read),
                self.lines_fit(),
                ({
                    let g = garbage_scan(ts0, st0, line0);
                    let d = garbage_scan(ts0.skip(read), self.stack@, self.line_number as int);
                    &&& g.0 == read + d.0
                    &&& g.1 == d.1
                    &&& g.2 == d.2
                    &&& g.3 == d.3
                }),
            decreases self.tokens@.len(),
        {
            let ghost ts = token_views(self.tokens);
            if self.tokens.len() > 0 {
                let token = self.tokens[0].get_token();
                assert(token == ts[0].0);
                if token == Token::WhiteSpace {
                    self.tokens.pop_front();
                    proof {
                        assert(token_views(self.tokens) =~= ts.drop_first());
                        assert(ts0.skip(read + 1) =~= ts.drop_first());
                        read = read + 1;
                    }
                } else if token == Token::OpenComm {
                    let ghost stack_before = self.stack@;
                    let ghost line_before = self.line_number as int;
                    self.tokens.pop_front();
                    self.stack.push(Rule::CloseComm);
                    proof {
                        assert(token_views(self.tokens) =~= ts.drop_first());
                    }
                    self.parse_comment();
                    proof {
                        let c = comment_scan(ts.drop_first(), stack_before.push(Rule::CloseComm), line_before);
                        lemma_comment_scan_bounds(ts.drop_first(), stack_before.push(Rule::CloseComm), line_before);
                        assert(ts.skip(1 + c.0) =~= ts.drop_first().skip(c.0));
                        assert(ts0.skip(read + 1 + c.0) =~= ts.skip(1 + c.0));
                        read = read + 1 + c.0;
                    }
                } else {
                    return Ok(());
                }
            } else {
                return Err(String::from_str("Unexpected End of File While Parsing Garbage"));
            }
        }
    }

    /// Reads an assignment mark, with the garbage before and after it.
    pub fn parse_asn(&mut self) -> (r: Result<(), String>)
        requires
            old(self).lines_fit(),
        ensures
            final(self).lines_fit(),
            ({
                let a = asn_scan(token_views(old(self).tokens), old(self).stack@, old(self).line_number as int);
                &&& token_views(final(self).tokens) == token_views(old(self).tokens).skip(a.0)
                &&& final(self).stack@ == a.1
                &&& final(self).line_number == a.2
                &&& match r {
                    Ok(()) => a.3 is None,
                    Err(m) => a.3 == Some(m@),
                }
            }),
    {
        let ghost ts0 = token_views(self.tokens);
        let ghost st0 = self.stack@;
        let ghost line0 = self.line_number as int;
        proof {
            lemma_garbage_scan_bounds(ts0, st0, line0);
        }
        if let Err(message) = self.parse_clear_garbage() {
            return Err(message);
        }
        let ghost g = garbage_scan(ts0, st0, line0);
        let ghost ts1 = token_views(self.tokens);
        match self.tokens.pop_front() {
            Some(lexical_unit) => {
                assert(lexical_unit@ == ts1[0]);
                assert(ts1[0] == ts0[g.0]);
                if lexical_unit.get_token() != Token::Asn {
                    assert(token_views(self.tokens) =~= ts1.drop_first());
                    assert(ts1.drop_first() =~= ts0.skip(g.0 + 1));
                    return Err(String::from_str("Missing Assignment Token"));
                }
            },
            None => {
                return Err(String::from_str("Unexpected End of File While Parsing Asn"));
            },
        }
        proof {
            assert(token_views(self.tokens) =~= ts1.drop_first());
            assert(ts1.drop_first() =~= ts0.skip(g.0 + 1));
            lemma_garbage_scan_bounds(ts0.skip(g.0 + 1), self.stack@, self.line_number as int);
        }
        let ghost m0 = g.0 + 1;
        if let Err(message) = self.parse_clear_garbage() {
            proof {
                let g2 = garbage_scan(ts0.skip(m0), g.1, g.2);
                assert(ts0.skip(m0).skip(g2.0) =~= ts0.skip(m0 + g2.0));
            }
            return Err(message);
        }
        proof {
            let g2 = garbage_scan(ts0.skip(m0), g.1, g.2);
            assert(ts0.skip(m0).skip(g2.0) =~= ts0.skip(m0 + g2.0));
        }
        Ok(())
    }

    /// Reads the end of a line, after any garbage.
    pub fn parse_to_endl(&mut self) -> (r: Result<(), String>)
        requires
            old(self).lines_fit(),
        ensures
            final(self).lines_fit(),
            ({
                let a = mark_scan(
                    token_views(old(self).tokens),
                    old(self).stack@,
                    old(self).line_number as int,
                    Token::EndL,
                    "Missing End of Line Token"@,
                );
                &&& token_views(final(self).tokens) == token_views(old(self).tokens).skip(a.0)
                &&& final(self).stack@ == a.1
                &&& final(self).line_number == a.2
                &&& match r {
                    Ok(()) => a.3 is None,
                    Err(m) => a.3 == Some(m@),
                }
            }),
    {
        let ghost ts0 = token_views(self.tokens);
        let ghost st0 = self.stack@;
        let ghost line0 = self.line_number as int;
        proof {
            lemma_garbage_scan_bounds(ts0, st0, line0);
        }
        if let Err(message) = self.parse_clear_garbage() {
            return Err(message);
        }
        let ghost g = garbage_scan(ts0, st0, line0);
        let ghost ts1 = token_views(self.tokens);
        match self.tokens.pop_front() {
            Some(lexical_unit) => {
                assert(lexical_unit@ == ts1[0]);
                assert(ts1[0] == ts0[g.0]);
                assert(token_views(self.tokens) =~= ts1.drop_first());
                assert(ts1.drop_first() =~= ts0.skip(g.0 + 1));
                if lexical_unit.get_token() != Token::EndL {
                    return Err(String::from_str("Missing End of Line Token"));
                }
            },
            None => {
                return Err(String::from_str("Unexpected End of File While Parsing EndL"));
            },
        }
        Ok(())
    }

    /// Reads the digits after a decimal point, if a number comes next.
    pub fn parse_decimal(&mut self) -> (r: Result<String, String>)
        ensures
            ({
                let d = decimal_scan(token_views(old(self).tokens));
                &&& token_views(final(self).tokens) == token_views(old(self).tokens).skip(d.0)
                &&& text_result(r) == d.1
            }),
            final(self).stack@ == old(self).stack@,
            final(self).line_number == old(self).line_number,
    {
        let ghost ts0 = token_views(self.tokens);
        let mut num = String::new();
        if self.tokens.len() > 0 {
            assert(self.tokens@[0]@ == ts0[0]);
            if self.tokens[0].get_token() == Token::Num {
                let digit = self.tokens[0].get_lexime();
                self.tokens.pop_front();
                assert(token_views(self.tokens) =~= ts0.skip(1));
                push_text(&mut num, digit.as_str());
                Ok(num)
            } else {
                assert(ts0.skip(0) =~= ts0);
                Ok(num)
            }
        } else {
            assert(ts0.skip(0) =~= ts0);
            Err(String::from_str("Unexpected End of File While Parsing Decimal"))
        }
    }

    /// Reads the fractional part of a number whose digits were read: a
    /// point and the digits after it, if a point comes next.
    pub fn parse_num(&mut self) -> (r: Result<String, String>)
        ensures
            ({
                let n = num_scan(token_views(old(self).tokens));
                &&& token_views(final(self).tokens) == token_views(old(self).tokens).skip(n.0)
                &&& text_result(r) == n.1
            }),
            final(self).stack@ == old(self).stack@,
            final(self).line_number == old(self).line_number,
    {
        let ghost ts0 = token_views(self.tokens);
        let mut num = String::new();
        if self.tokens.len() > 0 {
            assert(self.tokens@[0]@ == ts0[0]);
            if self.tokens[0].get_token() == Token::Dot {
                self.tokens.pop_front();
                assert(token_views(self.tokens) =~= ts0.drop_first());
                push_char(&mut num, '.');
                match self.parse_decimal() {
                    Ok(result) => {
                        push_text(&mut num, result.as_str());
                        proof {
                            let d = decimal_scan(ts0.drop_first());
                            assert(ts0.drop_first().skip(d.0) =~= ts0.skip(1 + d.0));
                            assert(num@ =~= seq!['.'] + result@);
                        }
                        Ok(num)
                    },
                    Err(message) => {
                        proof {
                            let d = decimal_scan(ts0.drop_first());
                            assert(ts0.drop_first().skip(d.0) =~= ts0.skip(1 + d.0));
                        }
                        Err(message)
                    },
                }
            } else {
                assert(ts0.skip(0) =~= ts0);
                Ok(num)
            }
        } else {
            assert(ts0.skip(0) =~= ts0);
            Err(String::from_str("Unexpected End of File While Parsing Num"))
        }
    }
}


/// `k` open comments on the rule stack.
pub open spec fn open_comments(k: nat) -> Seq<Rule> {
    Seq::new(k, |i: int| Rule::CloseComm)
}

/// A comment that closes well leaves the rule stack as it was before the
/// comment (and the comments it was nested in) opened.
pub proof fn law_closed_comment_restores_stack(ts: Seq<(Token, Seq<char>)>, base: Seq<Rule>, k: nat, line: int)
    requires
        k >= 1,
        base.len() > 0,
        base.last() != Rule::CloseComm,
        comment_scan(ts, base + open_comments(k), line).3 is None,
    ensures
        comment_scan(ts, base + open_comments(k), line).1 == base,
    decreases ts.len(),
{
    let stack = base + open_comments(k);
    assert(stack.last() == Rule::CloseComm);
    if ts.len() > 0 {
        let t = ts[0].0;
        let rest = ts.drop_first();
        if t == Token::OpenComm {
            assert(stack.push(Rule::CloseComm) =~= base + open_comments(k + 1));
            law_closed_comment_restores_stack(rest, base, k + 1, line);
        } else if t == Token::EndL {
            law_closed_comment_restores_stack(rest, base, k, line + 1);
        } else if t == Token::CloseComm {
            assert(stack.drop_last() =~= base + open_comments((k - 1) as nat));
            if k == 1 {
                assert(stack.drop_last() =~= base);
            } else {
                assert(stack.drop_last().last() == Rule::CloseComm);
                law_closed_comment_restores_stack(rest, base, (k - 1) as nat, line);
            }
        } else {
            law_closed_comment_restores_stack(rest, base, k, line);
        }
    }
}

} // verus!

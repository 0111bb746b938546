//! Reading a math block of the configuration language: numbers, negation,
//! the operators `+ - * / ^ %`, parentheses, curly braces and bracketed
//! lists. The reader keeps the terms, their list lengths and the operators
//! on stacks, level by level.
//!
//! The reader works with any type of value. It asks its caller to turn the
//! text of a number into a value, and to evaluate a level when one closes;
//! each step is one rule of the parse stack.
use vstd::prelude::*;
use crate::lexer::Token;
use std::collections::VecDeque;
use crate::parse::{
    ParseCursor, Rule, token_views, garbage_scan, num_scan, decimal_scan, text_result, lemma_garbage_scan_bounds,
    level_term_scan, level_stack_add_term_list, list_term_scan, zero_lens, lemma_level_term_scan_bounds,
    build_list_term,
};
use crate::text::push_text;

verus! {

/// The state of reading a math block: operators, terms, term lengths (zero
/// for a single value, the item count for a list), the list lengths and
/// level lengths of the enclosing lists and levels, the item count of the
/// list being read, the term count of the level being read, and the rule
/// that closed the last level.
pub type MathState<T> = (Seq<Token>, Seq<T>, Seq<usize>, Seq<usize>, Seq<usize>, int, int, Rule);

/// What one step of reading a math block came to.
pub enum MathOutcome<T> {
    /// Go on stepping.
    Working,
    /// A number was read, with this text.
    Number(Seq<char>),
    /// A level closed: it is to be evaluated.
    Level,
    /// The math block ended: these are its values.
    Done(Seq<T>),
    /// A syntax error.
    Failed(Seq<char>),
}

/// The binary operators.
pub open spec fn is_math_op(t: Token) -> bool {
    t == Token::Plus || t == Token::Dash || t == Token::Star || t == Token::Slash || t == Token::Carrot
        || t == Token::Percent
}

/// The state after an operator `t`: the level has one more term.
pub open spec fn with_op<T>(st: MathState<T>, t: Token) -> MathState<T> {
    (st.0.push(t), st.1, st.2, st.3, st.4, st.5, st.6 + 1, st.7)
}

/// One step of reading a math block, on the rule at the top of `stack`,
/// after the white space and comments before it: the state, the rule stack,
/// tokens read, line after, and the outcome.
pub open spec fn math_step<T>(st: MathState<T>, minus_one: T, stack: Seq<Rule>, ts: Seq<(Token, Seq<char>)>, line: int) -> (
    MathState<T>,
    Seq<Rule>,
    int,
    int,
    MathOutcome<T>,
) {
    let g = garbage_scan(ts, stack, line);
    let n = g.0;
    let stk = g.1;
    let line1 = g.2;
    if !g.3 {
        (st, stk, n, line1, MathOutcome::Failed("Unexpected End of File While Parsing Garbage"@))
    } else if stk.len() == 0 {
        (st, stk, n, line1, MathOutcome::Failed("Unexpected End of Rule Stack While Parsing Math"@))
    } else {
        let rule = stk.last();
        let s1 = stk.drop_last();
        let t = ts[n].0;
        let lex = ts[n].1;
        let rest = ts.skip(n + 1);
        if rule == Rule::Term {
            if t == Token::Num {
                let m = num_scan(rest);
                match m.1 {
                    Ok(digits) => (st, s1, n + 1 + m.0, line1, MathOutcome::Number(lex + digits)),
                    Err(e) => (st, s1, n + 1 + m.0, line1, MathOutcome::Failed(e)),
                }
            } else if t == Token::Dot {
                let d = decimal_scan(rest);
                match d.1 {
                    Ok(digits) => (st, s1, n + 1 + d.0, line1, MathOutcome::Number(lex + digits)),
                    Err(e) => (st, s1, n + 1 + d.0, line1, MathOutcome::Failed(e)),
                }
            } else if t == Token::Dash {
                (
                    (st.0.push(Token::NegativeMult), st.1.push(minus_one), st.2.push(0usize), st.3, st.4, st.5, st.6 + 1, st.7),
                    s1.push(Rule::Term),
                    n + 1,
                    line1,
                    MathOutcome::Working,
                )
            } else if t == Token::OpenSquare {
                (
                    (st.0, st.1, st.2, st.3.push(st.5 as usize), st.4, 1, st.6, st.7),
                    s1.push(Rule::CloseSquare).push(Rule::Term),
                    n + 1,
                    line1,
                    MathOutcome::Working,
                )
            } else if t == Token::OpenCurl || t == Token::OpenParen {
                let close = if t == Token::OpenCurl {
                    Rule::CloseCurl
                } else {
                    Rule::CloseParen
                };
                (
                    (st.0, st.1, st.2, st.3, st.4.push(st.6 as usize), st.5, 1, st.7),
                    s1.push(close).push(Rule::Term),
                    n + 1,
                    line1,
                    MathOutcome::Working,
                )
            } else {
                (st, s1, n + 1, line1, MathOutcome::Failed("Unexpected Token While Parsing Math Term"@))
            }
        } else if rule == Rule::CloseMath || rule == Rule::CloseCurl || rule == Rule::CloseParen {
            let closed = (st.0, st.1, st.2, st.3, st.4, st.5, st.6, rule);
            if is_math_op(t) {
                (with_op(st, t), s1.push(rule).push(Rule::Term), n + 1, line1, MathOutcome::Working)
            } else if rule == Rule::CloseMath {
                (closed, s1, n, line1, MathOutcome::Level)
            } else if rule == Rule::CloseCurl && t != Token::CloseCurl {
                (st, s1, n + 1, line1, MathOutcome::Failed("Unexpected Token When Closing Curly Brace"@))
            } else if rule == Rule::CloseParen && t != Token::CloseParen {
                (st, s1, n + 1, line1, MathOutcome::Failed("Unexpected Token When Closing Parenthesis"@))
            } else {
                (closed, s1, n + 1, line1, MathOutcome::Level)
            }
        } else if rule == Rule::CloseSquare || rule == Rule::CloseSquareNotComma {
            if t == Token::CloseSquare {
                if st.3.len() == 0 {
                    (
                        (st.0, st.1, st.2.push(st.5 as usize), st.3, st.4, st.5, st.6, st.7),
                        s1,
                        n + 1,
                        line1,
                        MathOutcome::Failed("Unexpected End of List Len Stack When Closing Square Bracket"@),
                    )
                } else {
                    (
                        (st.0, st.1, st.2.push(st.5 as usize), st.3.drop_last(), st.4, st.3.last() as int, st.6, st.7),
                        s1,
                        n + 1,
                        line1,
                        MathOutcome::Working,
                    )
                }
            } else {
                (
                    (st.0, st.1, st.2, st.3, st.4, st.5 + 1, st.6, st.7),
                    s1.push(Rule::CloseSquare).push(Rule::Term),
                    n,
                    line1,
                    MathOutcome::Working,
                )
            }
        } else {
            (st, stk, n, line1, MathOutcome::Failed("Unexpected Rule in Rule Stack While Parsing Math"@))
        }
    }
}

/// After a level was evaluated to `values`: they become terms (a list, if
/// more than one); the enclosing level goes on, or, at the outermost level
/// of a block that is not in parentheses, the block ends with its terms
/// when they make one term and no operator is left.
pub open spec fn level_finish<T>(st: MathState<T>, values: Seq<T>) -> (MathState<T>, MathOutcome<T>) {
    let terms = st.1 + values;
    let lens = st.2 + Seq::new(values.len(), |i: int| 0usize) + if values.len() > 1 {
        seq![values.len() as usize]
    } else {
        Seq::empty()
    };
    if st.4.len() > 0 {
        ((st.0, terms, lens, st.3, st.4.drop_last(), st.5, st.4.last() as int, st.7), MathOutcome::Working)
    } else if st.7 == Rule::CloseParen {
        (
            (st.0, terms, lens, st.3, st.4, st.5, st.6, st.7),
            MathOutcome::Failed("Unexpected End of Term Len Stack When Closing Parenthesis"@),
        )
    } else if lens.len() == 0 {
        (
            (st.0, terms, lens, st.3, st.4, st.5, st.6, st.7),
            MathOutcome::Failed("Unexpected End of Term Len Stack When Returning From Math"@),
        )
    } else {
        let len = lens.last();
        let rest = (st.0, terms, lens.drop_last(), st.3, st.4, st.5, st.6, st.7);
        if len == 0 && terms.len() != 1 {
            (rest, MathOutcome::Failed("Unexpected Term List When Returning From Math"@))
        } else if len != 0 && terms.len() != len {
            (rest, MathOutcome::Failed("Unexpected Number of Terms in List When Returning From Math"@))
        } else if st.0.len() != 0 {
            (rest, MathOutcome::Failed("Unexpected Operators in Stack When Returning From Math"@))
        } else {
            ((st.0, Seq::empty(), lens.drop_last(), st.3, st.4, st.5, st.6, st.7), MathOutcome::Done(terms))
        }
    }
}

/// What one step of reading a math block came to.
#[derive(Debug)]
pub enum MathStep<T> {
    /// Go on stepping.
    Working,
    /// A number was read, with this text: turn it into a value and hand it
    /// to `push_number`.
    Number(String),
    /// A level closed: evaluate the level's terms and operators (the last
    /// `level_len()` terms of the stacks) and hand the result to
    /// `level_done`.
    Level,
    /// The math block ended: these are its values.
    Done(Vec<T>),
    /// A syntax error.
    Failed(String),
}

pub open spec fn math_outcome<T>(s: MathStep<T>) -> MathOutcome<T> {
    match s {
        MathStep::Working => MathOutcome::Working,
        MathStep::Number(text) => MathOutcome::Number(text@),
        MathStep::Level => MathOutcome::Level,
        MathStep::Done(values) => MathOutcome::Done(values@),
        MathStep::Failed(m) => MathOutcome::Failed(m@),
    }
}

/// The state of reading one math block.
pub struct MathParse<T> {
    pub op_stack: Vec<Token>,
    pub term_stack: Vec<T>,
    pub term_len_stack: Vec<usize>,
    list_len_stack: Vec<usize>,
    len_stack: Vec<usize>,
    list_len: usize,
    level_len: usize,
    closing: Rule,
    minus_one: T,
}

impl<T: Copy> MathParse<T> {
    pub closed spec fn state(&self) -> MathState<T> {
        (
            self.op_stack@,
            self.term_stack@,
            self.term_len_stack@,
            self.list_len_stack@,
            self.len_stack@,
            self.list_len as int,
            self.level_len as int,
            self.closing,
        )
    }

    /// The value that a leading minus sign multiplies by.
    pub closed spec fn negative_one(&self) -> T {
        self.minus_one
    }

    /// The counts are below the `usize` limit, so that a step can add one
    /// to any of them.
    pub open spec fn fits(&self) -> bool {
        let s = self.state();
        &&& s.5 < usize::MAX
        &&& s.6 < usize::MAX
        &&& forall|i: int| 0 <= i < s.3.len() ==> s.3[i] < usize::MAX
        &&& forall|i: int| 0 <= i < s.4.len() ==> s.4[i] < usize::MAX
    }

    /// Starts reading a math block: the first term comes next.
    pub fn begin(cursor: &mut ParseCursor, minus_one: T) -> (r: MathParse<T>)
        ensures
            final(cursor).stack@ == old(cursor).stack@.push(Rule::Term),
            final(cursor).tokens == old(cursor).tokens,
            final(cursor).line_number == old(cursor).line_number,
            r.state() == (
                Seq::<Token>::empty(),
                Seq::<T>::empty(),
                Seq::<usize>::empty(),
                Seq::<usize>::empty(),
                Seq::<usize>::empty(),
                1int,
                1int,
                Rule::CloseMath,
            ),
            r.negative_one() == minus_one,
    {
        cursor.stack.push(Rule::Term);
        MathParse {
            op_stack: Vec::new(),
            term_stack: Vec::new(),
            term_len_stack: Vec::new(),
            list_len_stack: Vec::new(),
            len_stack: Vec::new(),
            list_len: 1,
            level_len: 1,
            closing: Rule::CloseMath,
            minus_one,
        }
    }

    /// Whether the counts are below the `usize` limit.
    pub fn counts_fit(&self) -> (r: bool)
        ensures
            r == self.fits(),
    {
        if self.list_len == usize::MAX || self.level_len == usize::MAX {
            return false;
        }
        let mut i: usize = 0;
        while i < self.list_len_stack.len()
            invariant
                0 <= i <= self.list_len_stack@.len(),
                forall|j: int| 0 <= j < i ==> self.list_len_stack@[j] < usize::MAX,
            decreases self.list_len_stack@.len() - i,
        {
            if self.list_len_stack[i] == usize::MAX {
                assert(self.state().3[i as int] == usize::MAX);
                return false;
            }
            i = i + 1;
        }
        let mut k: usize = 0;
        while k < self.len_stack.len()
            invariant
                0 <= k <= self.len_stack@.len(),
                forall|j: int| 0 <= j < k ==> self.len_stack@[j] < usize::MAX,
            decreases self.len_stack@.len() - k,
        {
            if self.len_stack[k] == usize::MAX {
                assert(self.state().4[k as int] == usize::MAX);
                return false;
            }
            k = k + 1;
        }
        true
    }

    /// The number of terms of the level being read.
    pub fn level_len(&self) -> (r: usize)
        ensures
            r == self.state().6,
    {
        self.level_len
    }

    /// A number's value becomes a single-value term.
    pub fn push_number(&mut self, value: T)
        ensures
            ({
                let s = old(self).state();
                final(self).state() == (s.0, s.1.push(value), s.2.push(0usize), s.3, s.4, s.5, s.6, s.7)
            }),
            final(self).negative_one() == old(self).negative_one(),
            old(self).fits() ==> final(self).fits(),
    {
        self.term_stack.push(value);
        self.term_len_stack.push(0);
    }

    /// Carries out the rule at the top of the cursor's stack, after reading
    /// past white space and comments.
    pub fn step(&mut self, cursor: &mut ParseCursor) -> (r: MathStep<T>)
        requires
            old(cursor).lines_fit(),
            old(self).fits(),
        ensures
            final(cursor).lines_fit(),
            final(self).negative_one() == old(self).negative_one(),
            ({
                let s = math_step(
                    old(self).state(),
                    old(self).negative_one(),
                    old(cursor).stack@,
                    token_views(old(cursor).tokens),
                    old(cursor).line_number as int,
                );
                &&& final(self).state() == s.0
                &&& final(cursor).stack@ == s.1
                &&& token_views(final(cursor).tokens) == token_views(old(cursor).tokens).skip(s.2)
                &&& final(cursor).line_number == s.3
                &&& math_outcome(r) == s.4
            }),
    {
        let ghost ts0 = token_views(cursor.tokens);
        let ghost stack0 = cursor.stack@;
        let ghost line0 = cursor.line_number as int;
        proof {
            lemma_garbage_scan_bounds(ts0, stack0, line0);
        }
        // remove any comments or white space between terms
        if let Err(message) = cursor.parse_clear_garbage() {
            return MathStep::Failed(message);
        }
        let ghost g = garbage_scan(ts0, stack0, line0);
        let ghost n = g.0;
        assert(g.3);
        assert(n < ts0.len());
        assert(token_views(cursor.tokens).len() == cursor.tokens@.len());
        assert(cursor.tokens@.len() > 0);
        let rule = match cursor.stack.pop() {
            Some(rule) => rule,
            None => {
                return MathStep::Failed(String::from_str("Unexpected End of Rule Stack While Parsing Math"));
            },
        };
        let ghost ts1 = token_views(cursor.tokens);
        let unit = match cursor.tokens.pop_front() {
            Some(unit) => unit,
            None => {
                // a token follows the garbage
                assert(false);
                return MathStep::Working;
            },
        };
        proof {
            assert(unit@ == ts1[0]);
            assert(ts1[0] == ts0[n]);
            assert(token_views(cursor.tokens) =~= ts1.drop_first());
            assert(ts1.drop_first() =~= ts0.skip(n + 1));
        }
        let token = unit.get_token();
        if rule == Rule::Term {
            match token {
                // number term (may have decimal that is parsed by parse_num)
                Token::Num | Token::Dot => {
                    let mut number = unit.get_lexime();
                    let rest = if token == Token::Num {
                        cursor.parse_num()
                    } else {
                        cursor.parse_decimal()
                    };
                    proof {
                        let m = if token == Token::Num {
                            num_scan(ts0.skip(n + 1)).0
                        } else {
                            decimal_scan(ts0.skip(n + 1)).0
                        };
                        assert(ts0.skip(n + 1).skip(m) =~= ts0.skip(n + 1 + m));
                    }
                    match rest {
                        Ok(digits) => {
                            push_text(&mut number, digits.as_str());
                            MathStep::Number(number)
                        },
                        Err(message) => MathStep::Failed(message),
                    }
                },
                // negative term
                Token::Dash => {
                    self.level_len = self.level_len + 1;
                    self.term_stack.push(self.minus_one);
                    self.term_len_stack.push(0);
                    // special token to tell calculate_level
                    //  so that -1 will be multiplied on the first pass
                    self.op_stack.push(Token::NegativeMult);
                    cursor.stack.push(Rule::Term);
                    MathStep::Working
                },
                // list term: add a list to the stack as a term
                Token::OpenSquare => {
                    self.list_len_stack.push(self.list_len);
                    self.list_len = 1;
                    cursor.stack.push(Rule::CloseSquare);
                    cursor.stack.push(Rule::Term);
                    MathStep::Working
                },
                // go a level deeper
                Token::OpenCurl | Token::OpenParen => {
                    self.len_stack.push(self.level_len);
                    self.level_len = 1;
                    if token == Token::OpenCurl {
                        cursor.stack.push(Rule::CloseCurl);
                    } else {
                        cursor.stack.push(Rule::CloseParen);
                    }
                    cursor.stack.push(Rule::Term);
                    MathStep::Working
                },
                _ => MathStep::Failed(String::from_str("Unexpected Token While Parsing Math Term")),
            }
        } else if rule == Rule::CloseMath || rule == Rule::CloseCurl || rule == Rule::CloseParen {
            match token {
                // an operator: the closing rule goes back on the stack, with another term
                Token::Plus | Token::Dash | Token::Star | Token::Slash | Token::Carrot | Token::Percent => {
                    self.level_len = self.level_len + 1;
                    cursor.stack.push(rule);
                    cursor.stack.push(Rule::Term);
                    self.op_stack.push(token);
                    MathStep::Working
                },
                _ => {
                    if rule == Rule::CloseMath {
                        // the implicit end of the block is not read
                        cursor.tokens.push_front(unit);
                        assert(token_views(cursor.tokens) =~= ts0.skip(n));
                    } else if rule == Rule::CloseCurl && token != Token::CloseCurl {
                        return MathStep::Failed(String::from_str("Unexpected Token When Closing Curly Brace"));
                    } else if rule == Rule::CloseParen && token != Token::CloseParen {
                        return MathStep::Failed(String::from_str("Unexpected Token When Closing Parenthesis"));
                    }
                    self.closing = rule;
                    MathStep::Level
                },
            }
        } else if rule == Rule::CloseSquare || rule == Rule::CloseSquareNotComma {
            if token == Token::CloseSquare {
                self.term_len_stack.push(self.list_len);
                match self.list_len_stack.pop() {
                    Some(len) => {
                        self.list_len = len;
                        MathStep::Working
                    },
                    None => MathStep::Failed(
                        String::from_str("Unexpected End of List Len Stack When Closing Square Bracket"),
                    ),
                }
            } else {
                // the token starts the next item
                cursor.tokens.push_front(unit);
                assert(token_views(cursor.tokens) =~= ts0.skip(n));
                cursor.stack.push(Rule::CloseSquare);
                cursor.stack.push(Rule::Term);
                self.list_len = self.list_len + 1;
                MathStep::Working
            }
        } else {
            // protection for further lines
            cursor.tokens.push_front(unit);
            assert(token_views(cursor.tokens) =~= ts0.skip(n));
            cursor.stack.push(rule);
            MathStep::Failed(String::from_str("Unexpected Rule in Rule Stack While Parsing Math"))
        }
    }

    /// Takes the values of the level that closed, as evaluated by the
    /// caller, or its error.
    pub fn level_done(&mut self, level: Result<Vec<T>, String>) -> (r: MathStep<T>)
        ensures
            final(self).negative_one() == old(self).negative_one(),
            old(self).fits() ==> final(self).fits(),
            match level {
                Ok(values) => {
                    let f = level_finish(old(self).state(), values@);
                    &&& final(self).state() == f.0
                    &&& math_outcome(r) == f.1
                },
                Err(message) => {
                    &&& final(self).state() == old(self).state()
                    &&& math_outcome(r) == MathOutcome::<T>::Failed(message@)
                },
            },
    {
        let values = match level {
            Ok(values) => values,
            Err(message) => {
                return MathStep::Failed(message);
            },
        };
        let ghost s = self.state();
        let len = values.len();
        let mut i: usize = 0;
        while i < len
            invariant
                len == values@.len(),
                0 <= i <= len,
                self.term_stack@ == s.1 + values@.take(i as int),
                self.term_len_stack@ == s.2 + Seq::new(i as nat, |j: int| 0usize),
                self.op_stack@ == s.0,
                self.list_len_stack@ == s.3,
                self.len_stack@ == s.4,
                self.list_len == s.5,
                self.level_len == s.6,
                self.closing == s.7,
                self.minus_one == old(self).minus_one,
                s == old(self).state(),
            decreases len - i,
        {
            self.term_stack.push(values[i]);
            self.term_len_stack.push(0);
            assert(self.term_stack@ =~= s.1 + values@.take(i + 1));
            assert(self.term_len_stack@ =~= s.2 + Seq::new((i + 1) as nat, |j: int| 0usize));
            i = i + 1;
        }
        if len > 1 {
            self.term_len_stack.push(len);
        }
        assert(values@.take(len as int) =~= values@);
        assert(self.term_len_stack@ =~= s.2 + Seq::new(values@.len(), |j: int| 0usize) + if values@.len() > 1 {
            seq![values@.len() as usize]
        } else {
            Seq::empty()
        });
        // get the length of that level's expression
        match self.len_stack.pop() {
            Some(len) => {
                self.level_len = len;
                return MathStep::Working;
            },
            None => {},
        }
        if self.closing == Rule::CloseParen {
            return MathStep::Failed(String::from_str("Unexpected End of Term Len Stack When Closing Parenthesis"));
        }
        // the outermost level closed: the block has reached its end
        match self.term_len_stack.pop() {
            Some(len) => {
                if len == 0 && self.term_stack.len() != 1 {
                    return MathStep::Failed(String::from_str("Unexpected Term List When Returning From Math"));
                }
                if len != 0 && self.term_stack.len() != len {
                    return MathStep::Failed(
                        String::from_str("Unexpected Number of Terms in List When Returning From Math"),
                    );
                }
                if self.op_stack.len() != 0 {
                    return MathStep::Failed(String::from_str("Unexpected Operators in Stack When Returning From Math"));
                }
                let mut terms: Vec<T> = Vec::new();
                std::mem::swap(&mut terms, &mut self.term_stack);
                MathStep::Done(terms)
            },
            None => MathStep::Failed(String::from_str("Unexpected End of Term Len Stack When Returning From Math")),
        }
    }
}


// ---------------------------------------------------------------------------
// Evaluating a level

/// Gathering `k` more operators and terms (an operator, then the term
/// before it) from the backs of the stacks: length entries, values and
/// operators taken, the length entries and operators gathered (in order),
/// and the error, if any.
pub open spec fn more_terms_scan<T>(lens: Seq<usize>, terms: Seq<T>, ops: Seq<Token>, k: int) -> (
    int,
    int,
    int,
    Seq<usize>,
    Seq<Token>,
    Option<Seq<char>>,
)
    decreases k,
{
    if k <= 0 {
        (0, 0, 0, Seq::empty(), Seq::empty(), None)
    } else if ops.len() == 0 {
        (0, 0, 0, Seq::empty(), Seq::empty(), Some("Unexpected End of Operators While Constructing Level Stack"@))
    } else {
        let s = level_term_scan(lens, terms);
        if s.3 is Some {
            (s.0, s.1, 1, s.2, seq![ops.last()], s.3)
        } else {
            let r = more_terms_scan(lens.take(lens.len() - s.0), terms.take(terms.len() - s.1), ops.drop_last(), k - 1);
            (s.0 + r.0, s.1 + r.1, 1 + r.2, r.3 + s.2, r.4.push(ops.last()), r.5)
        }
    }
}

/// Gathering the last `count` terms of the stacks and the operators between
/// them into a level: length entries, values and operators taken, the
/// level's length entries and operators (in order), and the error, if any.
pub open spec fn gather_scan<T>(lens: Seq<usize>, terms: Seq<T>, ops: Seq<Token>, count: int) -> (
    int,
    int,
    int,
    Seq<usize>,
    Seq<Token>,
    Option<Seq<char>>,
) {
    let s = level_term_scan(lens, terms);
    if s.3 is Some {
        (s.0, s.1, 0, s.2, Seq::empty(), s.3)
    } else {
        let r = more_terms_scan(lens.take(lens.len() - s.0), terms.take(terms.len() - s.1), ops, count - 1);
        (s.0 + r.0, s.1 + r.1, r.2, r.3 + s.2, r.4, r.5)
    }
}

/// The passes over a level, one for each precedence of operator.
#[derive(Debug, Clone, Copy, PartialEq, Eq, Structural)]
pub enum PassKind {
    /// Negation of the term after a leading minus sign.
    Negate,
    /// `^`
    Power,
    /// `*`, `/` and `%`
    Product,
    /// `+` and `-`
    Sum,
}

/// The passes over a level, in order of precedence: negation first, then
/// `^`, then `*`, `/` and `%`, then `+` and `-`.
pub open spec fn passes_in_order() -> Seq<PassKind> {
    seq![PassKind::Negate, PassKind::Power, PassKind::Product, PassKind::Sum]
}

/// The passes over a level, in the order they are made.
pub fn pass_order() -> (r: Vec<PassKind>)
    ensures
        r@ == passes_in_order(),
{
    let mut r: Vec<PassKind> = Vec::new();
    r.push(PassKind::Negate);
    r.push(PassKind::Power);
    r.push(PassKind::Product);
    r.push(PassKind::Sum);
    assert(r@ =~= passes_in_order());
    r
}

/// Every value of `a` paired with every value of `b`: ordered by the value
/// of `a`, then by the value of `b`.
pub open spec fn all_pairs<T>(a: Seq<T>, b: Seq<T>) -> Seq<(T, T)>
    decreases a.len(),
{
    if a.len() == 0 {
        Seq::empty()
    } else {
        all_pairs(a.drop_last(), b) + b.map_values(|y: T| (a.last(), y))
    }
}

/// The pairs an operator is applied to: one for each value of the first
/// term and each value of the second, the pair `(a[i], b[j])` at
/// `i * b.len() + j`.
pub proof fn law_pairs_in_order<T>(a: Seq<T>, b: Seq<T>)
    ensures
        all_pairs(a, b).len() == a.len() * b.len(),
        forall|i: int, j: int|
            0 <= i < a.len() && 0 <= j < b.len() ==> #[trigger] all_pairs(a, b)[i * b.len() + j] == (a[i], b[j]),
    decreases a.len(),
{
    if a.len() > 0 {
        let k = a.len() as int;
        let m = b.len() as int;
        let front = a.drop_last();
        law_pairs_in_order(front, b);
        assert((k - 1) * m + m == k * m) by (nonlinear_arith);
        assert forall|i: int, j: int| 0 <= i < k && 0 <= j < m implies #[trigger] all_pairs(a, b)[i * m + j] == (
        a[i], b[j]) by {
            if i < k - 1 {
                assert(i * m + j < (k - 1) * m) by (nonlinear_arith)
                    requires
                        0 <= i < k - 1,
                        0 <= j < m,
                ;
                assert(all_pairs(front, b)[i * m + j] == (front[i], b[j]));
            } else {
                assert(i * m == (k - 1) * m);
            }
        }
    }
}

/// The pairs of values that a binary operator is applied to, in order.
pub fn pairs<T: Copy>(a: &Vec<T>, b: &Vec<T>) -> (r: Vec<(T, T)>)
    ensures
        r@ == all_pairs(a@, b@),
{
    let mut r: Vec<(T, T)> = Vec::new();
    let mut i: usize = 0;
    assert(a@.take(0) =~= Seq::<T>::empty());
    while i < a.len()
        invariant
            0 <= i <= a@.len(),
            r@ == all_pairs(a@.take(i as int), b@),
        decreases a@.len() - i,
    {
        let x = a[i];
        let ghost base = r@;
        let mut j: usize = 0;
        while j < b.len()
            invariant
                0 <= i < a@.len(),
                0 <= j <= b@.len(),
                x == a@[i as int],
                r@ == base + b@.take(j as int).map_values(|y: T| (x, y)),
            decreases b@.len() - j,
        {
            r.push((x, b[j]));
            assert(b@.take(j + 1).map_values(|y: T| (x, y)) =~= b@.take(j as int).map_values(|y: T| (x, y)).push(
                (x, b@[j as int]),
            ));
            j = j + 1;
        }
        proof {
            let at = a@.take(i + 1);
            assert(at.drop_last() =~= a@.take(i as int));
            assert(at.last() == x);
            assert(b@.take(b@.len() as int) =~= b@);
        }
        i = i + 1;
    }
    assert(a@.take(a@.len() as int) =~= a@);
    r
}

/// The operators that a pass applies.
pub open spec fn selects(kind: PassKind, op: Token) -> bool {
    match kind {
        PassKind::Negate => op == Token::NegativeMult,
        PassKind::Power => op == Token::Carrot,
        PassKind::Product => op == Token::Star || op == Token::Slash || op == Token::Percent,
        PassKind::Sum => op == Token::Plus || op == Token::Dash,
    }
}

/// The length entries of a term: its count in front when it is a list, and a
/// zero entry for each value.
pub open spec fn term_lens(n: int) -> Seq<usize> {
    (if n > 1 {
        seq![n as usize]
    } else {
        Seq::empty()
    }) + zero_lens(n)
}

/// A level during a pass: its terms, length entries and operators still to
/// pass over, and the terms, length entries and operators passed on.
pub type LevelView<T> = (Seq<T>, Seq<usize>, Seq<Token>, Seq<T>, Seq<usize>, Seq<Token>);

/// What one step of a pass came to, in the ghost world.
pub enum PassOutcome<T> {
    /// Go on stepping.
    Working,
    /// A negation: the term before it (which should be minus one) and the
    /// term to negate, or the error in building it.
    Negate(T, Result<Seq<T>, Seq<char>>),
    /// A binary operator with its two terms.
    Apply(Token, Seq<T>, Seq<T>),
    /// The pass is over; the level holds what it passed on.
    Finished,
    /// An error.
    Failed(Seq<char>),
}

/// One step of the pass `kind`: the level after and the outcome.
pub open spec fn pass_step_scan<T>(v: LevelView<T>, kind: PassKind) -> (LevelView<T>, PassOutcome<T>) {
    let terms = v.0;
    let lens = v.1;
    if v.2.len() == 0 {
        // the last term is passed on, if there is one
        let b = list_term_scan(terms, lens);
        let outs = match b.0 {
            Ok(term) => (v.3 + term, v.4 + term_lens(term.len() as int)),
            Err(_) => (v.3, v.4),
        };
        ((outs.0, outs.1, v.5, Seq::empty(), Seq::empty(), Seq::empty()), PassOutcome::Finished)
    } else {
        let op = v.2[0];
        let ops = v.2.drop_first();
        if selects(kind, op) && kind == PassKind::Negate {
            if lens.len() == 0 {
                ((terms, lens, ops, v.3, v.4, v.5), PassOutcome::Failed(
                    "Unexpected End of Level Term Len Stack While Performing Negative Mult"@,
                ))
            } else if lens[0] != 0 {
                ((terms, lens.drop_first(), ops, v.3, v.4, v.5), PassOutcome::Failed(
                    "Unexpected Term Len While Performing Negative Mult"@,
                ))
            } else if terms.len() == 0 {
                ((terms, lens.drop_first(), ops, v.3, v.4, v.5), PassOutcome::Failed(
                    "Unexpected End of Level Term Stack While Performing Negative Mult"@,
                ))
            } else {
                let b = list_term_scan(terms.drop_first(), lens.drop_first());
                (
                    (terms.drop_first().skip(b.1), lens.drop_first().skip(b.2), ops, v.3, v.4, v.5),
                    PassOutcome::Negate(terms[0], b.0),
                )
            }
        } else if selects(kind, op) {
            let b1 = list_term_scan(terms, lens);
            let t1 = terms.skip(b1.1);
            let l1 = lens.skip(b1.2);
            match b1.0 {
                Err(e) => ((t1, l1, ops, v.3, v.4, v.5), PassOutcome::Failed(e)),
                Ok(one) => {
                    let b2 = list_term_scan(t1, l1);
                    let after = (t1.skip(b2.1), l1.skip(b2.2), ops, v.3, v.4, v.5);
                    match b2.0 {
                        Err(e) => (after, PassOutcome::Failed(e)),
                        Ok(two) => (after, PassOutcome::Apply(op, one, two)),
                    }
                },
            }
        } else {
            let b = list_term_scan(terms, lens);
            let t1 = terms.skip(b.1);
            let l1 = lens.skip(b.2);
            match b.0 {
                Err(e) => ((t1, l1, ops, v.3, v.4, v.5), PassOutcome::Failed(e)),
                Ok(u) => (
                    (t1, l1, ops, v.3 + u, v.4 + term_lens(u.len() as int), v.5.push(op)),
                    PassOutcome::Working,
                ),
            }
        }
    }
}

/// A pass applies only the operators of its precedence, and asks for a
/// negation only in the negation pass; the operators it passes over are
/// kept, in order.
pub proof fn law_pass_applies_only_its_operators<T>(v: LevelView<T>, kind: PassKind)
    ensures
        ({
            let s = pass_step_scan(v, kind);
            &&& s.1 matches PassOutcome::Apply(op, _, _) ==> selects(kind, op) && kind != PassKind::Negate
            &&& s.1 is Negate ==> kind == PassKind::Negate && v.2[0] == Token::NegativeMult
            &&& s.1 is Working ==> !selects(kind, v.2[0]) && s.0.5 == v.5.push(v.2[0])
        }),
{
}

/// Each operator has one precedence: the pass of its precedence never passes
/// it over, and every other pass never applies it. `%` goes with `*` and
/// `/` in the product pass, `+` and `-` in the sum pass, `^` in the power
/// pass, and the negation's multiplier only in the negation pass; the passes
/// run negation, power, product, sum, in that order.
pub proof fn law_operator_precedence<T>(v: LevelView<T>, kind: PassKind)
    requires
        v.2.len() > 0,
    ensures
        ({
            let op = v.2[0];
            let s = pass_step_scan(v, kind).1;
            let own = if op == Token::NegativeMult {
                Some(PassKind::Negate)
            } else if op == Token::Carrot {
                Some(PassKind::Power)
            } else if op == Token::Star || op == Token::Slash || op == Token::Percent {
                Some(PassKind::Product)
            } else if op == Token::Plus || op == Token::Dash {
                Some(PassKind::Sum)
            } else {
                None
            };
            &&& own == Some(kind) ==> !(s is Working)
            &&& own != Some(kind) ==> !(s is Apply) && !(s is Negate)
            &&& (op == Token::Slash || op == Token::Percent) ==> ({
                let as_star = pass_step_scan((v.0, v.1, v.2.update(0, Token::Star), v.3, v.4, v.5), kind).1;
                &&& (s is Apply <==> as_star is Apply)
                &&& (s is Working <==> as_star is Working)
            })
            &&& passes_in_order()[0] == PassKind::Negate
            &&& passes_in_order()[1] == PassKind::Power
            &&& passes_in_order()[2] == PassKind::Product
            &&& passes_in_order()[3] == PassKind::Sum
        }),
{
}

/// The values of a level after its passes: its one term, when the level
/// holds exactly one term and no operator.
pub open spec fn level_result<T>(v: LevelView<T>) -> Result<Seq<T>, Seq<char>> {
    if v.1.len() == 0 {
        Err("Unexpected End of Term Len Stack When Returning From Calculate Level"@)
    } else if v.1[0] == 0 && v.0.len() != 1 {
        Err("Unexpected Term List When Returning From Calculate Level"@)
    } else if v.1[0] != 0 && v.0.len() != v.1[0] {
        Err("Unexpected Number of Terms in List When Returning From Calculate Level"@)
    } else if v.2.len() != 0 {
        Err("Unexpected Operators in Stack When Returning From Calculate Level"@)
    } else {
        Ok(v.0)
    }
}

/// What one step of a pass came to.
#[derive(Debug)]
pub enum PassStep<T> {
    /// Go on stepping.
    Working,
    /// A negation: the term before it, which should be minus one, and the
    /// term to negate (or the error in building it). Hand the negated values
    /// to `push_results`.
    Negate { first: T, term: Result<Vec<T>, String> },
    /// A binary operator with its two terms: hand `op` applied to every pair
    /// (ordered by the first term, then the second) to `push_results`.
    Apply { op: Token, one: Vec<T>, two: Vec<T> },
    /// The pass is over.
    Finished,
    /// An error.
    Failed(String),
}

pub open spec fn pass_outcome<T>(s: PassStep<T>) -> PassOutcome<T> {
    match s {
        PassStep::Working => PassOutcome::Working,
        PassStep::Negate { first, term } => PassOutcome::Negate(first, match term {
            Ok(t) => Ok(t@),
            Err(e) => Err(e@),
        }),
        PassStep::Apply { op, one, two } => PassOutcome::Apply(op, one@, two@),
        PassStep::Finished => PassOutcome::Finished,
        PassStep::Failed(m) => PassOutcome::Failed(m@),
    }
}

/// A level of a math block being evaluated.
pub struct Level<T> {
    terms: VecDeque<T>,
    lens: VecDeque<usize>,
    ops: VecDeque<Token>,
    out_terms: VecDeque<T>,
    out_lens: VecDeque<usize>,
    unused_ops: VecDeque<Token>,
}

impl<T: Copy> Level<T> {
    pub closed spec fn view_parts(&self) -> LevelView<T> {
        (self.terms@, self.lens@, self.ops@, self.out_terms@, self.out_lens@, self.unused_ops@)
    }

    /// Gathers the last `level_len` terms of the stacks, and the operators
    /// between them, into a level.
    pub fn gather(
        term_stack: &mut Vec<T>,
        term_len_stack: &mut Vec<usize>,
        op_stack: &mut Vec<Token>,
        level_len: usize,
    ) -> (r: Result<Level<T>, String>)
        ensures
            ({
                let g = gather_scan(old(term_len_stack)@, old(term_stack)@, old(op_stack)@, level_len as int);
                let nl = old(term_len_stack)@.len();
                let nt = old(term_stack)@.len();
                let no = old(op_stack)@.len();
                &&& final(term_len_stack)@ == old(term_len_stack)@.take(nl - g.0)
                &&& final(term_stack)@ == old(term_stack)@.take(nt - g.1)
                &&& final(op_stack)@ == old(op_stack)@.take(no - g.2)
                &&& match r {
                    Ok(level) => g.5 is None && level.view_parts() == (
                        old(term_stack)@.skip(nt - g.1),
                        g.3,
                        g.4,
                        Seq::<T>::empty(),
                        Seq::<usize>::empty(),
                        Seq::<Token>::empty(),
                    ),
                    Err(e) => g.5 == Some(e@),
                }
            }),
    {
        let ghost lens0 = term_len_stack@;
        let ghost terms0 = term_stack@;
        let ghost ops0 = op_stack@;
        let mut level = Level {
            terms: VecDeque::new(),
            lens: VecDeque::new(),
            ops: VecDeque::new(),
            out_terms: VecDeque::new(),
            out_lens: VecDeque::new(),
            unused_ops: VecDeque::new(),
        };
        let first = level_stack_add_term_list(term_stack, &mut level.terms, term_len_stack, &mut level.lens);
        proof {
            let s = level_term_scan(lens0, terms0);
            assert(level.terms@ =~= terms0.skip(terms0.len() - s.1));
            assert(level.lens@ =~= s.2);
            assert(op_stack@ =~= ops0.take(ops0.len() - 0));
            lemma_level_term_scan_bounds(lens0, terms0);
        }
        if let Err(message) = first {
            return Err(message);
        }
        // add all terms and ops for expression
        let mut i: usize = 1;
        while i < level_len
            invariant
                lens0 == old(term_len_stack)@,
                terms0 == old(term_stack)@,
                ops0 == old(op_stack)@,
                1 <= i,
                i <= level_len || level_len == 0,
                term_len_stack@.len() <= lens0.len(),
                term_stack@.len() <= terms0.len(),
                op_stack@.len() <= ops0.len(),
                term_len_stack@ == lens0.take(term_len_stack@.len() as int),
                term_stack@ == terms0.take(term_stack@.len() as int),
                op_stack@ == ops0.take(op_stack@.len() as int),
                level.terms@ == terms0.skip(term_stack@.len() as int),
                level.out_terms@.len() == 0,
                level.out_lens@.len() == 0,
                level.unused_ops@.len() == 0,
                ({
                    let whole = gather_scan(lens0, terms0, ops0, level_len as int);
                    let rest = more_terms_scan(term_len_stack@, term_stack@, op_stack@, level_len - i);
                    &&& whole.0 == lens0.len() - term_len_stack@.len() + rest.0
                    &&& whole.1 == terms0.len() - term_stack@.len() + rest.1
                    &&& whole.2 == ops0.len() - op_stack@.len() + rest.2
                    &&& whole.3 == rest.3 + level.lens@
                    &&& whole.4 == rest.4 + level.ops@
                    &&& whole.5 == rest.5
                }),
            decreases level_len - i,
        {
            let ghost lens_now = term_len_stack@;
            let ghost terms_now = term_stack@;
            let ghost ops_now = op_stack@;
            let ghost level_lens_now = level.lens@;
            let ghost level_ops_now = level.ops@;
            match op_stack.pop() {
                Some(op) => {
                    level.ops.push_front(op);
                },
                None => {
                    return Err(String::from_str("Unexpected End of Operators While Constructing Level Stack"));
                },
            }
            let added = level_stack_add_term_list(term_stack, &mut level.terms, term_len_stack, &mut level.lens);
            proof {
                let s = level_term_scan(lens_now, terms_now);
                lemma_level_term_scan_bounds(lens_now, terms_now);
                assert(lens_now.take(lens_now.len() - s.0) =~= term_len_stack@);
                assert(terms_now.take(terms_now.len() - s.1) =~= term_stack@);
                assert(ops_now.drop_last() =~= op_stack@);
                assert(term_len_stack@ =~= lens0.take(term_len_stack@.len() as int));
                assert(term_stack@ =~= terms0.take(term_stack@.len() as int));
                assert(op_stack@ =~= ops0.take(op_stack@.len() as int));
                assert(level.terms@ =~= terms0.skip(term_stack@.len() as int));
                assert(level.ops@ =~= seq![ops_now.last()] + level_ops_now);
                assert(level.lens@ =~= s.2 + level_lens_now);
            }
            if let Err(message) = added {
                return Err(message);
            }
            i = i + 1;
        }
        Ok(level)
    }

    /// Passes a term on, with its length entries.
    fn pass_on(&mut self, term: Vec<T>)
        ensures
            ({
                let v = old(self).view_parts();
                final(self).view_parts() == (v.0, v.1, v.2, v.3 + term@, v.4 + term_lens(term@.len() as int), v.5)
            }),
    {
        let ghost v = self.view_parts();
        let len = term.len();
        if len > 1 {
            self.out_lens.push_back(len);
        }
        let mut i: usize = 0;
        while i < len
            invariant
                len == term@.len(),
                0 <= i <= len,
                self.terms@ == v.0,
                self.lens@ == v.1,
                self.ops@ == v.2,
                self.unused_ops@ == v.5,
                self.out_terms@ == v.3 + term@.take(i as int),
                self.out_lens@ == v.4 + (if len > 1 {
                    seq![len]
                } else {
                    Seq::empty()
                }) + zero_lens(i as int),
            decreases len - i,
        {
            self.out_terms.push_back(term[i]);
            self.out_lens.push_back(0);
            assert(self.out_terms@ =~= v.3 + term@.take(i + 1));
            assert(zero_lens(i + 1) =~= zero_lens(i as int).push(0usize));
            i = i + 1;
        }
        assert(term@.take(len as int) =~= term@);
        assert(self.out_lens@ =~= v.4 + term_lens(term@.len() as int));
    }

    /// The values of an operator applied by the caller are passed on.
    pub fn push_results(&mut self, values: Vec<T>)
        ensures
            ({
                let v = old(self).view_parts();
                final(self).view_parts() == (v.0, v.1, v.2, v.3 + values@, v.4 + term_lens(values@.len() as int), v.5)
            }),
    {
        self.pass_on(values);
    }

    /// One step of the pass `kind` over the level's operators, in order.
    pub fn pass_step(&mut self, kind: PassKind) -> (r: PassStep<T>)
        ensures
            ({
                let s = pass_step_scan(old(self).view_parts(), kind);
                &&& final(self).view_parts() == s.0
                &&& pass_outcome(r) == s.1
            }),
    {
        let ghost v = self.view_parts();
        let op = match self.ops.pop_front() {
            Some(op) => op,
            None => {
                // if there is a last unused term
                if let Ok(term) = build_list_term(&mut self.terms, &mut self.lens) {
                    self.pass_on(term);
                }
                self.terms = VecDeque::new();
                self.lens = VecDeque::new();
                std::mem::swap(&mut self.terms, &mut self.out_terms);
                std::mem::swap(&mut self.lens, &mut self.out_lens);
                self.ops = VecDeque::new();
                std::mem::swap(&mut self.ops, &mut self.unused_ops);
                assert(self.out_terms@ =~= Seq::<T>::empty());
                assert(self.out_lens@ =~= Seq::<usize>::empty());
                assert(self.unused_ops@ =~= Seq::<Token>::empty());
                return PassStep::Finished;
            },
        };
        let selected = match kind {
            PassKind::Negate => op == Token::NegativeMult,
            PassKind::Power => op == Token::Carrot,
            PassKind::Product => op == Token::Star || op == Token::Slash || op == Token::Percent,
            PassKind::Sum => op == Token::Plus || op == Token::Dash,
        };
        if selected && kind == PassKind::Negate {
            // ensure term one is -1
            match self.lens.pop_front() {
                Some(len) => {
                    if len != 0 {
                        return PassStep::Failed(String::from_str("Unexpected Term Len While Performing Negative Mult"));
                    }
                },
                None => {
                    return PassStep::Failed(
                        String::from_str("Unexpected End of Level Term Len Stack While Performing Negative Mult"),
                    );
                },
            }
            let first = match self.terms.pop_front() {
                Some(first) => first,
                None => {
                    return PassStep::Failed(
                        String::from_str("Unexpected End of Level Term Stack While Performing Negative Mult"),
                    );
                },
            };
            // build term two
            let term = build_list_term(&mut self.terms, &mut self.lens);
            PassStep::Negate { first, term }
        } else if selected {
            let one = match build_list_term(&mut self.terms, &mut self.lens) {
                Ok(term) => term,
                Err(message) => {
                    return PassStep::Failed(message);
                },
            };
            let two = match build_list_term(&mut self.terms, &mut self.lens) {
                Ok(term) => term,
                Err(message) => {
                    return PassStep::Failed(message);
                },
            };
            PassStep::Apply { op, one, two }
        } else {
            let unused = match build_list_term(&mut self.terms, &mut self.lens) {
                Ok(term) => term,
                Err(message) => {
                    return PassStep::Failed(message);
                },
            };
            self.pass_on(unused);
            self.unused_ops.push_back(op);
            PassStep::Working
        }
    }

    /// The level's values after its passes: its one term, when it holds
    /// exactly one term and no operator is left.
    pub fn finish(self) -> (r: Result<Vec<T>, String>)
        ensures
            match r {
                Ok(values) => level_result(self.view_parts()) == Ok::<Seq<T>, Seq<char>>(values@),
                Err(e) => level_result(self.view_parts()) == Err::<Seq<T>, Seq<char>>(e@),
            },
    {
        if self.lens.len() == 0 {
            return Err(String::from_str("Unexpected End of Term Len Stack When Returning From Calculate Level"));
        }
        let len = self.lens[0];
        if len == 0 && self.terms.len() != 1 {
            return Err(String::from_str("Unexpected Term List When Returning From Calculate Level"));
        }
        if len != 0 && self.terms.len() != len {
            return Err(String::from_str("Unexpected Number of Terms in List When Returning From Calculate Level"));
        }
        if self.ops.len() != 0 {
            return Err(String::from_str("Unexpected Operators in Stack When Returning From Calculate Level"));
        }
        let mut values: Vec<T> = Vec::new();
        let mut i: usize = 0;
        while i < self.terms.len()
            invariant
                0 <= i <= self.terms@.len(),
                values@ == self.terms@.take(i as int),
            decreases self.terms@.len() - i,
        {
            values.push(self.terms[i]);
            assert(values@ =~= self.terms@.take(i + 1));
            i = i + 1;
        }
        assert(self.terms@.take(self.terms@.len() as int) =~= self.terms@);
        Ok(values)
    }
}

} // verus!

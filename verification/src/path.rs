//! Reading the value of a path setting: plain segments, escaped characters,
//! bracketed lists of alternatives and math blocks. A list or a math block
//! multiplies the paths read so far, one path for each alternative.
//!
//! The reader goes one rule of the parse stack at a time. When a math block
//! opens, it asks its caller to evaluate the block on the same cursor and
//! to hand back the numbers as texts.
use vstd::prelude::*;
use crate::lexer::Token;
use crate::parse::{
    ParseCursor, Rule, token_views, comment_scan, garbage_scan, asn_scan, lemma_comment_scan_bounds,
    lemma_garbage_scan_bounds,
};
use crate::text::{push_text, texts, lemma_texts_push};

verus! {

/// Every text of `ps` with `s` added at its end.
pub open spec fn appended(ps: Seq<Seq<char>>, s: Seq<char>) -> Seq<Seq<char>> {
    ps.map_values(|p: Seq<char>| p + s)
}

/// Every text of `ps` followed by every text of `ns`: the texts
/// `ps[i] + ns[j]`, ordered by `i`, then by `j`.
pub open spec fn product(ps: Seq<Seq<char>>, ns: Seq<Seq<char>>) -> Seq<Seq<char>>
    decreases ps.len(),
{
    if ps.len() == 0 {
        Seq::empty()
    } else {
        product(ps.drop_last(), ns) + ns.map_values(|n: Seq<char>| ps.last() + n)
    }
}

/// Every path followed by every alternative: the product holds one text for
/// each pair, the path's text followed by the alternative's, ordered by
/// path, then by alternative.
pub proof fn law_product_pairs(ps: Seq<Seq<char>>, ns: Seq<Seq<char>>)
    ensures
        product(ps, ns).len() == ps.len() * ns.len(),
        forall|i: int, j: int|
            0 <= i < ps.len() && 0 <= j < ns.len() ==> #[trigger] product(ps, ns)[i * ns.len() + j] == ps[i]
                + ns[j],
    decreases ps.len(),
{
    if ps.len() > 0 {
        let k = ps.len() as int;
        let m = ns.len() as int;
        let front = ps.drop_last();
        law_product_pairs(front, ns);
        assert((k - 1) * m + m == k * m) by (nonlinear_arith);
        assert forall|i: int, j: int| 0 <= i < k && 0 <= j < m implies #[trigger] product(ps, ns)[i * m + j]
            == ps[i] + ns[j] by {
            if i < k - 1 {
                assert(i * m + j < (k - 1) * m) by (nonlinear_arith)
                    requires
                        0 <= i < k - 1,
                        0 <= j < m,
                ;
                assert(product(front, ns)[i * m + j] == front[i] + ns[j]);
            } else {
                assert(i * m == (k - 1) * m);
            }
        }
    }
}

/// The state of reading a path: the paths read so far, the finished items
/// of the list being read, the item being read (its alternatives), and the
/// white space waiting to be added before the next character.
pub type PathState = (Seq<Seq<char>>, Seq<Seq<char>>, Seq<Seq<char>>, Seq<char>);

/// What one step of reading a path came to.
pub enum PathOutcome {
    /// Go on stepping.
    Working,
    /// A math block opened, in a list (`true`) or in a plain segment.
    NeedMath(bool),
    /// The path ended with its line: these are the paths.
    Done(Seq<Seq<char>>),
    /// A syntax error.
    Failed(Seq<char>),
}

/// The state after a plain character text `lex`: the waiting white space
/// and `lex` are added to every path.
pub open spec fn with_segment(st: PathState, lex: Seq<char>) -> PathState {
    (appended(st.0, st.3 + lex), st.1, st.2, Seq::empty())
}

/// The state after a character text `lex` in a list: the waiting white
/// space and `lex` are added to every alternative of the item.
pub open spec fn with_item_segment(st: PathState, lex: Seq<char>) -> PathState {
    (st.0, st.1, appended(st.2, st.3 + lex), Seq::empty())
}

/// The state after white space `lex`: it waits to be added.
pub open spec fn with_space(st: PathState, lex: Seq<char>) -> PathState {
    (st.0, st.1, st.2, st.3 + lex)
}

/// The state after a list closes: the item joins the items when it is one
/// non-empty text, and every path is followed by every item.
pub open spec fn with_list_closed(st: PathState) -> PathState {
    let items = if st.2.len() == 1 && st.2[0] != Seq::<char>::empty() {
        st.1 + st.2
    } else {
        st.1
    };
    (product(st.0, items), Seq::empty(), seq![Seq::<char>::empty()], Seq::empty())
}

/// The message of a path that ends early.
pub open spec fn path_eof() -> Seq<char> {
    "Unexpected End of File While Parsing Path"@
}

/// One step of reading a path, on the rule at the top of `stack`, the
/// tokens `ts` and line `line`: the state, the rule stack, how many tokens
/// are read, the line after, and the outcome.
pub open spec fn path_step(st: PathState, stack: Seq<Rule>, ts: Seq<(Token, Seq<char>)>, line: int) -> (
    PathState,
    Seq<Rule>,
    int,
    int,
    PathOutcome,
) {
    if stack.len() == 0 {
        (st, stack, 0, line, PathOutcome::Failed(path_eof()))
    } else {
        let rule = stack.last();
        let stk = stack.drop_last();
        if rule == Rule::Char {
            if ts.len() == 0 {
                (st, stk, 0, line, PathOutcome::Failed(path_eof()))
            } else {
                let t = ts[0].0;
                let lex = ts[0].1;
                let rest = ts.drop_first();
                if t == Token::EndL {
                    (st, stk, 1, line, PathOutcome::Done(st.0))
                } else if t == Token::Esc {
                    (st, stk.push(Rule::EscapedChar), 1, line, PathOutcome::Working)
                } else if t == Token::WhiteSpace {
                    (with_space(st, lex), stk.push(Rule::Char), 1, line, PathOutcome::Working)
                } else if t == Token::OpenComm {
                    let c = comment_scan(rest, stk.push(Rule::Char).push(Rule::CloseComm), line);
                    (st, c.1, 1 + c.0, c.2, PathOutcome::Working)
                } else if t == Token::OpenSquare {
                    let g = garbage_scan(rest, stk, line);
                    if !g.3 {
                        (st, g.1, 1 + g.0, g.2, PathOutcome::Failed("Unexpected End of File While Parsing Garbage"@))
                    } else {
                        (st, g.1.push(Rule::Char).push(Rule::CloseSquare), 1 + g.0, g.2, PathOutcome::Working)
                    }
                } else if t == Token::OpenCurl {
                    (st, stk.push(Rule::Char).push(Rule::CloseCurl), 1, line, PathOutcome::NeedMath(false))
                } else {
                    (with_segment(st, lex), stk.push(Rule::Char), 1, line, PathOutcome::Working)
                }
            }
        } else if rule == Rule::EscapedChar {
            if ts.len() == 0 {
                (st, stk, 0, line, PathOutcome::Working)
            } else {
                (with_segment(st, ts[0].1), stk.push(Rule::Char), 1, line, PathOutcome::Working)
            }
        } else if rule == Rule::CloseSquare {
            if ts.len() == 0 {
                (st, stk, 0, line, PathOutcome::Failed(path_eof()))
            } else {
                let t = ts[0].0;
                let lex = ts[0].1;
                let rest = ts.drop_first();
                if t == Token::EndL {
                    (st, stk, 0, line, PathOutcome::Failed("Unexpected New-Line in Path List"@))
                } else if t == Token::Esc {
                    (st, stk.push(Rule::CloseSquareEscaped), 1, line, PathOutcome::Working)
                } else if t == Token::WhiteSpace {
                    (with_space(st, lex), stk.push(Rule::CloseSquare), 1, line, PathOutcome::Working)
                } else if t == Token::OpenComm {
                    let c = comment_scan(rest, stk.push(Rule::CloseSquare).push(Rule::CloseComm), line);
                    (st, c.1, 1 + c.0, c.2, PathOutcome::Working)
                } else if t == Token::OpenSquare {
                    let g = garbage_scan(rest, stk, line);
                    if !g.3 {
                        (st, g.1, 1 + g.0, g.2, PathOutcome::Failed("Unexpected End of File While Parsing Garbage"@))
                    } else {
                        (st, g.1.push(Rule::CloseSquare), 1 + g.0, g.2, PathOutcome::Working)
                    }
                } else if t == Token::CloseSquare {
                    let cleared = (st.0, st.1, st.2, Seq::<char>::empty());
                    if stk.len() == 0 || (stk.last() != Rule::CloseSquare && stk.last() != Rule::CloseSquareNotComma) {
                        (with_list_closed(st), stk, 1, line, PathOutcome::Working)
                    } else {
                        let g = garbage_scan(rest, stk, line);
                        if !g.3 {
                            (cleared, g.1, 1 + g.0, g.2, PathOutcome::Failed("Unexpected End of File While Parsing Garbage"@))
                        } else {
                            (cleared, g.1, 1 + g.0, g.2, PathOutcome::Working)
                        }
                    }
                } else if t == Token::OpenCurl {
                    (st, stk.push(Rule::CloseSquare).push(Rule::CloseCurl), 1, line, PathOutcome::NeedMath(true))
                } else {
                    (with_item_segment(st, lex), stk.push(Rule::CloseSquare), 1, line, PathOutcome::Working)
                }
            }
        } else if rule == Rule::CloseSquareEscaped {
            if ts.len() == 0 {
                (st, stk, 0, line, PathOutcome::Working)
            } else {
                (with_item_segment(st, ts[0].1), stk.push(Rule::CloseSquare), 1, line, PathOutcome::Working)
            }
        } else {
            (st, stk, 0, line, PathOutcome::Failed(path_eof()))
        }
    }
}

/// A step of reading a path counts at most one line for each token read,
/// and one less when the path ends with its line.
pub proof fn lemma_path_step_bounds(st: PathState, stack: Seq<Rule>, ts: Seq<(Token, Seq<char>)>, line: int)
    ensures
        ({
            let s = path_step(st, stack, ts, line);
            &&& 0 <= s.2 <= ts.len()
            &&& line <= s.3 <= line + s.2
            &&& (s.4 is Done ==> s.2 >= 1 && s.3 <= line + s.2 - 1)
        }),
{
    if ts.len() > 0 && stack.len() > 0 {
        let stk = stack.drop_last();
        lemma_comment_scan_bounds(ts.drop_first(), stk.push(Rule::Char).push(Rule::CloseComm), line);
        lemma_comment_scan_bounds(ts.drop_first(), stk.push(Rule::CloseSquare).push(Rule::CloseComm), line);
        lemma_garbage_scan_bounds(ts.drop_first(), stk, line);
    }
}

/// A working step of reading a path that reads no token only drops the
/// rule on top of the stack: an escape with no token after it.
pub proof fn lemma_path_step_quiet(st: PathState, stack: Seq<Rule>, ts: Seq<(Token, Seq<char>)>, line: int)
    ensures
        ({
            let s = path_step(st, stack, ts, line);
            s.4 is Working && s.2 == 0 ==> stack.len() > 0 && s.1 == stack.drop_last() && s.3 == line
        }),
{
    let s = path_step(st, stack, ts, line);
    if stack.len() > 0 && ts.len() > 0 {
        let stk = stack.drop_last();
        lemma_comment_scan_bounds(ts.drop_first(), stk.push(Rule::Char).push(Rule::CloseComm), line);
        lemma_comment_scan_bounds(ts.drop_first(), stk.push(Rule::CloseSquare).push(Rule::CloseComm), line);
        lemma_garbage_scan_bounds(ts.drop_first(), stk, line);
        assert(s.4 is Working ==> s.2 >= 1);
    }
}

/// What one step of reading a path came to.
#[derive(Debug)]
pub enum PathStep {
    /// Go on stepping.
    Working,
    /// A math block opened: evaluate it on the cursor and hand the numbers
    /// to `add_numbers` with this `in_list`.
    NeedMath { in_list: bool },
    /// The path ended with its line: these are the paths.
    Done(Vec<String>),
    /// A syntax error.
    Failed(String),
}

/// The outcome that a step reports.
pub open spec fn step_outcome(s: PathStep) -> PathOutcome {
    match s {
        PathStep::Working => PathOutcome::Working,
        PathStep::NeedMath { in_list } => PathOutcome::NeedMath(in_list),
        PathStep::Done(paths) => PathOutcome::Done(texts(paths@)),
        PathStep::Failed(m) => PathOutcome::Failed(m@),
    }
}

/// Every string of `items` with `suffix` added at its end.
fn each_appended(items: &Vec<String>, suffix: &str) -> (r: Vec<String>)
    ensures
        texts(r@) == appended(texts(items@), suffix@),
{
    let mut r: Vec<String> = Vec::new();
    let mut i: usize = 0;
    while i < items.len()
        invariant
            0 <= i <= items@.len(),
            texts(r@) == appended(texts(items@), suffix@).take(i as int),
        decreases items@.len() - i,
    {
        let mut s = items[i].clone();
        push_text(&mut s, suffix);
        let ghost before = r@;
        r.push(s);
        proof {
            lemma_texts_push(before, s);
            assert(appended(texts(items@), suffix@).take(i + 1) =~= appended(texts(items@), suffix@).take(
                i as int,
            ).push(s@));
        }
        i = i + 1;
    }
    assert(appended(texts(items@), suffix@).take(items@.len() as int) =~= appended(texts(items@), suffix@));
    r
}

/// Every string of `ps` followed by every string of `ns`.
fn product_texts(ps: &Vec<String>, ns: &Vec<String>) -> (r: Vec<String>)
    ensures
        texts(r@) == product(texts(ps@), texts(ns@)),
{
    let ghost nv = texts(ns@);
    let mut r: Vec<String> = Vec::new();
    let mut i: usize = 0;
    assert(texts(ps@).take(0) =~= Seq::<Seq<char>>::empty());
    while i < ps.len()
        invariant
            0 <= i <= ps@.len(),
            nv == texts(ns@),
            texts(r@) == product(texts(ps@).take(i as int), nv),
        decreases ps@.len() - i,
    {
        let ghost p = ps@[i as int]@;
        let ghost base = texts(r@);
        let mut j: usize = 0;
        while j < ns.len()
            invariant
                0 <= i < ps@.len(),
                0 <= j <= ns@.len(),
                nv == texts(ns@),
                p == ps@[i as int]@,
                texts(r@) == base + nv.take(j as int).map_values(|n: Seq<char>| p + n),
            decreases ns@.len() - j,
        {
            let mut s = ps[i].clone();
            push_text(&mut s, ns[j].as_str());
            let ghost before = r@;
            r.push(s);
            proof {
                lemma_texts_push(before, s);
                assert(nv.take(j + 1).map_values(|n: Seq<char>| p + n) =~= nv.take(j as int).map_values(
                    |n: Seq<char>| p + n,
                ).push(p + nv[j as int]));
            }
            j = j + 1;
        }
        proof {
            let pt = texts(ps@).take(i + 1);
            assert(pt.drop_last() =~= texts(ps@).take(i as int));
            assert(pt.last() == p);
            assert(nv.take(ns@.len() as int) =~= nv);
        }
        i = i + 1;
    }
    assert(texts(ps@).take(ps@.len() as int) =~= texts(ps@));
    r
}

/// The state of reading one path setting.
pub struct PathParse {
    paths: Vec<String>,
    list_items: Vec<String>,
    list_item: Vec<String>,
    pos_ws: String,
}

impl PathParse {
    pub closed spec fn state(&self) -> PathState {
        (texts(self.paths@), texts(self.list_items@), texts(self.list_item@), self.pos_ws@)
    }

    /// Reads the assignment mark that opens a path setting; the path then
    /// starts empty, with a plain segment to read.
    pub fn begin(cursor: &mut ParseCursor) -> (r: Result<PathParse, String>)
        requires
            old(cursor).lines_fit(),
        ensures
            final(cursor).lines_fit(),
            ({
                let a = asn_scan(token_views(old(cursor).tokens), old(cursor).stack@, old(cursor).line_number as int);
                &&& token_views(final(cursor).tokens) == token_views(old(cursor).tokens).skip(a.0)
                &&& final(cursor).line_number == a.2
                &&& match r {
                    Ok(p) => {
                        &&& a.3 is None
                        &&& final(cursor).stack@ == a.1.push(Rule::Char)
                        &&& p.state() == (
                            seq![Seq::<char>::empty()],
                            Seq::<Seq<char>>::empty(),
                            seq![Seq::<char>::empty()],
                            Seq::<char>::empty(),
                        )
                    },
                    Err(m) => a.3 == Some(m@) && final(cursor).stack@ == a.1,
                }
            }),
    {
        if let Err(message) = cursor.parse_asn() {
            return Err(message);
        }
        cursor.stack.push(Rule::Char);
        let mut paths: Vec<String> = Vec::new();
        paths.push(String::new());
        let mut list_item: Vec<String> = Vec::new();
        list_item.push(String::new());
        let p = PathParse { paths, list_items: Vec::new(), list_item, pos_ws: String::new() };
        assert(p.state().0 =~= seq![Seq::<char>::empty()]);
        assert(p.state().1 =~= Seq::<Seq<char>>::empty());
        assert(p.state().2 =~= seq![Seq::<char>::empty()]);
        Ok(p)
    }

    /// Adds the waiting white space and `lex` to every path.
    fn add_segment(&mut self, lex: &str)
        ensures
            final(self).state() == with_segment(old(self).state(), lex@),
    {
        let mut suffix = self.pos_ws.clone();
        push_text(&mut suffix, lex);
        self.paths = each_appended(&self.paths, suffix.as_str());
        self.pos_ws = String::new();
    }

    /// Adds the waiting white space and `lex` to every alternative of the
    /// list item.
    fn add_item_segment(&mut self, lex: &str)
        ensures
            final(self).state() == with_item_segment(old(self).state(), lex@),
    {
        let mut suffix = self.pos_ws.clone();
        push_text(&mut suffix, lex);
        self.list_item = each_appended(&self.list_item, suffix.as_str());
        self.pos_ws = String::new();
    }

    /// Closes a list: every path is followed by every item.
    fn close_list(&mut self)
        ensures
            final(self).state() == with_list_closed(old(self).state()),
    {
        let ghost st = self.state();
        if self.list_item.len() == 1 && !(self.list_item[0] == String::new()) {
            let item = self.list_item[0].clone();
            let ghost before = self.list_items@;
            self.list_items.push(item);
            proof {
                lemma_texts_push(before, item);
                assert(texts(self.list_items@) =~= st.1 + st.2);
            }
        }
        self.paths = product_texts(&self.paths, &self.list_items);
        self.list_items = Vec::new();
        let mut item: Vec<String> = Vec::new();
        item.push(String::new());
        self.list_item = item;
        self.pos_ws = String::new();
        assert(texts(self.list_items@) =~= Seq::<Seq<char>>::empty());
        assert(texts(self.list_item@) =~= seq![Seq::<char>::empty()]);
    }

    /// The numbers of an evaluated math block (as texts) multiply the list
    /// items when it stood in a list, the paths otherwise.
    pub fn add_numbers(&mut self, in_list: bool, numbers: Vec<String>)
        ensures
            ({
                let s = old(self).state();
                let ns = texts(numbers@);
                final(self).state() == if in_list {
                    (s.0, product(s.1, ns), s.2, s.3)
                } else {
                    (product(s.0, ns), s.1, s.2, s.3)
                }
            }),
    {
        if in_list {
            self.list_items = product_texts(&self.list_items, &numbers);
        } else {
            self.paths = product_texts(&self.paths, &numbers);
        }
    }

    /// Carries out the rule at the top of the cursor's stack.
    pub fn step(&mut self, cursor: &mut ParseCursor) -> (r: PathStep)
        requires
            old(cursor).lines_fit(),
        ensures
            final(cursor).lines_fit(),
            ({
                let s = path_step(
                    old(self).state(),
                    old(cursor).stack@,
                    token_views(old(cursor).tokens),
                    old(cursor).line_number as int,
                );
                &&& final(self).state() == s.0
                &&& final(cursor).stack@ == s.1
                &&& token_views(final(cursor).tokens) == token_views(old(cursor).tokens).skip(s.2)
                &&& final(cursor).line_number == s.3
                &&& step_outcome(r) == s.4
            }),
    {
        let ghost ts0 = token_views(cursor.tokens);
        let ghost stack0 = cursor.stack@;
        let ghost line0 = cursor.line_number as int;
        assert(ts0.skip(0) =~= ts0);
        let rule = match cursor.stack.pop() {
            Some(rule) => rule,
            None => {
                return PathStep::Failed(String::from_str("Unexpected End of File While Parsing Path"));
            },
        };
        if rule != Rule::Char && rule != Rule::EscapedChar && rule != Rule::CloseSquare && rule
            != Rule::CloseSquareEscaped {
            return PathStep::Failed(String::from_str("Unexpected End of File While Parsing Path"));
        }
        let unit = match cursor.tokens.pop_front() {
            Some(unit) => unit,
            None => {
                if rule == Rule::EscapedChar || rule == Rule::CloseSquareEscaped {
                    return PathStep::Working;
                }
                return PathStep::Failed(String::from_str("Unexpected End of File While Parsing Path"));
            },
        };
        proof {
            assert(unit@ == ts0[0]);
            assert(token_views(cursor.tokens) =~= ts0.drop_first());
            assert(ts0.drop_first() =~= ts0.skip(1));
        }
        let token = unit.get_token();
        let lex = unit.get_lexime();
        if rule == Rule::EscapedChar {
            cursor.stack.push(Rule::Char);
            self.add_segment(lex.as_str());
            return PathStep::Working;
        }
        if rule == Rule::CloseSquareEscaped {
            cursor.stack.push(Rule::CloseSquare);
            self.add_item_segment(lex.as_str());
            return PathStep::Working;
        }
        let in_list = rule == Rule::CloseSquare;
        // the rule that keeps reading after this token
        let again = if in_list {
            Rule::CloseSquare
        } else {
            Rule::Char
        };
        match token {
            Token::EndL => {
                if in_list {
                    // the end of a line cannot appear in a list
                    cursor.tokens.push_front(unit);
                    assert(token_views(cursor.tokens) =~= ts0.skip(0));
                    return PathStep::Failed(String::from_str("Unexpected New-Line in Path List"));
                }
                // found the end of the line/statement
                let paths = self.paths.clone();
                assert(paths@ =~= self.paths@);
                PathStep::Done(paths)
            },
            Token::Esc => {
                if in_list {
                    cursor.stack.push(Rule::CloseSquareEscaped);
                } else {
                    cursor.stack.push(Rule::EscapedChar);
                }
                PathStep::Working
            },
            Token::WhiteSpace => {
                cursor.stack.push(again);
                push_text(&mut self.pos_ws, lex.as_str());
                PathStep::Working
            },
            Token::OpenComm => {
                cursor.stack.push(again);
                cursor.stack.push(Rule::CloseComm);
                proof {
                    lemma_comment_scan_bounds(ts0.skip(1), cursor.stack@, line0);
                }
                cursor.parse_comment();
                proof {
                    let c = comment_scan(ts0.skip(1), stack0.drop_last().push(again).push(Rule::CloseComm), line0);
                    assert(ts0.skip(1).skip(c.0) =~= ts0.skip(1 + c.0));
                }
                PathStep::Working
            },
            Token::OpenSquare => {
                proof {
                    lemma_garbage_scan_bounds(ts0.skip(1), cursor.stack@, line0);
                }
                let cleared = cursor.parse_clear_garbage();
                proof {
                    let g = garbage_scan(ts0.skip(1), stack0.drop_last(), line0);
                    assert(ts0.skip(1).skip(g.0) =~= ts0.skip(1 + g.0));
                }
                if let Err(message) = cleared {
                    return PathStep::Failed(message);
                }
                if !in_list {
                    cursor.stack.push(Rule::Char);
                }
                cursor.stack.push(Rule::CloseSquare);
                PathStep::Working
            },
            Token::CloseSquare if in_list => {
                self.pos_ws = String::new();
                let n = cursor.stack.len();
                if n == 0 || (cursor.stack[n - 1] != Rule::CloseSquare && cursor.stack[n - 1]
                    != Rule::CloseSquareNotComma) {
                    self.close_list();
                    PathStep::Working
                } else {
                    proof {
                        lemma_garbage_scan_bounds(ts0.skip(1), cursor.stack@, line0);
                    }
                    let cleared = cursor.parse_clear_garbage();
                    proof {
                        let g = garbage_scan(ts0.skip(1), stack0.drop_last(), line0);
                        assert(ts0.skip(1).skip(g.0) =~= ts0.skip(1 + g.0));
                    }
                    match cleared {
                        Err(message) => PathStep::Failed(message),
                        Ok(()) => PathStep::Working,
                    }
                }
            },
            Token::OpenCurl => {
                cursor.stack.push(again);
                cursor.stack.push(Rule::CloseCurl);
                PathStep::NeedMath { in_list }
            },
            _ => {
                cursor.stack.push(again);
                if in_list {
                    self.add_item_segment(lex.as_str());
                } else {
                    self.add_segment(lex.as_str());
                }
                PathStep::Working
            },
        }
    }
}

} // verus!

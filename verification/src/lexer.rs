//! The lexer of the configuration language: a finite-state machine that turns
//! the characters of a configuration file into tokens and their leximes.
use vstd::prelude::*;
use std::collections::VecDeque;
use crate::text::push_char;

verus! {

/// The tokens of the configuration language.
#[derive(Debug, Clone, Copy, PartialEq, Eq, Structural)]
pub enum Token {
    // keywords
    File,
    LibPath,
    MaxHist,
    TopSngLen,
    TopAlbLen,
    TopArtLen,
    TopDecay,
    // list
    OpenSquare,
    CloseSquare,
    // math
    OpenCurl,
    CloseCurl,
    // parenthesis
    OpenParen,
    CloseParen,
    // comments
    OpenComm,
    CloseComm,
    // ops
    Asn,
    Plus,
    Dash,
    Star,
    Slash,
    Carrot,
    Percent,
    Dot,
    Esc,
    EndL,
    // lexime needed
    Num,
    String,
    WhiteSpace,
    // special
    NegativeMult,
}

/// A token together with the text it was read from.
#[derive(Debug)]
pub struct LexicalUnit {
    token: Token,
    lexime: String,
}

impl View for LexicalUnit {
    type V = (Token, Seq<char>);

    closed spec fn view(&self) -> (Token, Seq<char>) {
        (self.token, self.lexime@)
    }
}

impl LexicalUnit {
    /// A unit of the given token and text.
    pub fn new(token: Token, lexime: String) -> (r: LexicalUnit)
        ensures
            r@ == (token, lexime@),
    {
        LexicalUnit { token, lexime }
    }

    pub fn get_token(&self) -> (r: Token)
        ensures
            r == self@.0,
    {
        self.token
    }

    pub fn get_lexime(&self) -> (r: String)
        ensures
            r@ == self@.1,
    {
        self.lexime.clone()
    }
}

/// The views of a sequence of units.
pub open spec fn unit_views(units: Seq<LexicalUnit>) -> Seq<(Token, Seq<char>)> {
    units.map_values(|u: LexicalUnit| u@)
}

// ---------------------------------------------------------------------------
// The machine's states

#[derive(Debug, Clone, Copy, PartialEq, Eq, Structural)]
pub enum SubMachine {
    StartMachine,
    CommStartMachine,
    CommEndMachine,
    WSMachine,
    NumMachine,
    FileMachine(FileState),
    LibPathMachine(LibPathState),
    MaxHistMachine(MaxHistState),
    TopMachine(TopState),
    TopSngLenMachine(TopSngLenState),
    TopAlbLenMachine(TopAlbLenState),
    TopArtLenMachine(TopArtLenState),
    TopDecayMachine(TopDecayState),
    StringMachine,
}

#[derive(Debug, Clone, Copy, PartialEq, Eq, Structural)]
pub enum FileState {
    F,
    Fi,
    Fil,
}

#[derive(Debug, Clone, Copy, PartialEq, Eq, Structural)]
pub enum LibPathState {
    L,
    Li,
    Lib,
    Libr,
    Libra,
    Librar,
    Library,
    LibraryP,
    LibraryPa,
    LibraryPat,
}

#[derive(Debug, Clone, Copy, PartialEq, Eq, Structural)]
pub enum MaxHistState {
    M,
    Ma,
    Max,
    MaxH,
    MaxHi,
    MaxHis,
    MaxHist,
    MaxHisto,
    MaxHistor,
}

#[derive(Debug, Clone, Copy, PartialEq, Eq, Structural)]
pub enum TopState {
    T,
    To,
    Top,
    TopA,
}

#[derive(Debug, Clone, Copy, PartialEq, Eq, Structural)]
pub enum TopSngLenState {
    S,
    So,
    Son,
    Song,
    Songs,
    SongsL,
    SongsLe,
}

#[derive(Debug, Clone, Copy, PartialEq, Eq, Structural)]
pub enum TopAlbLenState {
    Al,
    Alb,
    Albu,
    Album,
    Albums,
    AlbumsL,
    AlbumsLe,
}

#[derive(Debug, Clone, Copy, PartialEq, Eq, Structural)]
pub enum TopArtLenState {
    Ar,
    Art,
    Arti,
    Artis,
    Artist,
    Artists,
    ArtistsL,
    ArtistsLe,
}

#[derive(Debug, Clone, Copy, PartialEq, Eq, Structural)]
pub enum TopDecayState {
    D,
    De,
    Dec,
    Deca,
    Decay,
    DecayR,
    DecayRa,
    DecayRat,
}

// ---------------------------------------------------------------------------
// The transition function, as a specification

/// Horizontal or vertical white space: tab through carriage return, and space.
pub open spec fn is_layout(c: char) -> bool {
    (9 <= c as u32 && c as u32 <= 13) || c == ' '
}

/// A line ends at a line feed or a carriage return.
pub open spec fn is_line_end(c: char) -> bool {
    c == '\n' || c == '\r'
}

pub open spec fn is_digit(c: char) -> bool {
    '0' as u32 <= c as u32 && c as u32 <= '9' as u32
}

/// `c` is the letter whose capital is `upper` and whose small form is `lower`.
pub open spec fn letter(c: char, upper: char, lower: char) -> bool {
    c == upper || c == lower
}

/// The token that a single symbol makes on its own, read from the start state.
pub open spec fn single_token(c: char) -> Option<Token> {
    if c == '[' {
        Some(Token::OpenSquare)
    } else if c == ']' {
        Some(Token::CloseSquare)
    } else if c == '{' {
        Some(Token::OpenCurl)
    } else if c == '}' {
        Some(Token::CloseCurl)
    } else if c == '(' {
        Some(Token::OpenParen)
    } else if c == ')' {
        Some(Token::CloseParen)
    } else if c == '=' {
        Some(Token::Asn)
    } else if c == '+' {
        Some(Token::Plus)
    } else if c == '-' {
        Some(Token::Dash)
    } else if c == '^' {
        Some(Token::Carrot)
    } else if c == '%' {
        Some(Token::Percent)
    } else if c == '\\' {
        Some(Token::Esc)
    } else if c == '.' {
        Some(Token::Dot)
    } else if is_line_end(c) {
        Some(Token::EndL)
    } else {
        None
    }
}

/// The state that a symbol which makes no token on its own leads to from the
/// start state.
pub open spec fn start_target(c: char) -> SubMachine {
    if c == '*' {
        SubMachine::CommEndMachine
    } else if c == '/' {
        SubMachine::CommStartMachine
    } else if is_layout(c) {
        SubMachine::WSMachine
    } else if is_digit(c) {
        SubMachine::NumMachine
    } else if letter(c, 'F', 'f') {
        SubMachine::FileMachine(FileState::F)
    } else if letter(c, 'L', 'l') {
        SubMachine::LibPathMachine(LibPathState::L)
    } else if letter(c, 'M', 'm') {
        SubMachine::MaxHistMachine(MaxHistState::M)
    } else if letter(c, 'T', 't') {
        SubMachine::TopMachine(TopState::T)
    } else {
        SubMachine::StringMachine
    }
}

/// A symbol ends a string (or an unfinished keyword) when it makes a token of
/// its own, or begins a comment mark, white space or a number.
pub open spec fn ends_string(c: char) -> bool {
    single_token(c) is Some || c == '*' || c == '/' || is_layout(c) || is_digit(c)
}

/// Inside a string: a symbol that ends it yields the string's token, any other
/// symbol extends it.
pub open spec fn string_step(c: char) -> (SubMachine, Option<Token>) {
    if ends_string(c) {
        (SubMachine::StartMachine, Some(Token::String))
    } else {
        (SubMachine::StringMachine, None)
    }
}

/// Within a keyword: the next letter `upper`/`lower` leads on to `next`, any
/// other symbol turns the word read so far into a string.
pub open spec fn key_step(c: char, upper: char, lower: char, next: SubMachine) -> (SubMachine, Option<Token>) {
    if letter(c, upper, lower) {
        (next, None)
    } else {
        string_step(c)
    }
}

/// The last letter of a keyword completes it.
pub open spec fn key_last(c: char, upper: char, lower: char, t: Token) -> (SubMachine, Option<Token>) {
    if letter(c, upper, lower) {
        (SubMachine::StartMachine, Some(t))
    } else {
        string_step(c)
    }
}

pub open spec fn file_step(s: FileState, c: char) -> (SubMachine, Option<Token>) {
    match s {
        FileState::F => key_step(c, 'I', 'i', SubMachine::FileMachine(FileState::Fi)),
        FileState::Fi => key_step(c, 'L', 'l', SubMachine::FileMachine(FileState::Fil)),
        // only a small `e` completes `file`
        FileState::Fil => key_last(c, 'e', 'e', Token::File),
    }
}

pub open spec fn lib_path_step(s: LibPathState, c: char) -> (SubMachine, Option<Token>) {
    match s {
        LibPathState::L => key_step(c, 'I', 'i', SubMachine::LibPathMachine(LibPathState::Li)),
        LibPathState::Li => key_step(c, 'B', 'b', SubMachine::LibPathMachine(LibPathState::Lib)),
        LibPathState::Lib => key_step(c, 'R', 'r', SubMachine::LibPathMachine(LibPathState::Libr)),
        LibPathState::Libr => key_step(c, 'A', 'a', SubMachine::LibPathMachine(LibPathState::Libra)),
        LibPathState::Libra => key_step(c, 'R', 'r', SubMachine::LibPathMachine(LibPathState::Librar)),
        LibPathState::Librar => key_step(c, 'Y', 'y', SubMachine::LibPathMachine(LibPathState::Library)),
        LibPathState::Library => key_step(c, 'P', 'p', SubMachine::LibPathMachine(LibPathState::LibraryP)),
        LibPathState::LibraryP => key_step(c, 'A', 'a', SubMachine::LibPathMachine(LibPathState::LibraryPa)),
        LibPathState::LibraryPa => key_step(c, 'T', 't', SubMachine::LibPathMachine(LibPathState::LibraryPat)),
        LibPathState::LibraryPat => key_last(c, 'H', 'h', Token::LibPath),
    }
}

pub open spec fn max_hist_step(s: MaxHistState, c: char) -> (SubMachine, Option<Token>) {
    match s {
        MaxHistState::M => key_step(c, 'A', 'a', SubMachine::MaxHistMachine(MaxHistState::Ma)),
        MaxHistState::Ma => key_step(c, 'X', 'x', SubMachine::MaxHistMachine(MaxHistState::Max)),
        MaxHistState::Max => key_step(c, 'H', 'h', SubMachine::MaxHistMachine(MaxHistState::MaxH)),
        MaxHistState::MaxH => key_step(c, 'I', 'i', SubMachine::MaxHistMachine(MaxHistState::MaxHi)),
        MaxHistState::MaxHi => key_step(c, 'S', 's', SubMachine::MaxHistMachine(MaxHistState::MaxHis)),
        MaxHistState::MaxHis => key_step(c, 'T', 't', SubMachine::MaxHistMachine(MaxHistState::MaxHist)),
        MaxHistState::MaxHist => key_step(c, 'O', 'o', SubMachine::MaxHistMachine(MaxHistState::MaxHisto)),
        MaxHistState::MaxHisto => key_step(c, 'R', 'r', SubMachine::MaxHistMachine(MaxHistState::MaxHistor)),
        MaxHistState::MaxHistor => key_last(c, 'Y', 'y', Token::MaxHist),
    }
}

pub open spec fn top_step(s: TopState, c: char) -> (SubMachine, Option<Token>) {
    match s {
        TopState::T => key_step(c, 'O', 'o', SubMachine::TopMachine(TopState::To)),
        TopState::To => key_step(c, 'P', 'p', SubMachine::TopMachine(TopState::Top)),
        TopState::Top => if letter(c, 'A', 'a') {
            (SubMachine::TopMachine(TopState::TopA), None)
        } else if letter(c, 'D', 'd') {
            (SubMachine::TopDecayMachine(TopDecayState::D), None)
        } else if letter(c, 'S', 's') {
            (SubMachine::TopSngLenMachine(TopSngLenState::S), None)
        } else {
            string_step(c)
        },
        TopState::TopA => if letter(c, 'L', 'l') {
            (SubMachine::TopAlbLenMachine(TopAlbLenState::Al), None)
        } else if letter(c, 'R', 'r') {
            (SubMachine::TopArtLenMachine(TopArtLenState::Ar), None)
        } else {
            string_step(c)
        },
    }
}

pub open spec fn sng_len_step(s: TopSngLenState, c: char) -> (SubMachine, Option<Token>) {
    match s {
        TopSngLenState::S => key_step(c, 'O', 'o', SubMachine::TopSngLenMachine(TopSngLenState::So)),
        TopSngLenState::So => key_step(c, 'N', 'n', SubMachine::TopSngLenMachine(TopSngLenState::Son)),
        TopSngLenState::Son => key_step(c, 'G', 'g', SubMachine::TopSngLenMachine(TopSngLenState::Song)),
        TopSngLenState::Song => key_step(c, 'S', 's', SubMachine::TopSngLenMachine(TopSngLenState::Songs)),
        TopSngLenState::Songs => key_step(c, 'L', 'l', SubMachine::TopSngLenMachine(TopSngLenState::SongsL)),
        TopSngLenState::SongsL => key_step(c, 'E', 'e', SubMachine::TopSngLenMachine(TopSngLenState::SongsLe)),
        TopSngLenState::SongsLe => key_last(c, 'N', 'n', Token::TopSngLen),
    }
}

pub open spec fn alb_len_step(s: TopAlbLenState, c: char) -> (SubMachine, Option<Token>) {
    match s {
        TopAlbLenState::Al => key_step(c, 'B', 'b', SubMachine::TopAlbLenMachine(TopAlbLenState::Alb)),
        TopAlbLenState::Alb => key_step(c, 'U', 'u', SubMachine::TopAlbLenMachine(TopAlbLenState::Albu)),
        TopAlbLenState::Albu => key_step(c, 'M', 'm', SubMachine::TopAlbLenMachine(TopAlbLenState::Album)),
        TopAlbLenState::Album => key_step(c, 'S', 's', SubMachine::TopAlbLenMachine(TopAlbLenState::Albums)),
        TopAlbLenState::Albums => key_step(c, 'L', 'l', SubMachine::TopAlbLenMachine(TopAlbLenState::AlbumsL)),
        TopAlbLenState::AlbumsL => key_step(c, 'E', 'e', SubMachine::TopAlbLenMachine(TopAlbLenState::AlbumsLe)),
        TopAlbLenState::AlbumsLe => key_last(c, 'N', 'n', Token::TopAlbLen),
    }
}

pub open spec fn art_len_step(s: TopArtLenState, c: char) -> (SubMachine, Option<Token>) {
    match s {
        TopArtLenState::Ar => key_step(c, 'T', 't', SubMachine::TopArtLenMachine(TopArtLenState::Art)),
        TopArtLenState::Art => key_step(c, 'I', 'i', SubMachine::TopArtLenMachine(TopArtLenState::Arti)),
        TopArtLenState::Arti => key_step(c, 'S', 's', SubMachine::TopArtLenMachine(TopArtLenState::Artis)),
        TopArtLenState::Artis => key_step(c, 'T', 't', SubMachine::TopArtLenMachine(TopArtLenState::Artist)),
        TopArtLenState::Artist => key_step(c, 'S', 's', SubMachine::TopArtLenMachine(TopArtLenState::Artists)),
        TopArtLenState::Artists => key_step(c, 'L', 'l', SubMachine::TopArtLenMachine(TopArtLenState::ArtistsL)),
        TopArtLenState::ArtistsL => key_step(c, 'E', 'e', SubMachine::TopArtLenMachine(TopArtLenState::ArtistsLe)),
        TopArtLenState::ArtistsLe => key_last(c, 'N', 'n', Token::TopArtLen),
    }
}

pub open spec fn decay_step(s: TopDecayState, c: char) -> (SubMachine, Option<Token>) {
    match s {
        TopDecayState::D => key_step(c, 'E', 'e', SubMachine::TopDecayMachine(TopDecayState::De)),
        TopDecayState::De => key_step(c, 'C', 'c', SubMachine::TopDecayMachine(TopDecayState::Dec)),
        TopDecayState::Dec => key_step(c, 'A', 'a', SubMachine::TopDecayMachine(TopDecayState::Deca)),
        TopDecayState::Deca => key_step(c, 'Y', 'y', SubMachine::TopDecayMachine(TopDecayState::Decay)),
        TopDecayState::Decay => key_step(c, 'R', 'r', SubMachine::TopDecayMachine(TopDecayState::DecayR)),
        TopDecayState::DecayR => key_step(c, 'A', 'a', SubMachine::TopDecayMachine(TopDecayState::DecayRa)),
        TopDecayState::DecayRa => key_step(c, 'T', 't', SubMachine::TopDecayMachine(TopDecayState::DecayRat)),
        TopDecayState::DecayRat => key_last(c, 'E', 'e', Token::TopDecay),
    }
}

/// One move of the machine: the state it reaches on `c`, and the token that
/// the move finishes, if any.
pub open spec fn step(s: SubMachine, c: char) -> (SubMachine, Option<Token>) {
    match s {
        SubMachine::StartMachine => match single_token(c) {
            Some(t) => (SubMachine::StartMachine, Some(t)),
            None => (start_target(c), None),
        },
        SubMachine::CommStartMachine => (
            SubMachine::StartMachine,
            Some(if c == '*' { Token::OpenComm } else { Token::Slash }),
        ),
        SubMachine::CommEndMachine => (
            SubMachine::StartMachine,
            Some(if c == '/' { Token::CloseComm } else { Token::Star }),
        ),
        SubMachine::WSMachine => if is_layout(c) && !is_line_end(c) {
            (SubMachine::WSMachine, None)
        } else {
            (SubMachine::StartMachine, Some(Token::WhiteSpace))
        },
        SubMachine::NumMachine => if is_digit(c) {
            (SubMachine::NumMachine, None)
        } else {
            (SubMachine::StartMachine, Some(Token::Num))
        },
        SubMachine::FileMachine(st) => file_step(st, c),
        SubMachine::LibPathMachine(st) => lib_path_step(st, c),
        SubMachine::MaxHistMachine(st) => max_hist_step(st, c),
        SubMachine::TopMachine(st) => top_step(st, c),
        SubMachine::TopSngLenMachine(st) => sng_len_step(st, c),
        SubMachine::TopAlbLenMachine(st) => alb_len_step(st, c),
        SubMachine::TopArtLenMachine(st) => art_len_step(st, c),
        SubMachine::TopDecayMachine(st) => decay_step(st, c),
        SubMachine::StringMachine => string_step(c),
    }
}

// ---------------------------------------------------------------------------
// The machine

/// The lexer's state machine.
pub struct Machine {
    pub state: SubMachine,
}

impl Machine {
    pub fn new() -> (m: Machine)
        ensures
            m.state == SubMachine::StartMachine,
    {
        Machine { state: SubMachine::StartMachine }
    }

    // exterior function, calls submachine transition functions
    pub fn transition(&mut self, symbol: char) -> (r: Option<Token>)
        ensures
            (final(self).state, r) == step(old(self).state, symbol),
    {
        match self.state {
            SubMachine::StartMachine => { self.start_machine(symbol) },
            SubMachine::CommStartMachine => { self.comm_start_machine(symbol) },
            SubMachine::CommEndMachine => { self.comm_end_machine(symbol) },
            SubMachine::WSMachine => { self.white_space_machine(symbol) },
            SubMachine::NumMachine => { self.num_machine(symbol) },
            SubMachine::FileMachine(state) => { self.key_file_machine(state, symbol) },
            SubMachine::LibPathMachine(state) => { self.key_lib_path_machine(state, symbol) },
            SubMachine::MaxHistMachine(state) => { self.key_max_hist_machine(state, symbol) },
            SubMachine::TopMachine(state) => { self.key_top_machine(state, symbol) },
            SubMachine::TopSngLenMachine(state) => { self.key_sng_len_machine(state, symbol) },
            SubMachine::TopAlbLenMachine(state) => { self.key_alb_len_machine(state, symbol) },
            SubMachine::TopArtLenMachine(state) => { self.key_art_len_machine(state, symbol) },
            SubMachine::TopDecayMachine(state) => { self.key_decay_machine(state, symbol) },
            SubMachine::StringMachine => { self.string_machine(symbol) },
        }
    }

    // all transitions from start state
    fn start_machine(&mut self, symbol: char) -> (r: Option<Token>)
        ensures
            r == single_token(symbol),
            r is Some ==> final(self).state == old(self).state,
            r is None ==> final(self).state == start_target(symbol),
    {
        match symbol {
            // single character tokens
            '[' => { Some(Token::OpenSquare) },
            ']' => { Some(Token::CloseSquare) },
            '{' => { Some(Token::OpenCurl) },
            '}' => { Some(Token::CloseCurl) },
            '(' => { Some(Token::OpenParen) },
            ')' => { Some(Token::CloseParen) },
            '=' => { Some(Token::Asn) },
            '+' => { Some(Token::Plus) },
            '-' => { Some(Token::Dash) },
            '^' => { Some(Token::Carrot) },
            '%' => { Some(Token::Percent) },
            '\\' => { Some(Token::Esc) },
            '.' => { Some(Token::Dot) },
            // possible comment
            '*' => {
                self.state = SubMachine::CommEndMachine;
                None
            },
            '/' => {
                self.state = SubMachine::CommStartMachine;
                None
            },
            // multiple symbols satisfy
            _ => {
                if ((symbol as u32) >= ('\t' as u32) && (symbol as u32) <= ('\r' as u32))
                    || (symbol == ' ') {
                    // end of line
                    if symbol == '\n' || symbol == '\r' {
                        Some(Token::EndL)
                    }
                    // whitespace
                    else {
                        self.state = SubMachine::WSMachine;
                        None
                    }
                }
                // num
                else if (symbol as u32) >= ('0' as u32) && (symbol as u32) <= ('9' as u32) {
                    self.state = SubMachine::NumMachine;
                    None
                }
                // file
                else if symbol == 'F' || symbol == 'f' {
                    self.state = SubMachine::FileMachine(FileState::F);
                    None
                }
                // libpath
                else if symbol == 'L' || symbol == 'l' {
                    self.state = SubMachine::LibPathMachine(LibPathState::L);
                    None
                }
                // maxhist
                else if symbol == 'M' || symbol == 'm' {
                    self.state = SubMachine::MaxHistMachine(MaxHistState::M);
                    None
                }
                // top...
                else if symbol == 'T' || symbol == 't' {
                    self.state = SubMachine::TopMachine(TopState::T);
                    None
                }
                // garbage, anything not matching another symbol is a string
                else {
                    self.state = SubMachine::StringMachine;
                    None
                }
            },
        }
    }

    // checks to see if the symbols form a comment or just a slash ('/') or star ('*')
    fn comm_start_machine(&mut self, symbol: char) -> (r: Option<Token>)
        ensures
            (final(self).state, r) == step(SubMachine::CommStartMachine, symbol),
    {
        if symbol == '*' {
            self.state = SubMachine::StartMachine;
            Some(Token::OpenComm)
        } else {
            self.state = SubMachine::StartMachine;
            Some(Token::Slash)
        }
    }

    fn comm_end_machine(&mut self, symbol: char) -> (r: Option<Token>)
        ensures
            (final(self).state, r) == step(SubMachine::CommEndMachine, symbol),
    {
        if symbol == '/' {
            self.state = SubMachine::StartMachine;
            Some(Token::CloseComm)
        } else {
            self.state = SubMachine::StartMachine;
            Some(Token::Star)
        }
    }

    // continues whitespace token until end of whitespace sequence
    fn white_space_machine(&mut self, symbol: char) -> (r: Option<Token>)
        requires
            old(self).state == SubMachine::WSMachine,
        ensures
            (final(self).state, r) == step(SubMachine::WSMachine, symbol),
    {
        if ((symbol as u32) >= ('\t' as u32) && (symbol as u32) <= ('\r' as u32)) || (symbol == ' ') {
            // end of line
            if symbol == '\n' || symbol == '\r' {
                self.state = SubMachine::StartMachine;
                Some(Token::WhiteSpace)
            }
            // whitespace
            else {
                None
            }
        } else {
            self.state = SubMachine::StartMachine;
            Some(Token::WhiteSpace)
        }
    }

    // continues number token until end of number sequence
    fn num_machine(&mut self, symbol: char) -> (r: Option<Token>)
        requires
            old(self).state == SubMachine::NumMachine,
        ensures
            (final(self).state, r) == step(SubMachine::NumMachine, symbol),
    {
        if (symbol as u32) >= ('0' as u32) && (symbol as u32) <= ('9' as u32) {
            None
        } else {
            self.state = SubMachine::StartMachine;
            Some(Token::Num)
        }
    }

    // continues string token until end of string sequence
    fn string_machine(&mut self, symbol: char) -> (r: Option<Token>)
        ensures
            (final(self).state, r) == string_step(symbol),
    {
        // check if a symbol generates a single-character token
        if let Some(_) = self.start_machine(symbol) {
            self.state = SubMachine::StartMachine;
            Some(Token::String)
        }
        // check if the symbol is recognized by a multi-character
        //  machine, which excludes it from being a string
        else if matches!(self.state,
            SubMachine::CommStartMachine
            | SubMachine::CommEndMachine
            | SubMachine::WSMachine
            | SubMachine::NumMachine) {
            self.state = SubMachine::StartMachine;
            Some(Token::String)
        }
        // otherwise stay in string machine
        //  keyword contain characters from strings, so reset state to string
        else {
            self.state = SubMachine::StringMachine;
            None
        }
    }

    // keyword machines
    //  if a symbol matches the transition path, continue keyword, otherwise string
    fn key_file_machine(&mut self, state: FileState, symbol: char) -> (r: Option<Token>)
        ensures
            (final(self).state, r) == file_step(state, symbol),
    {
        match state {
            FileState::F => {
                if symbol == 'I' || symbol == 'i' {
                    self.state = SubMachine::FileMachine(FileState::Fi);
                    None
                } else {
                    self.string_machine(symbol)
                }
            },
            FileState::Fi => {
                if symbol == 'L' || symbol == 'l' {
                    self.state = SubMachine::FileMachine(FileState::Fil);
                    None
                } else {
                    self.string_machine(symbol)
                }
            },
            FileState::Fil => {
                if symbol == 'e' || symbol == 'e' {
                    self.state = SubMachine::StartMachine;
                    Some(Token::File)
                } else {
                    self.string_machine(symbol)
                }
            },
        }
    }

    fn key_lib_path_machine(&mut self, state: LibPathState, symbol: char) -> (r: Option<Token>)
        ensures
            (final(self).state, r) == lib_path_step(state, symbol),
    {
        match state {
            LibPathState::L => {
                if symbol == 'I' || symbol == 'i' {
                    self.state = SubMachine::LibPathMachine(LibPathState::Li);
                    None
                } else {
                    self.string_machine(symbol)
                }
            },
            LibPathState::Li => {
                if symbol == 'B' || symbol == 'b' {
                    self.state = SubMachine::LibPathMachine(LibPathState::Lib);
                    None
                } else {
                    self.string_machine(symbol)
                }
            },
            LibPathState::Lib => {
                if symbol == 'R' || symbol == 'r' {
                    self.state = SubMachine::LibPathMachine(LibPathState::Libr);
                    None
                } else {
                    self.string_machine(symbol)
                }
            },
            LibPathState::Libr => {
                if symbol == 'A' || symbol == 'a' {
                    self.state = SubMachine::LibPathMachine(LibPathState::Libra);
                    None
                } else {
                    self.string_machine(symbol)
                }
            },
            LibPathState::Libra => {
                if symbol == 'R' || symbol == 'r' {
                    self.state = SubMachine::LibPathMachine(LibPathState::Librar);
                    None
                } else {
                    self.string_machine(symbol)
                }
            },
            LibPathState::Librar => {
                if symbol == 'Y' || symbol == 'y' {
                    self.state = SubMachine::LibPathMachine(LibPathState::Library);
                    None
                } else {
                    self.string_machine(symbol)
                }
            },
            LibPathState::Library => {
                if symbol == 'P' || symbol == 'p' {
                    self.state = SubMachine::LibPathMachine(LibPathState::LibraryP);
                    None
                } else {
                    self.string_machine(symbol)
                }
            },
            LibPathState::LibraryP => {
                if symbol == 'A' || symbol == 'a' {
                    self.state = SubMachine::LibPathMachine(LibPathState::LibraryPa);
                    None
                } else {
                    self.string_machine(symbol)
                }
            },
            LibPathState::LibraryPa => {
                if symbol == 'T' || symbol == 't' {
                    self.state = SubMachine::LibPathMachine(LibPathState::LibraryPat);
                    None
                } else {
                    self.string_machine(symbol)
                }
            },
            LibPathState::LibraryPat => {
                if symbol == 'H' || symbol == 'h' {
                    self.state = SubMachine::StartMachine;
                    Some(Token::LibPath)
                } else {
                    self.string_machine(symbol)
                }
            },
        }
    }

    fn key_max_hist_machine(&mut self, state: MaxHistState, symbol: char) -> (r: Option<Token>)
        ensures
            (final(self).state, r) == max_hist_step(state, symbol),
    {
        match state {
            MaxHistState::M => {
                if symbol == 'A' || symbol == 'a' {
                    self.state = SubMachine::MaxHistMachine(MaxHistState::Ma);
                    None
                } else {
                    self.string_machine(symbol)
                }
            },
            MaxHistState::Ma => {
                if symbol == 'X' || symbol == 'x' {
                    self.state = SubMachine::MaxHistMachine(MaxHistState::Max);
                    None
                } else {
                    self.string_machine(symbol)
                }
            },
            MaxHistState::Max => {
                if symbol == 'H' || symbol == 'h' {
                    self.state = SubMachine::MaxHistMachine(MaxHistState::MaxH);
                    None
                } else {
                    self.string_machine(symbol)
                }
            },
            MaxHistState::MaxH => {
                if symbol == 'I' || symbol == 'i' {
                    self.state = SubMachine::MaxHistMachine(MaxHistState::MaxHi);
                    None
                } else {
                    self.string_machine(symbol)
                }
            },
            MaxHistState::MaxHi => {
                if symbol == 'S' || symbol == 's' {
                    self.state = SubMachine::MaxHistMachine(MaxHistState::MaxHis);
                    None
                } else {
                    self.string_machine(symbol)
                }
            },
            MaxHistState::MaxHis => {
                if symbol == 'T' || symbol == 't' {
                    self.state = SubMachine::MaxHistMachine(MaxHistState::MaxHist);
                    None
                } else {
                    self.string_machine(symbol)
                }
            },
            MaxHistState::MaxHist => {
                if symbol == 'O' || symbol == 'o' {
                    self.state = SubMachine::MaxHistMachine(MaxHistState::MaxHisto);
                    None
                } else {
                    self.string_machine(symbol)
                }
            },
            MaxHistState::MaxHisto => {
                if symbol == 'R' || symbol == 'r' {
                    self.state = SubMachine::MaxHistMachine(MaxHistState::MaxHistor);
                    None
                } else {
                    self.string_machine(symbol)
                }
            },
            MaxHistState::MaxHistor => {
                if symbol == 'Y' || symbol == 'y' {
                    self.state = SubMachine::StartMachine;
                    Some(Token::MaxHist)
                } else {
                    self.string_machine(symbol)
                }
            },
        }
    }

    // recognize the start of 'Top...' keywords
    fn key_top_machine(&mut self, state: TopState, symbol: char) -> (r: Option<Token>)
        ensures
            (final(self).state, r) == top_step(state, symbol),
    {
        match state {
            TopState::T => {
                if symbol == 'O' || symbol == 'o' {
                    self.state = SubMachine::TopMachine(TopState::To);
                    None
                } else {
                    self.string_machine(symbol)
                }
            },
            TopState::To => {
                if symbol == 'P' || symbol == 'p' {
                    self.state = SubMachine::TopMachine(TopState::Top);
                    None
                } else {
                    self.string_machine(symbol)
                }
            },
            TopState::Top => {
                if symbol == 'A' || symbol == 'a' {
                    self.state = SubMachine::TopMachine(TopState::TopA);
                    None
                } else if symbol == 'D' || symbol == 'd' {
                    self.state = SubMachine::TopDecayMachine(TopDecayState::D);
                    None
                } else if symbol == 'S' || symbol == 's' {
                    self.state = SubMachine::TopSngLenMachine(TopSngLenState::S);
                    None
                } else {
                    self.string_machine(symbol)
                }
            },
            TopState::TopA => {
                if symbol == 'L' || symbol == 'l' {
                    self.state = SubMachine::TopAlbLenMachine(TopAlbLenState::Al);
                    None
                } else if symbol == 'R' || symbol == 'r' {
                    self.state = SubMachine::TopArtLenMachine(TopArtLenState::Ar);
                    None
                } else {
                    self.string_machine(symbol)
                }
            },
        }
    }

    fn key_sng_len_machine(&mut self, state: TopSngLenState, symbol: char) -> (r: Option<Token>)
        ensures
            (final(self).state, r) == sng_len_step(state, symbol),
    {
        match state {
            TopSngLenState::S => {
                if symbol == 'O' || symbol == 'o' {
                    self.state = SubMachine::TopSngLenMachine(TopSngLenState::So);
                    None
                } else {
                    self.string_machine(symbol)
                }
            },
            TopSngLenState::So => {
                if symbol == 'N' || symbol == 'n' {
                    self.state = SubMachine::TopSngLenMachine(TopSngLenState::Son);
                    None
                } else {
                    self.string_machine(symbol)
                }
            },
            TopSngLenState::Son => {
                if symbol == 'G' || symbol == 'g' {
                    self.state = SubMachine::TopSngLenMachine(TopSngLenState::Song);
                    None
                } else {
                    self.string_machine(symbol)
                }
            },
            TopSngLenState::Song => {
                if symbol == 'S' || symbol == 's' {
                    self.state = SubMachine::TopSngLenMachine(TopSngLenState::Songs);
                    None
                } else {
                    self.string_machine(symbol)
                }
            },
            TopSngLenState::Songs => {
                if symbol == 'L' || symbol == 'l' {
                    self.state = SubMachine::TopSngLenMachine(TopSngLenState::SongsL);
                    None
                } else {
                    self.string_machine(symbol)
                }
            },
            TopSngLenState::SongsL => {
                if symbol == 'E' || symbol == 'e' {
                    self.state = SubMachine::TopSngLenMachine(TopSngLenState::SongsLe);
                    None
                } else {
                    self.string_machine(symbol)
                }
            },
            TopSngLenState::SongsLe => {
                if symbol == 'N' || symbol == 'n' {
                    self.state = SubMachine::StartMachine;
                    Some(Token::TopSngLen)
                } else {
                    self.string_machine(symbol)
                }
            },
        }
    }

    fn key_alb_len_machine(&mut self, state: TopAlbLenState, symbol: char) -> (r: Option<Token>)
        ensures
            (final(self).state, r) == alb_len_step(state, symbol),
    {
        match state {
            TopAlbLenState::Al => {
                if symbol == 'B' || symbol == 'b' {
                    self.state = SubMachine::TopAlbLenMachine(TopAlbLenState::Alb);
                    None
                } else {
                    self.string_machine(symbol)
                }
            },
            TopAlbLenState::Alb => {
                if symbol == 'U' || symbol == 'u' {
                    self.state = SubMachine::TopAlbLenMachine(TopAlbLenState::Albu);
                    None
                } else {
                    self.string_machine(symbol)
                }
            },
            TopAlbLenState::Albu => {
                if symbol == 'M' || symbol == 'm' {
                    self.state = SubMachine::TopAlbLenMachine(TopAlbLenState::Album);
                    None
                } else {
                    self.string_machine(symbol)
                }
            },
            TopAlbLenState::Album => {
                if symbol == 'S' || symbol == 's' {
                    self.state = SubMachine::TopAlbLenMachine(TopAlbLenState::Albums);
                    None
                } else {
                    self.string_machine(symbol)
                }
            },
            TopAlbLenState::Albums => {
                if symbol == 'L' || symbol == 'l' {
                    self.state = SubMachine::TopAlbLenMachine(TopAlbLenState::AlbumsL);
                    None
                } else {
                    self.string_machine(symbol)
                }
            },
            TopAlbLenState::AlbumsL => {
                if symbol == 'E' || symbol == 'e' {
                    self.state = SubMachine::TopAlbLenMachine(TopAlbLenState::AlbumsLe);
                    None
                } else {
                    self.string_machine(symbol)
                }
            },
            TopAlbLenState::AlbumsLe => {
                if symbol == 'N' || symbol == 'n' {
                    self.state = SubMachine::StartMachine;
                    Some(Token::TopAlbLen)
                } else {
                    self.string_machine(symbol)
                }
            },
        }
    }

    fn key_art_len_machine(&mut self, state: TopArtLenState, symbol: char) -> (r: Option<Token>)
        ensures
            (final(self).state, r) == art_len_step(state, symbol),
    {
        match state {
            TopArtLenState::Ar => {
                if symbol == 'T' || symbol == 't' {
                    self.state = SubMachine::TopArtLenMachine(TopArtLenState::Art);
                    None
                } else {
                    self.string_machine(symbol)
                }
            },
            TopArtLenState::Art => {
                if symbol == 'I' || symbol == 'i' {
                    self.state = SubMachine::TopArtLenMachine(TopArtLenState::Arti);
                    None
                } else {
                    self.string_machine(symbol)
                }
            },
            TopArtLenState::Arti => {
                if symbol == 'S' || symbol == 's' {
                    self.state = SubMachine::TopArtLenMachine(TopArtLenState::Artis);
                    None
                } else {
                    self.string_machine(symbol)
                }
            },
            TopArtLenState::Artis => {
                if symbol == 'T' || symbol == 't' {
                    self.state = SubMachine::TopArtLenMachine(TopArtLenState::Artist);
                    None
                } else {
                    self.string_machine(symbol)
                }
            },
            TopArtLenState::Artist => {
                if symbol == 'S' || symbol == 's' {
                    self.state = SubMachine::TopArtLenMachine(TopArtLenState::Artists);
                    None
                } else {
                    self.string_machine(symbol)
                }
            },
            TopArtLenState::Artists => {
                if symbol == 'L' || symbol == 'l' {
                    self.state = SubMachine::TopArtLenMachine(TopArtLenState::ArtistsL);
                    None
                } else {
                    self.string_machine(symbol)
                }
            },
            TopArtLenState::ArtistsL => {
                if symbol == 'E' || symbol == 'e' {
                    self.state = SubMachine::TopArtLenMachine(TopArtLenState::ArtistsLe);
                    None
                } else {
                    self.string_machine(symbol)
                }
            },
            TopArtLenState::ArtistsLe => {
                if symbol == 'N' || symbol == 'n' {
                    self.state = SubMachine::StartMachine;
                    Some(Token::TopArtLen)
                } else {
                    self.string_machine(symbol)
                }
            },
        }
    }

    fn key_decay_machine(&mut self, state: TopDecayState, symbol: char) -> (r: Option<Token>)
        ensures
            (final(self).state, r) == decay_step(state, symbol),
    {
        match state {
            TopDecayState::D => {
                if symbol == 'E' || symbol == 'e' {
                    self.state = SubMachine::TopDecayMachine(TopDecayState::De);
                    None
                } else {
                    self.string_machine(symbol)
                }
            },
            TopDecayState::De => {
                if symbol == 'C' || symbol == 'c' {
                    self.state = SubMachine::TopDecayMachine(TopDecayState::Dec);
                    None
                } else {
                    self.string_machine(symbol)
                }
            },
            TopDecayState::Dec => {
                if symbol == 'A' || symbol == 'a' {
                    self.state = SubMachine::TopDecayMachine(TopDecayState::Deca);
                    None
                } else {
                    self.string_machine(symbol)
                }
            },
            TopDecayState::Deca => {
                if symbol == 'Y' || symbol == 'y' {
                    self.state = SubMachine::TopDecayMachine(TopDecayState::Decay);
                    None
                } else {
                    self.string_machine(symbol)
                }
            },
            TopDecayState::Decay => {
                if symbol == 'R' || symbol == 'r' {
                    self.state = SubMachine::TopDecayMachine(TopDecayState::DecayR);
                    None
                } else {
                    self.string_machine(symbol)
                }
            },
            TopDecayState::DecayR => {
                if symbol == 'A' || symbol == 'a' {
                    self.state = SubMachine::TopDecayMachine(TopDecayState::DecayRa);
                    None
                } else {
                    self.string_machine(symbol)
                }
            },
            TopDecayState::DecayRa => {
                if symbol == 'T' || symbol == 't' {
                    self.state = SubMachine::TopDecayMachine(TopDecayState::DecayRat);
                    None
                } else {
                    self.string_machine(symbol)
                }
            },
            TopDecayState::DecayRat => {
                if symbol == 'E' || symbol == 'e' {
                    self.state = SubMachine::StartMachine;
                    Some(Token::TopDecay)
                } else {
                    self.string_machine(symbol)
                }
            },
        }
    }
}


// ---------------------------------------------------------------------------
// Reading a whole text

/// Tokens that are only known to be complete when the symbol after them
/// arrives; that symbol is then read again from the start state.
pub open spec fn finished_by_next(t: Token) -> bool {
    t == Token::Slash || t == Token::Star || t == Token::Num || t == Token::String
        || t == Token::WhiteSpace
}

/// The units emitted so far, the symbols read since the last unit, and the
/// machine's state: reading one more symbol `c`.
spec fn lex_symbol(
    units: Seq<(Token, Seq<char>)>,
    pending: Seq<char>,
    s: SubMachine,
    c: char,
) -> (Seq<(Token, Seq<char>)>, Seq<char>, SubMachine) {
    let (s1, t1) = step(s, c);
    match t1 {
        None => (units, pending.push(c), s1),
        Some(t) => if finished_by_next(t) {
            let units1 = units.push((t, pending));
            let (s2, t2) = step(s1, c);
            match t2 {
                Some(u) => (units1.push((u, seq![c])), Seq::empty(), s2),
                None => (units1, seq![c], s2),
            }
        } else {
            (units.push((t, pending.push(c))), Seq::empty(), s1)
        },
    }
}

/// Reading a whole input from the start state.
spec fn lex_run(input: Seq<char>) -> (Seq<(Token, Seq<char>)>, Seq<char>, SubMachine)
    decreases input.len(),
{
    if input.len() == 0 {
        (Seq::empty(), Seq::empty(), SubMachine::StartMachine)
    } else {
        let (units, pending, s) = lex_run(input.drop_last());
        lex_symbol(units, pending, s, input.last())
    }
}

/// The units (token and lexime) that the lexer emits for `input`.
pub closed spec fn lexed(input: Seq<char>) -> Seq<(Token, Seq<char>)> {
    lex_run(input).0
}

/// The symbols at the end of `input` that belong to no emitted unit yet.
pub closed spec fn unfinished(input: Seq<char>) -> Seq<char> {
    lex_run(input).1
}

/// The lexer has read `input` and stands in its start state.
pub closed spec fn at_rest(input: Seq<char>) -> bool {
    lex_run(input).2 == SubMachine::StartMachine
}

/// The text spelled by a sequence of units, one lexime after the other.
pub open spec fn spelled(units: Seq<(Token, Seq<char>)>) -> Seq<char>
    decreases units.len(),
{
    if units.len() == 0 {
        Seq::empty()
    } else {
        spelled(units.drop_last()) + units.last().1
    }
}

fn finishes_by_next(t: Token) -> (r: bool)
    ensures
        r == finished_by_next(t),
{
    match t {
        Token::Slash | Token::Star | Token::Num | Token::String | Token::WhiteSpace => true,
        _ => false,
    }
}

proof fn lemma_lex_push(input: Seq<char>, c: char)
    ensures
        lex_run(input.push(c)) == ({
            let (units, pending, s) = lex_run(input);
            lex_symbol(units, pending, s, c)
        }),
{
    assert(input.push(c).drop_last() =~= input);
}

pub struct Lexer {
    machine: Machine,
    tokens: VecDeque<LexicalUnit>,
}

impl Lexer {
    /// Reads the text of a configuration file into its lexical units.
    /// Symbols after the last complete unit are not emitted.
    pub fn process_text(contents: &str) -> (r: VecDeque<LexicalUnit>)
        ensures
            unit_views(r@) == lexed(contents@),
    {
        // create lexer struct to contain tokens & leximes and the dfa
        let mut lexer = Lexer { machine: Machine::new(), tokens: VecDeque::new() };
        let mut lexime = String::new();
        let ghost input = contents@;
        assert(input.take(0) =~= Seq::<char>::empty());
        for symbol in iter: contents.chars()
            invariant
                input == contents@,
                iter.seq() == input,
                lex_run(input.take(iter.index())) == (
                    unit_views(lexer.tokens@),
                    lexime@,
                    lexer.machine.state,
                ),
        {
            let ghost i = iter.index();
            proof {
                lemma_lex_push(input.take(i), symbol);
                assert(input.take(i).push(symbol) =~= input.take(i + 1));
            }
            let ghost units0 = unit_views(lexer.tokens@);
            let token = lexer.machine.transition(symbol);
            if let Some(token) = token {
                if finishes_by_next(token) {
                    lexer.tokens.push_back(LexicalUnit { token, lexime: lexime.clone() });
                    assert(unit_views(lexer.tokens@) =~= units0.push((token, lexime@)));
                    let ghost units1 = unit_views(lexer.tokens@);
                    lexime = String::new();
                    {
                        let token = lexer.machine.transition(symbol);
                        if let Some(token) = token {
                            push_char(&mut lexime, symbol);
                            lexer.tokens.push_back(LexicalUnit { token, lexime: lexime.clone() });
                            assert(unit_views(lexer.tokens@) =~= units1.push((token, seq![symbol])));
                            lexime = String::new();
                        } else {
                            push_char(&mut lexime, symbol);
                        }
                    }
                } else {
                    push_char(&mut lexime, symbol);
                    lexer.tokens.push_back(LexicalUnit { token, lexime: lexime.clone() });
                    assert(unit_views(lexer.tokens@) =~= units0.push((token, lexime@)));
                    lexime = String::new();
                }
            } else {
                push_char(&mut lexime, symbol);
            }
        }
        assert(input.take(input.len() as int) =~= input);
        // return tokens & leximes
        lexer.tokens
    }
}


// ---------------------------------------------------------------------------
// Laws of the lexer

/// A move finishes a token exactly when it brings the machine back to its
/// start state.
proof fn lemma_step_finishes_at_start(s: SubMachine, c: char)
    ensures
        (step(s, c).1 is Some) <==> (step(s, c).0 == SubMachine::StartMachine),
{
}

/// What holds after reading any input: nothing is lost, units are never
/// empty, and the machine rests exactly when nothing is pending.
proof fn lemma_run(input: Seq<char>)
    ensures
        (lex_run(input).2 == SubMachine::StartMachine) <==> (lex_run(input).1.len() == 0),
        forall|i: int| 0 <= i < lex_run(input).0.len() ==> #[trigger] lex_run(input).0[i].1.len() > 0,
        spelled(lex_run(input).0) + lex_run(input).1 == input,
    decreases input.len(),
{
    if input.len() > 0 {
        let prev = input.drop_last();
        let c = input.last();
        lemma_run(prev);
        assert(prev.push(c) =~= input);
        let (units, pending, s) = lex_run(prev);
        let (s1, t1) = step(s, c);
        lemma_step_finishes_at_start(s, c);
        lemma_step_finishes_at_start(s1, c);
        match t1 {
            None => {
                assert(pending.push(c) =~= pending + seq![c]);
                assert(spelled(units) + pending.push(c) =~= (spelled(units) + pending) + seq![c]);
            },
            Some(t) => {
                if finished_by_next(t) {
                    let units1 = units.push((t, pending));
                    assert(units1.drop_last() =~= units);
                    let (s2, t2) = step(s1, c);
                    match t2 {
                        Some(u) => {
                            let units2 = units1.push((u, seq![c]));
                            assert(units2.drop_last() =~= units1);
                            assert(spelled(units1) == spelled(units) + pending);
                            assert(spelled(units2) == spelled(units1) + seq![c]);
                            assert(spelled(units2) + Seq::<char>::empty() =~= (spelled(units) + pending) + seq![c]);
                        },
                        None => {
                            assert(spelled(units1) + seq![c] =~= (spelled(units) + pending) + seq![c]);
                        },
                    }
                } else {
                    let units1 = units.push((t, pending.push(c)));
                    assert(units1.drop_last() =~= units);
                    assert(spelled(units1) + Seq::<char>::empty() =~= (spelled(units) + pending) + seq![c]);
                }
            },
        }
        assert((spelled(units) + pending) + seq![c] =~= input);
    }
}

/// Reading loses no symbol and invents none: the leximes of the emitted
/// units, followed by the symbols not yet emitted, spell the input.
pub proof fn law_leximes_spell_input(input: Seq<char>)
    ensures
        spelled(lexed(input)) + unfinished(input) == input,
{
    lemma_run(input);
}

/// No emitted unit has an empty lexime.
pub proof fn law_leximes_not_empty(input: Seq<char>)
    ensures
        forall|i: int| 0 <= i < lexed(input).len() ==> #[trigger] lexed(input)[i].1.len() > 0,
{
    lemma_run(input);
}

/// The lexer stands in its start state exactly when no symbol is pending.
pub proof fn law_rest_iff_nothing_pending(input: Seq<char>)
    ensures
        at_rest(input) <==> unfinished(input).len() == 0,
{
    lemma_run(input);
}

/// A line end finishes whatever was being read: the machine goes back to
/// its start state and emits a token, the line end's own or one that the
/// line end completes.
proof fn lemma_line_end_step(s: SubMachine, c: char)
    requires
        is_line_end(c),
    ensures
        step(s, c).0 == SubMachine::StartMachine,
        step(s, c).1 == Some(Token::EndL) || (step(s, c).1 is Some && finished_by_next(step(s, c).1->0)),
{
}

/// An input that ends with a line end (or is empty) leaves nothing
/// unfinished: the lexer is at rest and the leximes spell the whole input.
pub proof fn law_line_end_leaves_nothing_pending(input: Seq<char>)
    requires
        input.len() == 0 || is_line_end(input.last()),
    ensures
        unfinished(input).len() == 0,
        at_rest(input),
        spelled(lexed(input)) == input,
{
    if input.len() > 0 {
        let p = input.drop_last();
        let c = input.last();
        assert(p.push(c) =~= input);
        lemma_lex_push(p, c);
        let (units, pending, st) = lex_run(p);
        lemma_line_end_step(st, c);
        lemma_line_end_step(SubMachine::StartMachine, c);
    }
    law_leximes_spell_input(input);
    assert(spelled(lexed(input)) + Seq::<char>::empty() =~= spelled(lexed(input)));
}

/// Reading more text never takes back a unit already emitted: the units of
/// an input begin the units of any longer input that starts with it.
pub proof fn law_units_only_grow(input: Seq<char>, more: Seq<char>)
    ensures
        lexed(input).len() <= lexed(input + more).len(),
        lexed(input + more).take(lexed(input).len() as int) == lexed(input),
    decreases more.len(),
{
    if more.len() == 0 {
        assert(input + more =~= input);
        assert(lexed(input).take(lexed(input).len() as int) =~= lexed(input));
    } else {
        let shorter = more.drop_last();
        law_units_only_grow(input, shorter);
        assert((input + shorter).push(more.last()) =~= input + more);
        lemma_lex_push(input + shorter, more.last());
        let a = lexed(input);
        let b = lexed(input + shorter);
        let c = lexed(input + more);
        assert(c.len() >= b.len());
        assert forall|i: int| 0 <= i < a.len() implies c[i] == a[i] by {
            assert(b[i] == a[i]);
        }
        assert(c.take(a.len() as int) =~= a);
    }
}

/// The spelling of each keyword, in small letters.
pub open spec fn keyword_spelling(t: Token) -> Seq<char> {
    match t {
        Token::File => seq!['f', 'i', 'l', 'e'],
        Token::LibPath => seq!['l', 'i', 'b', 'r', 'a', 'r', 'y', 'p', 'a', 't', 'h'],
        Token::MaxHist => seq!['m', 'a', 'x', 'h', 'i', 's', 't', 'o', 'r', 'y'],
        Token::TopSngLen => seq!['t', 'o', 'p', 's', 'o', 'n', 'g', 's', 'l', 'e', 'n'],
        Token::TopAlbLen => seq!['t', 'o', 'p', 'a', 'l', 'b', 'u', 'm', 's', 'l', 'e', 'n'],
        Token::TopArtLen => seq!['t', 'o', 'p', 'a', 'r', 't', 'i', 's', 't', 's', 'l', 'e', 'n'],
        Token::TopDecay => seq!['t', 'o', 'p', 'd', 'e', 'c', 'a', 'y', 'r', 'a', 't', 'e'],
        _ => Seq::empty(),
    }
}

/// The capital of a small letter (of those that keywords use).
pub open spec fn capital(c: char) -> char {
    if c == 'a' {
        'A'
    } else if c == 'b' {
        'B'
    } else if c == 'c' {
        'C'
    } else if c == 'd' {
        'D'
    } else if c == 'e' {
        'E'
    } else if c == 'g' {
        'G'
    } else if c == 'h' {
        'H'
    } else if c == 'i' {
        'I'
    } else if c == 'l' {
        'L'
    } else if c == 'm' {
        'M'
    } else if c == 'n' {
        'N'
    } else if c == 'o' {
        'O'
    } else if c == 'p' {
        'P'
    } else if c == 'r' {
        'R'
    } else if c == 's' {
        'S'
    } else if c == 't' {
        'T'
    } else if c == 'u' {
        'U'
    } else if c == 'x' {
        'X'
    } else if c == 'y' {
        'Y'
    } else {
        c
    }
}

/// `w` spells keyword `t` with each letter small or capital; the last letter
/// of `file` only counts in its small form.
pub open spec fn spells_keyword(w: Seq<char>, t: Token) -> bool {
    let k = keyword_spelling(t);
    &&& k.len() > 0
    &&& w.len() == k.len()
    &&& forall|i: int| 0 <= i < w.len() ==> #[trigger] w[i] == k[i] || (w[i] == capital(k[i]) && !(t == Token::File && i == 3))
}


/// One letter of a keyword read while nothing has been emitted yet.
proof fn lemma_keyword_letter(p: Seq<char>, s: SubMachine, c: char, s2: SubMachine)
    requires
        lex_run(p) == (Seq::<(Token, Seq<char>)>::empty(), p, s),
        step(s, c) == (s2, Option::<Token>::None),
    ensures
        lex_run(p.push(c)) == (Seq::<(Token, Seq<char>)>::empty(), p.push(c), s2),
{
    lemma_lex_push(p, c);
}

/// The letter that completes a keyword read from the start.
proof fn lemma_keyword_completed(p: Seq<char>, s: SubMachine, c: char, t: Token)
    requires
        lex_run(p) == (Seq::<(Token, Seq<char>)>::empty(), p, s),
        step(s, c) == (SubMachine::StartMachine, Some(t)),
        !finished_by_next(t),
    ensures
        lex_run(p.push(c)) == (seq![(t, p.push(c))], Seq::<char>::empty(), SubMachine::StartMachine),
{
    lemma_lex_push(p, c);
    assert(Seq::<(Token, Seq<char>)>::empty().push((t, p.push(c))) =~= seq![(t, p.push(c))]);
}

#[verifier::spinoff_prover]
proof fn lemma_reads_file(w: Seq<char>)
    requires
        spells_keyword(w, Token::File),
    ensures
        lex_run(w) == (seq![(Token::File, w)], Seq::<char>::empty(), SubMachine::StartMachine),
{
    let k = keyword_spelling(Token::File);
    assert(k =~= seq!['f', 'i', 'l', 'e']);
    assert(w.take(0) =~= Seq::<char>::empty());
    assert(lex_run(w.take(0)) == (Seq::<(Token, Seq<char>)>::empty(), w.take(0), SubMachine::StartMachine));
    assert(letter(w[0], 'F', 'f')) by {
        assert(w[0] == k[0] || (w[0] == capital(k[0]) && !(Token::File == Token::File && 0 == 3)));
    }
    assert(step(SubMachine::StartMachine, w[0]) == (SubMachine::FileMachine(FileState::F), Option::<Token>::None));
    lemma_keyword_letter(w.take(0), SubMachine::StartMachine, w[0], SubMachine::FileMachine(FileState::F));
    assert(w.take(0).push(w[0]) =~= w.take(1));
    assert(letter(w[1], 'I', 'i')) by {
        assert(w[1] == k[1] || (w[1] == capital(k[1]) && !(Token::File == Token::File && 1 == 3)));
    }
    assert(step(SubMachine::FileMachine(FileState::F), w[1]) == (SubMachine::FileMachine(FileState::Fi), Option::<Token>::None));
    lemma_keyword_letter(w.take(1), SubMachine::FileMachine(FileState::F), w[1], SubMachine::FileMachine(FileState::Fi));
    assert(w.take(1).push(w[1]) =~= w.take(2));
    assert(letter(w[2], 'L', 'l')) by {
        assert(w[2] == k[2] || (w[2] == capital(k[2]) && !(Token::File == Token::File && 2 == 3)));
    }
    assert(step(SubMachine::FileMachine(FileState::Fi), w[2]) == (SubMachine::FileMachine(FileState::Fil), Option::<Token>::None));
    lemma_keyword_letter(w.take(2), SubMachine::FileMachine(FileState::Fi), w[2], SubMachine::FileMachine(FileState::Fil));
    assert(w.take(2).push(w[2]) =~= w.take(3));
    assert(w[3] == 'e') by {
        assert(w[3] == k[3] || (w[3] == capital(k[3]) && !(Token::File == Token::File && 3 == 3)));
    }
    assert(step(SubMachine::FileMachine(FileState::Fil), w[3]) == (SubMachine::StartMachine, Some(Token::File)));
    lemma_keyword_completed(w.take(3), SubMachine::FileMachine(FileState::Fil), w[3], Token::File);
    assert(w.take(3).push(w[3]) =~= w);
}

#[verifier::spinoff_prover]
proof fn lemma_reads_librarypath(w: Seq<char>)
    requires
        spells_keyword(w, Token::LibPath),
    ensures
        lex_run(w) == (seq![(Token::LibPath, w)], Seq::<char>::empty(), SubMachine::StartMachine),
{
    let k = keyword_spelling(Token::LibPath);
    assert(k =~= seq!['l', 'i', 'b', 'r', 'a', 'r', 'y', 'p', 'a', 't', 'h']);
    assert(w.take(0) =~= Seq::<char>::empty());
    assert(lex_run(w.take(0)) == (Seq::<(Token, Seq<char>)>::empty(), w.take(0), SubMachine::StartMachine));
    assert(letter(w[0], 'L', 'l')) by {
        assert(w[0] == k[0] || (w[0] == capital(k[0]) && !(Token::LibPath == Token::File && 0 == 3)));
    }
    assert(step(SubMachine::StartMachine, w[0]) == (SubMachine::LibPathMachine(LibPathState::L), Option::<Token>::None));
    lemma_keyword_letter(w.take(0), SubMachine::StartMachine, w[0], SubMachine::LibPathMachine(LibPathState::L));
    assert(w.take(0).push(w[0]) =~= w.take(1));
    assert(letter(w[1], 'I', 'i')) by {
        assert(w[1] == k[1] || (w[1] == capital(k[1]) && !(Token::LibPath == Token::File && 1 == 3)));
    }
    assert(step(SubMachine::LibPathMachine(LibPathState::L), w[1]) == (SubMachine::LibPathMachine(LibPathState::Li), Option::<Token>::None));
    lemma_keyword_letter(w.take(1), SubMachine::LibPathMachine(LibPathState::L), w[1], SubMachine::LibPathMachine(LibPathState::Li));
    assert(w.take(1).push(w[1]) =~= w.take(2));
    assert(letter(w[2], 'B', 'b')) by {
        assert(w[2] == k[2] || (w[2] == capital(k[2]) && !(Token::LibPath == Token::File && 2 == 3)));
    }
    assert(step(SubMachine::LibPathMachine(LibPathState::Li), w[2]) == (SubMachine::LibPathMachine(LibPathState::Lib), Option::<Token>::None));
    lemma_keyword_letter(w.take(2), SubMachine::LibPathMachine(LibPathState::Li), w[2], SubMachine::LibPathMachine(LibPathState::Lib));
    assert(w.take(2).push(w[2]) =~= w.take(3));
    assert(letter(w[3], 'R', 'r')) by {
        assert(w[3] == k[3] || (w[3] == capital(k[3]) && !(Token::LibPath == Token::File && 3 == 3)));
    }
    assert(step(SubMachine::LibPathMachine(LibPathState::Lib), w[3]) == (SubMachine::LibPathMachine(LibPathState::Libr), Option::<Token>::None));
    lemma_keyword_letter(w.take(3), SubMachine::LibPathMachine(LibPathState::Lib), w[3], SubMachine::LibPathMachine(LibPathState::Libr));
    assert(w.take(3).push(w[3]) =~= w.take(4));
    assert(letter(w[4], 'A', 'a')) by {
        assert(w[4] == k[4] || (w[4] == capital(k[4]) && !(Token::LibPath == Token::File && 4 == 3)));
    }
    assert(step(SubMachine::LibPathMachine(LibPathState::Libr), w[4]) == (SubMachine::LibPathMachine(LibPathState::Libra), Option::<Token>::None));
    lemma_keyword_letter(w.take(4), SubMachine::LibPathMachine(LibPathState::Libr), w[4], SubMachine::LibPathMachine(LibPathState::Libra));
    assert(w.take(4).push(w[4]) =~= w.take(5));
    assert(letter(w[5], 'R', 'r')) by {
        assert(w[5] == k[5] || (w[5] == capital(k[5]) && !(Token::LibPath == Token::File && 5 == 3)));
    }
    assert(step(SubMachine::LibPathMachine(LibPathState::Libra), w[5]) == (SubMachine::LibPathMachine(LibPathState::Librar), Option::<Token>::None));
    lemma_keyword_letter(w.take(5), SubMachine::LibPathMachine(LibPathState::Libra), w[5], SubMachine::LibPathMachine(LibPathState::Librar));
    assert(w.take(5).push(w[5]) =~= w.take(6));
    assert(letter(w[6], 'Y', 'y')) by {
        assert(w[6] == k[6] || (w[6] == capital(k[6]) && !(Token::LibPath == Token::File && 6 == 3)));
    }
    assert(step(SubMachine::LibPathMachine(LibPathState::Librar), w[6]) == (SubMachine::LibPathMachine(LibPathState::Library), Option::<Token>::None));
    lemma_keyword_letter(w.take(6), SubMachine::LibPathMachine(LibPathState::Librar), w[6], SubMachine::LibPathMachine(LibPathState::Library));
    assert(w.take(6).push(w[6]) =~= w.take(7));
    assert(letter(w[7], 'P', 'p')) by {
        assert(w[7] == k[7] || (w[7] == capital(k[7]) && !(Token::LibPath == Token::File && 7 == 3)));
    }
    assert(step(SubMachine::LibPathMachine(LibPathState::Library), w[7]) == (SubMachine::LibPathMachine(LibPathState::LibraryP), Option::<Token>::None));
    lemma_keyword_letter(w.take(7), SubMachine::LibPathMachine(LibPathState::Library), w[7], SubMachine::LibPathMachine(LibPathState::LibraryP));
    assert(w.take(7).push(w[7]) =~= w.take(8));
    assert(letter(w[8], 'A', 'a')) by {
        assert(w[8] == k[8] || (w[8] == capital(k[8]) && !(Token::LibPath == Token::File && 8 == 3)));
    }
    assert(step(SubMachine::LibPathMachine(LibPathState::LibraryP), w[8]) == (SubMachine::LibPathMachine(LibPathState::LibraryPa), Option::<Token>::None));
    lemma_keyword_letter(w.take(8), SubMachine::LibPathMachine(LibPathState::LibraryP), w[8], SubMachine::LibPathMachine(LibPathState::LibraryPa));
    assert(w.take(8).push(w[8]) =~= w.take(9));
    assert(letter(w[9], 'T', 't')) by {
        assert(w[9] == k[9] || (w[9] == capital(k[9]) && !(Token::LibPath == Token::File && 9 == 3)));
    }
    assert(step(SubMachine::LibPathMachine(LibPathState::LibraryPa), w[9]) == (SubMachine::LibPathMachine(LibPathState::LibraryPat), Option::<Token>::None));
    lemma_keyword_letter(w.take(9), SubMachine::LibPathMachine(LibPathState::LibraryPa), w[9], SubMachine::LibPathMachine(LibPathState::LibraryPat));
    assert(w.take(9).push(w[9]) =~= w.take(10));
    assert(letter(w[10], 'H', 'h')) by {
        assert(w[10] == k[10] || (w[10] == capital(k[10]) && !(Token::LibPath == Token::File && 10 == 3)));
    }
    assert(step(SubMachine::LibPathMachine(LibPathState::LibraryPat), w[10]) == (SubMachine::StartMachine, Some(Token::LibPath)));
    lemma_keyword_completed(w.take(10), SubMachine::LibPathMachine(LibPathState::LibraryPat), w[10], Token::LibPath);
    assert(w.take(10).push(w[10]) =~= w);
}

#[verifier::spinoff_prover]
proof fn lemma_reads_maxhistory(w: Seq<char>)
    requires
        spells_keyword(w, Token::MaxHist),
    ensures
        lex_run(w) == (seq![(Token::MaxHist, w)], Seq::<char>::empty(), SubMachine::StartMachine),
{
    let k = keyword_spelling(Token::MaxHist);
    assert(k =~= seq!['m', 'a', 'x', 'h', 'i', 's', 't', 'o', 'r', 'y']);
    assert(w.take(0) =~= Seq::<char>::empty());
    assert(lex_run(w.take(0)) == (Seq::<(Token, Seq<char>)>::empty(), w.take(0), SubMachine::StartMachine));
    assert(letter(w[0], 'M', 'm')) by {
        assert(w[0] == k[0] || (w[0] == capital(k[0]) && !(Token::MaxHist == Token::File && 0 == 3)));
    }
    assert(step(SubMachine::StartMachine, w[0]) == (SubMachine::MaxHistMachine(MaxHistState::M), Option::<Token>::None));
    lemma_keyword_letter(w.take(0), SubMachine::StartMachine, w[0], SubMachine::MaxHistMachine(MaxHistState::M));
    assert(w.take(0).push(w[0]) =~= w.take(1));
    assert(letter(w[1], 'A', 'a')) by {
        assert(w[1] == k[1] || (w[1] == capital(k[1]) && !(Token::MaxHist == Token::File && 1 == 3)));
    }
    assert(step(SubMachine::MaxHistMachine(MaxHistState::M), w[1]) == (SubMachine::MaxHistMachine(MaxHistState::Ma), Option::<Token>::None));
    lemma_keyword_letter(w.take(1), SubMachine::MaxHistMachine(MaxHistState::M), w[1], SubMachine::MaxHistMachine(MaxHistState::Ma));
    assert(w.take(1).push(w[1]) =~= w.take(2));
    assert(letter(w[2], 'X', 'x')) by {
        assert(w[2] == k[2] || (w[2] == capital(k[2]) && !(Token::MaxHist == Token::File && 2 == 3)));
    }
    assert(step(SubMachine::MaxHistMachine(MaxHistState::Ma), w[2]) == (SubMachine::MaxHistMachine(MaxHistState::Max), Option::<Token>::None));
    lemma_keyword_letter(w.take(2), SubMachine::MaxHistMachine(MaxHistState::Ma), w[2], SubMachine::MaxHistMachine(MaxHistState::Max));
    assert(w.take(2).push(w[2]) =~= w.take(3));
    assert(letter(w[3], 'H', 'h')) by {
        assert(w[3] == k[3] || (w[3] == capital(k[3]) && !(Token::MaxHist == Token::File && 3 == 3)));
    }
    assert(step(SubMachine::MaxHistMachine(MaxHistState::Max), w[3]) == (SubMachine::MaxHistMachine(MaxHistState::MaxH), Option::<Token>::None));
    lemma_keyword_letter(w.take(3), SubMachine::MaxHistMachine(MaxHistState::Max), w[3], SubMachine::MaxHistMachine(MaxHistState::MaxH));
    assert(w.take(3).push(w[3]) =~= w.take(4));
    assert(letter(w[4], 'I', 'i')) by {
        assert(w[4] == k[4] || (w[4] == capital(k[4]) && !(Token::MaxHist == Token::File && 4 == 3)));
    }
    assert(step(SubMachine::MaxHistMachine(MaxHistState::MaxH), w[4]) == (SubMachine::MaxHistMachine(MaxHistState::MaxHi), Option::<Token>::None));
    lemma_keyword_letter(w.take(4), SubMachine::MaxHistMachine(MaxHistState::MaxH), w[4], SubMachine::MaxHistMachine(MaxHistState::MaxHi));
    assert(w.take(4).push(w[4]) =~= w.take(5));
    assert(letter(w[5], 'S', 's')) by {
        assert(w[5] == k[5] || (w[5] == capital(k[5]) && !(Token::MaxHist == Token::File && 5 == 3)));
    }
    assert(step(SubMachine::MaxHistMachine(MaxHistState::MaxHi), w[5]) == (SubMachine::MaxHistMachine(MaxHistState::MaxHis), Option::<Token>::None));
    lemma_keyword_letter(w.take(5), SubMachine::MaxHistMachine(MaxHistState::MaxHi), w[5], SubMachine::MaxHistMachine(MaxHistState::MaxHis));
    assert(w.take(5).push(w[5]) =~= w.take(6));
    assert(letter(w[6], 'T', 't')) by {
        assert(w[6] == k[6] || (w[6] == capital(k[6]) && !(Token::MaxHist == Token::File && 6 == 3)));
    }
    assert(step(SubMachine::MaxHistMachine(MaxHistState::MaxHis), w[6]) == (SubMachine::MaxHistMachine(MaxHistState::MaxHist), Option::<Token>::None));
    lemma_keyword_letter(w.take(6), SubMachine::MaxHistMachine(MaxHistState::MaxHis), w[6], SubMachine::MaxHistMachine(MaxHistState::MaxHist));
    assert(w.take(6).push(w[6]) =~= w.take(7));
    assert(letter(w[7], 'O', 'o')) by {
        assert(w[7] == k[7] || (w[7] == capital(k[7]) && !(Token::MaxHist == Token::File && 7 == 3)));
    }
    assert(step(SubMachine::MaxHistMachine(MaxHistState::MaxHist), w[7]) == (SubMachine::MaxHistMachine(MaxHistState::MaxHisto), Option::<Token>::None));
    lemma_keyword_letter(w.take(7), SubMachine::MaxHistMachine(MaxHistState::MaxHist), w[7], SubMachine::MaxHistMachine(MaxHistState::MaxHisto));
    assert(w.take(7).push(w[7]) =~= w.take(8));
    assert(letter(w[8], 'R', 'r')) by {
        assert(w[8] == k[8] || (w[8] == capital(k[8]) && !(Token::MaxHist == Token::File && 8 == 3)));
    }
    assert(step(SubMachine::MaxHistMachine(MaxHistState::MaxHisto), w[8]) == (SubMachine::MaxHistMachine(MaxHistState::MaxHistor), Option::<Token>::None));
    lemma_keyword_letter(w.take(8), SubMachine::MaxHistMachine(MaxHistState::MaxHisto), w[8], SubMachine::MaxHistMachine(MaxHistState::MaxHistor));
    assert(w.take(8).push(w[8]) =~= w.take(9));
    assert(letter(w[9], 'Y', 'y')) by {
        assert(w[9] == k[9] || (w[9] == capital(k[9]) && !(Token::MaxHist == Token::File && 9 == 3)));
    }
    assert(step(SubMachine::MaxHistMachine(MaxHistState::MaxHistor), w[9]) == (SubMachine::StartMachine, Some(Token::MaxHist)));
    lemma_keyword_completed(w.take(9), SubMachine::MaxHistMachine(MaxHistState::MaxHistor), w[9], Token::MaxHist);
    assert(w.take(9).push(w[9]) =~= w);
}

#[verifier::spinoff_prover]
proof fn lemma_reads_topsongslen(w: Seq<char>)
    requires
        spells_keyword(w, Token::TopSngLen),
    ensures
        lex_run(w) == (seq![(Token::TopSngLen, w)], Seq::<char>::empty(), SubMachine::StartMachine),
{
    let k = keyword_spelling(Token::TopSngLen);
    assert(k =~= seq!['t', 'o', 'p', 's', 'o', 'n', 'g', 's', 'l', 'e', 'n']);
    assert(w.take(0) =~= Seq::<char>::empty());
    assert(lex_run(w.take(0)) == (Seq::<(Token, Seq<char>)>::empty(), w.take(0), SubMachine::StartMachine));
    assert(letter(w[0], 'T', 't')) by {
        assert(w[0] == k[0] || (w[0] == capital(k[0]) && !(Token::TopSngLen == Token::File && 0 == 3)));
    }
    assert(step(SubMachine::StartMachine, w[0]) == (SubMachine::TopMachine(TopState::T), Option::<Token>::None));
    lemma_keyword_letter(w.take(0), SubMachine::StartMachine, w[0], SubMachine::TopMachine(TopState::T));
    assert(w.take(0).push(w[0]) =~= w.take(1));
    assert(letter(w[1], 'O', 'o')) by {
        assert(w[1] == k[1] || (w[1] == capital(k[1]) && !(Token::TopSngLen == Token::File && 1 == 3)));
    }
    assert(step(SubMachine::TopMachine(TopState::T), w[1]) == (SubMachine::TopMachine(TopState::To), Option::<Token>::None));
    lemma_keyword_letter(w.take(1), SubMachine::TopMachine(TopState::T), w[1], SubMachine::TopMachine(TopState::To));
    assert(w.take(1).push(w[1]) =~= w.take(2));
    assert(letter(w[2], 'P', 'p')) by {
        assert(w[2] == k[2] || (w[2] == capital(k[2]) && !(Token::TopSngLen == Token::File && 2 == 3)));
    }
    assert(step(SubMachine::TopMachine(TopState::To), w[2]) == (SubMachine::TopMachine(TopState::Top), Option::<Token>::None));
    lemma_keyword_letter(w.take(2), SubMachine::TopMachine(TopState::To), w[2], SubMachine::TopMachine(TopState::Top));
    assert(w.take(2).push(w[2]) =~= w.take(3));
    assert(letter(w[3], 'S', 's')) by {
        assert(w[3] == k[3] || (w[3] == capital(k[3]) && !(Token::TopSngLen == Token::File && 3 == 3)));
    }
    assert(step(SubMachine::TopMachine(TopState::Top), w[3]) == (SubMachine::TopSngLenMachine(TopSngLenState::S), Option::<Token>::None));
    lemma_keyword_letter(w.take(3), SubMachine::TopMachine(TopState::Top), w[3], SubMachine::TopSngLenMachine(TopSngLenState::S));
    assert(w.take(3).push(w[3]) =~= w.take(4));
    assert(letter(w[4], 'O', 'o')) by {
        assert(w[4] == k[4] || (w[4] == capital(k[4]) && !(Token::TopSngLen == Token::File && 4 == 3)));
    }
    assert(step(SubMachine::TopSngLenMachine(TopSngLenState::S), w[4]) == (SubMachine::TopSngLenMachine(TopSngLenState::So), Option::<Token>::None));
    lemma_keyword_letter(w.take(4), SubMachine::TopSngLenMachine(TopSngLenState::S), w[4], SubMachine::TopSngLenMachine(TopSngLenState::So));
    assert(w.take(4).push(w[4]) =~= w.take(5));
    assert(letter(w[5], 'N', 'n')) by {
        assert(w[5] == k[5] || (w[5] == capital(k[5]) && !(Token::TopSngLen == Token::File && 5 == 3)));
    }
    assert(step(SubMachine::TopSngLenMachine(TopSngLenState::So), w[5]) == (SubMachine::TopSngLenMachine(TopSngLenState::Son), Option::<Token>::None));
    lemma_keyword_letter(w.take(5), SubMachine::TopSngLenMachine(TopSngLenState::So), w[5], SubMachine::TopSngLenMachine(TopSngLenState::Son));
    assert(w.take(5).push(w[5]) =~= w.take(6));
    assert(letter(w[6], 'G', 'g')) by {
        assert(w[6] == k[6] || (w[6] == capital(k[6]) && !(Token::TopSngLen == Token::File && 6 == 3)));
    }
    assert(step(SubMachine::TopSngLenMachine(TopSngLenState::Son), w[6]) == (SubMachine::TopSngLenMachine(TopSngLenState::Song), Option::<Token>::None));
    lemma_keyword_letter(w.take(6), SubMachine::TopSngLenMachine(TopSngLenState::Son), w[6], SubMachine::TopSngLenMachine(TopSngLenState::Song));
    assert(w.take(6).push(w[6]) =~= w.take(7));
    assert(letter(w[7], 'S', 's')) by {
        assert(w[7] == k[7] || (w[7] == capital(k[7]) && !(Token::TopSngLen == Token::File && 7 == 3)));
    }
    assert(step(SubMachine::TopSngLenMachine(TopSngLenState::Song), w[7]) == (SubMachine::TopSngLenMachine(TopSngLenState::Songs), Option::<Token>::None));
    lemma_keyword_letter(w.take(7), SubMachine::TopSngLenMachine(TopSngLenState::Song), w[7], SubMachine::TopSngLenMachine(TopSngLenState::Songs));
    assert(w.take(7).push(w[7]) =~= w.take(8));
    assert(letter(w[8], 'L', 'l')) by {
        assert(w[8] == k[8] || (w[8] == capital(k[8]) && !(Token::TopSngLen == Token::File && 8 == 3)));
    }
    assert(step(SubMachine::TopSngLenMachine(TopSngLenState::Songs), w[8]) == (SubMachine::TopSngLenMachine(TopSngLenState::SongsL), Option::<Token>::None));
    lemma_keyword_letter(w.take(8), SubMachine::TopSngLenMachine(TopSngLenState::Songs), w[8], SubMachine::TopSngLenMachine(TopSngLenState::SongsL));
    assert(w.take(8).push(w[8]) =~= w.take(9));
    assert(letter(w[9], 'E', 'e')) by {
        assert(w[9] == k[9] || (w[9] == capital(k[9]) && !(Token::TopSngLen == Token::File && 9 == 3)));
    }
    assert(step(SubMachine::TopSngLenMachine(TopSngLenState::SongsL), w[9]) == (SubMachine::TopSngLenMachine(TopSngLenState::SongsLe), Option::<Token>::None));
    lemma_keyword_letter(w.take(9), SubMachine::TopSngLenMachine(TopSngLenState::SongsL), w[9], SubMachine::TopSngLenMachine(TopSngLenState::SongsLe));
    assert(w.take(9).push(w[9]) =~= w.take(10));
    assert(letter(w[10], 'N', 'n')) by {
        assert(w[10] == k[10] || (w[10] == capital(k[10]) && !(Token::TopSngLen == Token::File && 10 == 3)));
    }
    assert(step(SubMachine::TopSngLenMachine(TopSngLenState::SongsLe), w[10]) == (SubMachine::StartMachine, Some(Token::TopSngLen)));
    lemma_keyword_completed(w.take(10), SubMachine::TopSngLenMachine(TopSngLenState::SongsLe), w[10], Token::TopSngLen);
    assert(w.take(10).push(w[10]) =~= w);
}

#[verifier::spinoff_prover]
proof fn lemma_reads_topalbumslen(w: Seq<char>)
    requires
        spells_keyword(w, Token::TopAlbLen),
    ensures
        lex_run(w) == (seq![(Token::TopAlbLen, w)], Seq::<char>::empty(), SubMachine::StartMachine),
{
    let k = keyword_spelling(Token::TopAlbLen);
    assert(k =~= seq!['t', 'o', 'p', 'a', 'l', 'b', 'u', 'm', 's', 'l', 'e', 'n']);
    assert(w.take(0) =~= Seq::<char>::empty());
    assert(lex_run(w.take(0)) == (Seq::<(Token, Seq<char>)>::empty(), w.take(0), SubMachine::StartMachine));
    assert(letter(w[0], 'T', 't')) by {
        assert(w[0] == k[0] || (w[0] == capital(k[0]) && !(Token::TopAlbLen == Token::File && 0 == 3)));
    }
    assert(step(SubMachine::StartMachine, w[0]) == (SubMachine::TopMachine(TopState::T), Option::<Token>::None));
    lemma_keyword_letter(w.take(0), SubMachine::StartMachine, w[0], SubMachine::TopMachine(TopState::T));
    assert(w.take(0).push(w[0]) =~= w.take(1));
    assert(letter(w[1], 'O', 'o')) by {
        assert(w[1] == k[1] || (w[1] == capital(k[1]) && !(Token::TopAlbLen == Token::File && 1 == 3)));
    }
    assert(step(SubMachine::TopMachine(TopState::T), w[1]) == (SubMachine::TopMachine(TopState::To), Option::<Token>::None));
    lemma_keyword_letter(w.take(1), SubMachine::TopMachine(TopState::T), w[1], SubMachine::TopMachine(TopState::To));
    assert(w.take(1).push(w[1]) =~= w.take(2));
    assert(letter(w[2], 'P', 'p')) by {
        assert(w[2] == k[2] || (w[2] == capital(k[2]) && !(Token::TopAlbLen == Token::File && 2 == 3)));
    }
    assert(step(SubMachine::TopMachine(TopState::To), w[2]) == (SubMachine::TopMachine(TopState::Top), Option::<Token>::None));
    lemma_keyword_letter(w.take(2), SubMachine::TopMachine(TopState::To), w[2], SubMachine::TopMachine(TopState::Top));
    assert(w.take(2).push(w[2]) =~= w.take(3));
    assert(letter(w[3], 'A', 'a')) by {
        assert(w[3] == k[3] || (w[3] == capital(k[3]) && !(Token::TopAlbLen == Token::File && 3 == 3)));
    }
    assert(step(SubMachine::TopMachine(TopState::Top), w[3]) == (SubMachine::TopMachine(TopState::TopA), Option::<Token>::None));
    lemma_keyword_letter(w.take(3), SubMachine::TopMachine(TopState::Top), w[3], SubMachine::TopMachine(TopState::TopA));
    assert(w.take(3).push(w[3]) =~= w.take(4));
    assert(letter(w[4], 'L', 'l')) by {
        assert(w[4] == k[4] || (w[4] == capital(k[4]) && !(Token::TopAlbLen == Token::File && 4 == 3)));
    }
    assert(step(SubMachine::TopMachine(TopState::TopA), w[4]) == (SubMachine::TopAlbLenMachine(TopAlbLenState::Al), Option::<Token>::None));
    lemma_keyword_letter(w.take(4), SubMachine::TopMachine(TopState::TopA), w[4], SubMachine::TopAlbLenMachine(TopAlbLenState::Al));
    assert(w.take(4).push(w[4]) =~= w.take(5));
    assert(letter(w[5], 'B', 'b')) by {
        assert(w[5] == k[5] || (w[5] == capital(k[5]) && !(Token::TopAlbLen == Token::File && 5 == 3)));
    }
    assert(step(SubMachine::TopAlbLenMachine(TopAlbLenState::Al), w[5]) == (SubMachine::TopAlbLenMachine(TopAlbLenState::Alb), Option::<Token>::None));
    lemma_keyword_letter(w.take(5), SubMachine::TopAlbLenMachine(TopAlbLenState::Al), w[5], SubMachine::TopAlbLenMachine(TopAlbLenState::Alb));
    assert(w.take(5).push(w[5]) =~= w.take(6));
    assert(letter(w[6], 'U', 'u')) by {
        assert(w[6] == k[6] || (w[6] == capital(k[6]) && !(Token::TopAlbLen == Token::File && 6 == 3)));
    }
    assert(step(SubMachine::TopAlbLenMachine(TopAlbLenState::Alb), w[6]) == (SubMachine::TopAlbLenMachine(TopAlbLenState::Albu), Option::<Token>::None));
    lemma_keyword_letter(w.take(6), SubMachine::TopAlbLenMachine(TopAlbLenState::Alb), w[6], SubMachine::TopAlbLenMachine(TopAlbLenState::Albu));
    assert(w.take(6).push(w[6]) =~= w.take(7));
    assert(letter(w[7], 'M', 'm')) by {
        assert(w[7] == k[7] || (w[7] == capital(k[7]) && !(Token::TopAlbLen == Token::File && 7 == 3)));
    }
    assert(step(SubMachine::TopAlbLenMachine(TopAlbLenState::Albu), w[7]) == (SubMachine::TopAlbLenMachine(TopAlbLenState::Album), Option::<Token>::None));
    lemma_keyword_letter(w.take(7), SubMachine::TopAlbLenMachine(TopAlbLenState::Albu), w[7], SubMachine::TopAlbLenMachine(TopAlbLenState::Album));
    assert(w.take(7).push(w[7]) =~= w.take(8));
    assert(letter(w[8], 'S', 's')) by {
        assert(w[8] == k[8] || (w[8] == capital(k[8]) && !(Token::TopAlbLen == Token::File && 8 == 3)));
    }
    assert(step(SubMachine::TopAlbLenMachine(TopAlbLenState::Album), w[8]) == (SubMachine::TopAlbLenMachine(TopAlbLenState::Albums), Option::<Token>::None));
    lemma_keyword_letter(w.take(8), SubMachine::TopAlbLenMachine(TopAlbLenState::Album), w[8], SubMachine::TopAlbLenMachine(TopAlbLenState::Albums));
    assert(w.take(8).push(w[8]) =~= w.take(9));
    assert(letter(w[9], 'L', 'l')) by {
        assert(w[9] == k[9] || (w[9] == capital(k[9]) && !(Token::TopAlbLen == Token::File && 9 == 3)));
    }
    assert(step(SubMachine::TopAlbLenMachine(TopAlbLenState::Albums), w[9]) == (SubMachine::TopAlbLenMachine(TopAlbLenState::AlbumsL), Option::<Token>::None));
    lemma_keyword_letter(w.take(9), SubMachine::TopAlbLenMachine(TopAlbLenState::Albums), w[9], SubMachine::TopAlbLenMachine(TopAlbLenState::AlbumsL));
    assert(w.take(9).push(w[9]) =~= w.take(10));
    assert(letter(w[10], 'E', 'e')) by {
        assert(w[10] == k[10] || (w[10] == capital(k[10]) && !(Token::TopAlbLen == Token::File && 10 == 3)));
    }
    assert(step(SubMachine::TopAlbLenMachine(TopAlbLenState::AlbumsL), w[10]) == (SubMachine::TopAlbLenMachine(TopAlbLenState::AlbumsLe), Option::<Token>::None));
    lemma_keyword_letter(w.take(10), SubMachine::TopAlbLenMachine(TopAlbLenState::AlbumsL), w[10], SubMachine::TopAlbLenMachine(TopAlbLenState::AlbumsLe));
    assert(w.take(10).push(w[10]) =~= w.take(11));
    assert(letter(w[11], 'N', 'n')) by {
        assert(w[11] == k[11] || (w[11] == capital(k[11]) && !(Token::TopAlbLen == Token::File && 11 == 3)));
    }
    assert(step(SubMachine::TopAlbLenMachine(TopAlbLenState::AlbumsLe), w[11]) == (SubMachine::StartMachine, Some(Token::TopAlbLen)));
    lemma_keyword_completed(w.take(11), SubMachine::TopAlbLenMachine(TopAlbLenState::AlbumsLe), w[11], Token::TopAlbLen);
    assert(w.take(11).push(w[11]) =~= w);
}

#[verifier::spinoff_prover]
proof fn lemma_reads_topartistslen(w: Seq<char>)
    requires
        spells_keyword(w, Token::TopArtLen),
    ensures
        lex_run(w) == (seq![(Token::TopArtLen, w)], Seq::<char>::empty(), SubMachine::StartMachine),
{
    let k = keyword_spelling(Token::TopArtLen);
    assert(k =~= seq!['t', 'o', 'p', 'a', 'r', 't', 'i', 's', 't', 's', 'l', 'e', 'n']);
    assert(w.take(0) =~= Seq::<char>::empty());
    assert(lex_run(w.take(0)) == (Seq::<(Token, Seq<char>)>::empty(), w.take(0), SubMachine::StartMachine));
    assert(letter(w[0], 'T', 't')) by {
        assert(w[0] == k[0] || (w[0] == capital(k[0]) && !(Token::TopArtLen == Token::File && 0 == 3)));
    }
    assert(step(SubMachine::StartMachine, w[0]) == (SubMachine::TopMachine(TopState::T), Option::<Token>::None));
    lemma_keyword_letter(w.take(0), SubMachine::StartMachine, w[0], SubMachine::TopMachine(TopState::T));
    assert(w.take(0).push(w[0]) =~= w.take(1));
    assert(letter(w[1], 'O', 'o')) by {
        assert(w[1] == k[1] || (w[1] == capital(k[1]) && !(Token::TopArtLen == Token::File && 1 == 3)));
    }
    assert(step(SubMachine::TopMachine(TopState::T), w[1]) == (SubMachine::TopMachine(TopState::To), Option::<Token>::None));
    lemma_keyword_letter(w.take(1), SubMachine::TopMachine(TopState::T), w[1], SubMachine::TopMachine(TopState::To));
    assert(w.take(1).push(w[1]) =~= w.take(2));
    assert(letter(w[2], 'P', 'p')) by {
        assert(w[2] == k[2] || (w[2] == capital(k[2]) && !(Token::TopArtLen == Token::File && 2 == 3)));
    }
    assert(step(SubMachine::TopMachine(TopState::To), w[2]) == (SubMachine::TopMachine(TopState::Top), Option::<Token>::None));
    lemma_keyword_letter(w.take(2), SubMachine::TopMachine(TopState::To), w[2], SubMachine::TopMachine(TopState::Top));
    assert(w.take(2).push(w[2]) =~= w.take(3));
    assert(letter(w[3], 'A', 'a')) by {
        assert(w[3] == k[3] || (w[3] == capital(k[3]) && !(Token::TopArtLen == Token::File && 3 == 3)));
    }
    assert(step(SubMachine::TopMachine(TopState::Top), w[3]) == (SubMachine::TopMachine(TopState::TopA), Option::<Token>::None));
    lemma_keyword_letter(w.take(3), SubMachine::TopMachine(TopState::Top), w[3], SubMachine::TopMachine(TopState::TopA));
    assert(w.take(3).push(w[3]) =~= w.take(4));
    assert(letter(w[4], 'R', 'r')) by {
        assert(w[4] == k[4] || (w[4] == capital(k[4]) && !(Token::TopArtLen == Token::File && 4 == 3)));
    }
    assert(step(SubMachine::TopMachine(TopState::TopA), w[4]) == (SubMachine::TopArtLenMachine(TopArtLenState::Ar), Option::<Token>::None));
    lemma_keyword_letter(w.take(4), SubMachine::TopMachine(TopState::TopA), w[4], SubMachine::TopArtLenMachine(TopArtLenState::Ar));
    assert(w.take(4).push(w[4]) =~= w.take(5));
    assert(letter(w[5], 'T', 't')) by {
        assert(w[5] == k[5] || (w[5] == capital(k[5]) && !(Token::TopArtLen == Token::File && 5 == 3)));
    }
    assert(step(SubMachine::TopArtLenMachine(TopArtLenState::Ar), w[5]) == (SubMachine::TopArtLenMachine(TopArtLenState::Art), Option::<Token>::None));
    lemma_keyword_letter(w.take(5), SubMachine::TopArtLenMachine(TopArtLenState::Ar), w[5], SubMachine::TopArtLenMachine(TopArtLenState::Art));
    assert(w.take(5).push(w[5]) =~= w.take(6));
    assert(letter(w[6], 'I', 'i')) by {
        assert(w[6] == k[6] || (w[6] == capital(k[6]) && !(Token::TopArtLen == Token::File && 6 == 3)));
    }
    assert(step(SubMachine::TopArtLenMachine(TopArtLenState::Art), w[6]) == (SubMachine::TopArtLenMachine(TopArtLenState::Arti), Option::<Token>::None));
    lemma_keyword_letter(w.take(6), SubMachine::TopArtLenMachine(TopArtLenState::Art), w[6], SubMachine::TopArtLenMachine(TopArtLenState::Arti));
    assert(w.take(6).push(w[6]) =~= w.take(7));
    assert(letter(w[7], 'S', 's')) by {
        assert(w[7] == k[7] || (w[7] == capital(k[7]) && !(Token::TopArtLen == Token::File && 7 == 3)));
    }
    assert(step(SubMachine::TopArtLenMachine(TopArtLenState::Arti), w[7]) == (SubMachine::TopArtLenMachine(TopArtLenState::Artis), Option::<Token>::None));
    lemma_keyword_letter(w.take(7), SubMachine::TopArtLenMachine(TopArtLenState::Arti), w[7], SubMachine::TopArtLenMachine(TopArtLenState::Artis));
    assert(w.take(7).push(w[7]) =~= w.take(8));
    assert(letter(w[8], 'T', 't')) by {
        assert(w[8] == k[8] || (w[8] == capital(k[8]) && !(Token::TopArtLen == Token::File && 8 == 3)));
    }
    assert(step(SubMachine::TopArtLenMachine(TopArtLenState::Artis), w[8]) == (SubMachine::TopArtLenMachine(TopArtLenState::Artist), Option::<Token>::None));
    lemma_keyword_letter(w.take(8), SubMachine::TopArtLenMachine(TopArtLenState::Artis), w[8], SubMachine::TopArtLenMachine(TopArtLenState::Artist));
    assert(w.take(8).push(w[8]) =~= w.take(9));
    assert(letter(w[9], 'S', 's')) by {
        assert(w[9] == k[9] || (w[9] == capital(k[9]) && !(Token::TopArtLen == Token::File && 9 == 3)));
    }
    assert(step(SubMachine::TopArtLenMachine(TopArtLenState::Artist), w[9]) == (SubMachine::TopArtLenMachine(TopArtLenState::Artists), Option::<Token>::None));
    lemma_keyword_letter(w.take(9), SubMachine::TopArtLenMachine(TopArtLenState::Artist), w[9], SubMachine::TopArtLenMachine(TopArtLenState::Artists));
    assert(w.take(9).push(w[9]) =~= w.take(10));
    assert(letter(w[10], 'L', 'l')) by {
        assert(w[10] == k[10] || (w[10] == capital(k[10]) && !(Token::TopArtLen == Token::File && 10 == 3)));
    }
    assert(step(SubMachine::TopArtLenMachine(TopArtLenState::Artists), w[10]) == (SubMachine::TopArtLenMachine(TopArtLenState::ArtistsL), Option::<Token>::None));
    lemma_keyword_letter(w.take(10), SubMachine::TopArtLenMachine(TopArtLenState::Artists), w[10], SubMachine::TopArtLenMachine(TopArtLenState::ArtistsL));
    assert(w.take(10).push(w[10]) =~= w.take(11));
    assert(letter(w[11], 'E', 'e')) by {
        assert(w[11] == k[11] || (w[11] == capital(k[11]) && !(Token::TopArtLen == Token::File && 11 == 3)));
    }
    assert(step(SubMachine::TopArtLenMachine(TopArtLenState::ArtistsL), w[11]) == (SubMachine::TopArtLenMachine(TopArtLenState::ArtistsLe), Option::<Token>::None));
    lemma_keyword_letter(w.take(11), SubMachine::TopArtLenMachine(TopArtLenState::ArtistsL), w[11], SubMachine::TopArtLenMachine(TopArtLenState::ArtistsLe));
    assert(w.take(11).push(w[11]) =~= w.take(12));
    assert(letter(w[12], 'N', 'n')) by {
        assert(w[12] == k[12] || (w[12] == capital(k[12]) && !(Token::TopArtLen == Token::File && 12 == 3)));
    }
    assert(step(SubMachine::TopArtLenMachine(TopArtLenState::ArtistsLe), w[12]) == (SubMachine::StartMachine, Some(Token::TopArtLen)));
    lemma_keyword_completed(w.take(12), SubMachine::TopArtLenMachine(TopArtLenState::ArtistsLe), w[12], Token::TopArtLen);
    assert(w.take(12).push(w[12]) =~= w);
}

#[verifier::spinoff_prover]
proof fn lemma_reads_topdecayrate(w: Seq<char>)
    requires
        spells_keyword(w, Token::TopDecay),
    ensures
        lex_run(w) == (seq![(Token::TopDecay, w)], Seq::<char>::empty(), SubMachine::StartMachine),
{
    let k = keyword_spelling(Token::TopDecay);
    assert(k =~= seq!['t', 'o', 'p', 'd', 'e', 'c', 'a', 'y', 'r', 'a', 't', 'e']);
    assert(w.take(0) =~= Seq::<char>::empty());
    assert(lex_run(w.take(0)) == (Seq::<(Token, Seq<char>)>::empty(), w.take(0), SubMachine::StartMachine));
    assert(letter(w[0], 'T', 't')) by {
        assert(w[0] == k[0] || (w[0] == capital(k[0]) && !(Token::TopDecay == Token::File && 0 == 3)));
    }
    assert(step(SubMachine::StartMachine, w[0]) == (SubMachine::TopMachine(TopState::T), Option::<Token>::None));
    lemma_keyword_letter(w.take(0), SubMachine::StartMachine, w[0], SubMachine::TopMachine(TopState::T));
    assert(w.take(0).push(w[0]) =~= w.take(1));
    assert(letter(w[1], 'O', 'o')) by {
        assert(w[1] == k[1] || (w[1] == capital(k[1]) && !(Token::TopDecay == Token::File && 1 == 3)));
    }
    assert(step(SubMachine::TopMachine(TopState::T), w[1]) == (SubMachine::TopMachine(TopState::To), Option::<Token>::None));
    lemma_keyword_letter(w.take(1), SubMachine::TopMachine(TopState::T), w[1], SubMachine::TopMachine(TopState::To));
    assert(w.take(1).push(w[1]) =~= w.take(2));
    assert(letter(w[2], 'P', 'p')) by {
        assert(w[2] == k[2] || (w[2] == capital(k[2]) && !(Token::TopDecay == Token::File && 2 == 3)));
    }
    assert(step(SubMachine::TopMachine(TopState::To), w[2]) == (SubMachine::TopMachine(TopState::Top), Option::<Token>::None));
    lemma_keyword_letter(w.take(2), SubMachine::TopMachine(TopState::To), w[2], SubMachine::TopMachine(TopState::Top));
    assert(w.take(2).push(w[2]) =~= w.take(3));
    assert(letter(w[3], 'D', 'd')) by {
        assert(w[3] == k[3] || (w[3] == capital(k[3]) && !(Token::TopDecay == Token::File && 3 == 3)));
    }
    assert(step(SubMachine::TopMachine(TopState::Top), w[3]) == (SubMachine::TopDecayMachine(TopDecayState::D), Option::<Token>::None));
    lemma_keyword_letter(w.take(3), SubMachine::TopMachine(TopState::Top), w[3], SubMachine::TopDecayMachine(TopDecayState::D));
    assert(w.take(3).push(w[3]) =~= w.take(4));
    assert(letter(w[4], 'E', 'e')) by {
        assert(w[4] == k[4] || (w[4] == capital(k[4]) && !(Token::TopDecay == Token::File && 4 == 3)));
    }
    assert(step(SubMachine::TopDecayMachine(TopDecayState::D), w[4]) == (SubMachine::TopDecayMachine(TopDecayState::De), Option::<Token>::None));
    lemma_keyword_letter(w.take(4), SubMachine::TopDecayMachine(TopDecayState::D), w[4], SubMachine::TopDecayMachine(TopDecayState::De));
    assert(w.take(4).push(w[4]) =~= w.take(5));
    assert(letter(w[5], 'C', 'c')) by {
        assert(w[5] == k[5] || (w[5] == capital(k[5]) && !(Token::TopDecay == Token::File && 5 == 3)));
    }
    assert(step(SubMachine::TopDecayMachine(TopDecayState::De), w[5]) == (SubMachine::TopDecayMachine(TopDecayState::Dec), Option::<Token>::None));
    lemma_keyword_letter(w.take(5), SubMachine::TopDecayMachine(TopDecayState::De), w[5], SubMachine::TopDecayMachine(TopDecayState::Dec));
    assert(w.take(5).push(w[5]) =~= w.take(6));
    assert(letter(w[6], 'A', 'a')) by {
        assert(w[6] == k[6] || (w[6] == capital(k[6]) && !(Token::TopDecay == Token::File && 6 == 3)));
    }
    assert(step(SubMachine::TopDecayMachine(TopDecayState::Dec), w[6]) == (SubMachine::TopDecayMachine(TopDecayState::Deca), Option::<Token>::None));
    lemma_keyword_letter(w.take(6), SubMachine::TopDecayMachine(TopDecayState::Dec), w[6], SubMachine::TopDecayMachine(TopDecayState::Deca));
    assert(w.take(6).push(w[6]) =~= w.take(7));
    assert(letter(w[7], 'Y', 'y')) by {
        assert(w[7] == k[7] || (w[7] == capital(k[7]) && !(Token::TopDecay == Token::File && 7 == 3)));
    }
    assert(step(SubMachine::TopDecayMachine(TopDecayState::Deca), w[7]) == (SubMachine::TopDecayMachine(TopDecayState::Decay), Option::<Token>::None));
    lemma_keyword_letter(w.take(7), SubMachine::TopDecayMachine(TopDecayState::Deca), w[7], SubMachine::TopDecayMachine(TopDecayState::Decay));
    assert(w.take(7).push(w[7]) =~= w.take(8));
    assert(letter(w[8], 'R', 'r')) by {
        assert(w[8] == k[8] || (w[8] == capital(k[8]) && !(Token::TopDecay == Token::File && 8 == 3)));
    }
    assert(step(SubMachine::TopDecayMachine(TopDecayState::Decay), w[8]) == (SubMachine::TopDecayMachine(TopDecayState::DecayR), Option::<Token>::None));
    lemma_keyword_letter(w.take(8), SubMachine::TopDecayMachine(TopDecayState::Decay), w[8], SubMachine::TopDecayMachine(TopDecayState::DecayR));
    assert(w.take(8).push(w[8]) =~= w.take(9));
    assert(letter(w[9], 'A', 'a')) by {
        assert(w[9] == k[9] || (w[9] == capital(k[9]) && !(Token::TopDecay == Token::File && 9 == 3)));
    }
    assert(step(SubMachine::TopDecayMachine(TopDecayState::DecayR), w[9]) == (SubMachine::TopDecayMachine(TopDecayState::DecayRa), Option::<Token>::None));
    lemma_keyword_letter(w.take(9), SubMachine::TopDecayMachine(TopDecayState::DecayR), w[9], SubMachine::TopDecayMachine(TopDecayState::DecayRa));
    assert(w.take(9).push(w[9]) =~= w.take(10));
    assert(letter(w[10], 'T', 't')) by {
        assert(w[10] == k[10] || (w[10] == capital(k[10]) && !(Token::TopDecay == Token::File && 10 == 3)));
    }
    assert(step(SubMachine::TopDecayMachine(TopDecayState::DecayRa), w[10]) == (SubMachine::TopDecayMachine(TopDecayState::DecayRat), Option::<Token>::None));
    lemma_keyword_letter(w.take(10), SubMachine::TopDecayMachine(TopDecayState::DecayRa), w[10], SubMachine::TopDecayMachine(TopDecayState::DecayRat));
    assert(w.take(10).push(w[10]) =~= w.take(11));
    assert(letter(w[11], 'E', 'e')) by {
        assert(w[11] == k[11] || (w[11] == capital(k[11]) && !(Token::TopDecay == Token::File && 11 == 3)));
    }
    assert(step(SubMachine::TopDecayMachine(TopDecayState::DecayRat), w[11]) == (SubMachine::StartMachine, Some(Token::TopDecay)));
    lemma_keyword_completed(w.take(11), SubMachine::TopDecayMachine(TopDecayState::DecayRat), w[11], Token::TopDecay);
    assert(w.take(11).push(w[11]) =~= w);
}

/// Each keyword, spelled with every letter small or capital (the last letter
/// of `file` small only), is read as one unit of that keyword's token.
pub proof fn law_keywords_read_as_tokens(w: Seq<char>, t: Token)
    requires
        spells_keyword(w, t),
    ensures
        lexed(w) == seq![(t, w)],
        unfinished(w) == Seq::<char>::empty(),
        at_rest(w),
{
    match t {
        Token::File => lemma_reads_file(w),
        Token::LibPath => lemma_reads_librarypath(w),
        Token::MaxHist => lemma_reads_maxhistory(w),
        Token::TopSngLen => lemma_reads_topsongslen(w),
        Token::TopAlbLen => lemma_reads_topalbumslen(w),
        Token::TopArtLen => lemma_reads_topartistslen(w),
        Token::TopDecay => lemma_reads_topdecayrate(w),
        _ => {},
    }
}

/// The state reached by moving from `s` on each symbol of `w` in turn, when
/// no move finishes a token; none when one does.
pub open spec fn quiet_walk(s: SubMachine, w: Seq<char>) -> Option<SubMachine>
    decreases w.len(),
{
    if w.len() == 0 {
        Some(s)
    } else {
        match quiet_walk(s, w.drop_last()) {
            Some(s1) => if step(s1, w.last()).1 is None {
                Some(step(s1, w.last()).0)
            } else {
                None
            },
            None => None,
        }
    }
}

/// While nothing has been emitted and every symbol read is pending, the
/// lexer has made quiet moves only.
proof fn lemma_quiet_walk_from_run(p: Seq<char>, s: SubMachine)
    requires
        lex_run(p) == (Seq::<(Token, Seq<char>)>::empty(), p, s),
    ensures
        quiet_walk(SubMachine::StartMachine, p) == Some(s),
    decreases p.len(),
{
    if p.len() > 0 {
        let q = p.drop_last();
        let c = p.last();
        assert(q.push(c) =~= p);
        lemma_lex_push(q, c);
        let (u, pe, s1) = lex_run(q);
        let (s2, t2) = step(s1, c);
        if t2 is Some {
            let t = t2->0;
            if finished_by_next(t) {
                let (s3, t3) = step(s2, c);
                assert(u.push((t, pe)).len() > 0);
                if t3 is Some {
                    assert(u.push((t, pe)).push((t3->0, seq![c])).len() > 0);
                }
            } else {
                assert(u.push((t, pe.push(c))).len() > 0);
            }
        } else {
            assert(pe.push(c) == p);
            assert(pe =~= pe.push(c).drop_last());
            lemma_quiet_walk_from_run(q, s1);
        }
    }
}

/// The length of the text spelled by units is at least that of the first
/// unit's lexime.
proof fn lemma_spelled_covers_first(units: Seq<(Token, Seq<char>)>)
    requires
        units.len() > 0,
    ensures
        spelled(units).len() >= units[0].1.len(),
    decreases units.len(),
{
    if units.len() > 1 {
        lemma_spelled_covers_first(units.drop_last());
    } else {
        assert(units.drop_last() =~= Seq::<(Token, Seq<char>)>::empty());
    }
}

/// Keywords are recognised symbol by symbol, whatever the case of their
/// letters (the last letter of `file` small only): from the start state,
/// every letter but the last moves the machine on without emitting, and the
/// last letter emits the keyword's token and returns to the start state.
pub proof fn law_keyword_transitions(w: Seq<char>, t: Token)
    requires
        spells_keyword(w, t),
    ensures
        quiet_walk(SubMachine::StartMachine, w.drop_last()) is Some,
        step(quiet_walk(SubMachine::StartMachine, w.drop_last())->0, w.last()) == (
            SubMachine::StartMachine,
            Some(t),
        ),
{
    law_keywords_read_as_tokens(w, t);
    lemma_single_unit_walk(w, t);
}

/// An input read as one unit that is not finished by the next symbol: every
/// symbol but the last moves quietly, and the last emits the unit.
#[verifier::spinoff_prover]
#[verifier::rlimit(100)]
proof fn lemma_single_unit_walk(w: Seq<char>, t: Token)
    requires
        w.len() > 0,
        lexed(w) == seq![(t, w)],
        at_rest(w),
    ensures
        quiet_walk(SubMachine::StartMachine, w.drop_last()) is Some,
        step(quiet_walk(SubMachine::StartMachine, w.drop_last())->0, w.last()) == (
            SubMachine::StartMachine,
            Some(t),
        ),
{
    let p = w.drop_last();
    let c = w.last();
    assert(p.push(c) =~= w);
    assert(p + seq![c] =~= w);
    lemma_lex_push(p, c);
    law_units_only_grow(p, seq![c]);
    law_leximes_spell_input(p);
    let (u, pe, s1) = lex_run(p);
    if u.len() > 0 {
        assert(u[0] == lexed(w)[0]);
        lemma_spelled_covers_first(u);
        assert(false);
    }
    assert(u =~= Seq::<(Token, Seq<char>)>::empty());
    assert(spelled(u) =~= Seq::<char>::empty());
    assert(pe =~= p);
    lemma_quiet_walk_from_run(p, s1);
    let (s2, t2) = step(s1, c);
    if t2 is Some && finished_by_next(t2->0) {
        let (s3, t3) = step(s2, c);
        if t3 is Some {
            assert(u.push((t2->0, pe)).push((t3->0, seq![c]))[0] == (t2->0, pe));
        } else {
            assert(u.push((t2->0, pe))[0] == (t2->0, pe));
        }
        assert(lexed(w)[0].1 == w);
        assert(pe.len() < w.len());
    }
    assert(lex_run(w) == lex_symbol(u, pe, s1, c));
    assert(t2 is Some);
    assert(!finished_by_next(t2->0));
    assert(lex_run(w).0 == seq![(t2->0, pe.push(c))]);
    assert(lexed(w)[0] == lex_run(w).0[0]);
    assert(seq![(t2->0, pe.push(c))][0] == (t2->0, pe.push(c)));
    assert(seq![(t, w)][0] == (t, w));
}

} // verus!

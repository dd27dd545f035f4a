//! The scanner: a text, two cursors into it, and one token per request.

use crate::chars::{is_digit, lemma_run_end, lemma_run_end_unique, run_end, CharClass};
use crate::grammar::{
    keyword_let, keyword_print, number_token, word_token, Lexeme, LexerState, TokenView,
};
use crate::numeral::parse_decimal;
use vstd::prelude::*;
use vstd::string::StrSliceExecFns;

verus! {

/// One lexical unit of the language.
#[derive(Debug, PartialEq)]
pub enum Token {
    /// The keyword `let`.
    Let,
    /// A run of letters that is no keyword, with its text.
    Ident(String),
    /// An integer literal, with a `-` sign or without.
    Num(i64),
    LParen,
    RParen,
    Plus,
    Minus,
    Multiply,
    Divide,
    /// The keyword `print`.
    PrintMethod,
    /// The end of the text, or a NUL character in it.
    Eof,
    /// A character that belongs to no token.
    Illegal,
}

impl View for Token {
    type V = TokenView;

    open spec fn view(&self) -> TokenView {
        match self {
            Token::Let => TokenView::Let,
            Token::Ident(text) => TokenView::Ident(text@),
            Token::Num(value) => TokenView::Num(*value),
            Token::LParen => TokenView::LParen,
            Token::RParen => TokenView::RParen,
            Token::Plus => TokenView::Plus,
            Token::Minus => TokenView::Minus,
            Token::Multiply => TokenView::Multiply,
            Token::Divide => TokenView::Divide,
            Token::PrintMethod => TokenView::PrintMethod,
            Token::Eof => TokenView::Eof,
            Token::Illegal => TokenView::Illegal,
        }
    }
}

/// Why a request gave no token.
#[derive(Debug, PartialEq, Eq, Clone, Copy)]
pub enum LexError {
    /// A run of digits denotes a number above `i64::MAX`.
    NumberOverflow,
}

/// The mathematical value of what a request returned.
pub open spec fn lexeme_view(r: Result<Token, LexError>) -> Lexeme {
    match r {
        Ok(token) => Ok(token@),
        Err(e) => Err(e),
    }
}

/// The mathematical values of a list of such results, in order.
pub open spec fn lexeme_views(rs: Seq<Result<Token, LexError>>) -> Seq<Lexeme> {
    rs.map_values(|r: Result<Token, LexError>| lexeme_view(r))
}

/// Whether two texts are the same sequence of characters.
fn same_text(a: &str, b: &str) -> (same: bool)
    ensures
        same == (a@ == b@),
{
    let n = a.unicode_len();
    if n != b.unicode_len() {
        return false;
    }
    let mut i: usize = 0;
    while i < n
        invariant
            i <= n,
            n == a@.len(),
            n == b@.len(),
            forall|k: int| 0 <= k < i ==> a@[k] == b@[k],
        decreases n - i,
    {
        if a.get_char(i) != b.get_char(i) {
            return false;
        }
        i = i + 1;
    }
    proof {
        assert(a@ =~= b@);
    }
    true
}

/// A scanner over a text. It owns the text and gives its tokens one by one,
/// from the first to the `Eof` that stands for the end of the text.
#[derive(Debug)]
pub struct Lexer {
    input: String,
    /// Where the token being built starts.
    pos: usize,
    /// The lookahead: the place after the last character taken so far.
    next_pos: usize,
}

impl View for Lexer {
    type V = LexerState;

    closed spec fn view(&self) -> LexerState {
        LexerState { input: self.input@, pos: self.pos as int, next_pos: self.next_pos as int }
    }
}

impl Lexer {
    /// What holds of a scanner between two requests: the cursors are at
    /// rest, and both can still move to where the end of the text sends them.
    pub open spec fn inv(&self) -> bool {
        self@.at_rest() && self@.input.len() + 2 <= usize::MAX
    }

    /// A scanner at the start of `input`. The cursors end two places past
    /// the text, so its length has to leave that room in a `usize`.
    pub fn new(input: &str) -> (lexer: Lexer)
        requires
            input@.len() + 2 <= usize::MAX,
        ensures
            lexer.inv(),
            lexer@ == LexerState::fresh(input@),
    {
        Lexer { input: input.to_string(), pos: 0, next_pos: 1 }
    }

    /// A scanner at the start of `input`, or `None` where the text is too
    /// long for `new`.
    pub fn try_new(input: &str) -> (r: Option<Lexer>)
        ensures
            match r {
                Some(lexer) => input@.len() + 2 <= usize::MAX && lexer.inv() && lexer@
                    == LexerState::fresh(input@),
                None => input@.len() + 2 > usize::MAX,
            },
    {
        if input.unicode_len() <= usize::MAX - 2 {
            Some(Lexer::new(input))
        } else {
            None
        }
    }

    /// Moves the lookahead to the end of the run of `class` that it stands in.
    fn read_run(&mut self, class: CharClass)
        requires
            old(self).next_pos <= old(self).input@.len(),
        ensures
            final(self)@ == (LexerState {
                next_pos: run_end(old(self)@.input, class, old(self)@.next_pos),
                ..old(self)@
            }),
    {
        let len = self.input.as_str().unicode_len();
        let ghost from = self.next_pos as int;
        while self.next_pos < len && class.test(self.input.as_str().get_char(self.next_pos))
            invariant
                self.input == old(self).input,
                self.pos == old(self).pos,
                len == self.input@.len(),
                from <= self.next_pos <= len,
                forall|k: int| from <= k < self.next_pos ==> class.holds(#[trigger] self.input@[k]),
            decreases len - self.next_pos,
        {
            self.next_pos += 1;
        }
        proof {
            lemma_run_end_unique(self.input@, class, from, self.next_pos as int);
        }
    }

    /// Moves the lookahead past the letters that follow it.
    fn read_alphabet(&mut self)
        requires
            old(self).next_pos <= old(self).input@.len(),
        ensures
            final(self)@ == (LexerState {
                next_pos: run_end(old(self)@.input, CharClass::Letter, old(self)@.next_pos),
                ..old(self)@
            }),
    {
        self.read_run(CharClass::Letter)
    }

    /// Moves the lookahead past the digits that follow it.
    fn read_numeral(&mut self)
        requires
            old(self).next_pos <= old(self).input@.len(),
        ensures
            final(self)@ == (LexerState {
                next_pos: run_end(old(self)@.input, CharClass::Digit, old(self)@.next_pos),
                ..old(self)@
            }),
    {
        self.read_run(CharClass::Digit)
    }

    /// Moves both cursors past the whitespace at the current position.
    fn eat_whitespace(&mut self)
        requires
            old(self).inv(),
            !old(self)@.exhausted(),
        ensures
            final(self).inv(),
            final(self)@.input == old(self)@.input,
            final(self)@.pos == old(self)@.token_start(),
    {
        let len = self.input.as_str().unicode_len();
        let ghost from = self.pos as int;
        while self.pos < len && CharClass::Space.test(self.input.as_str().get_char(self.pos))
            invariant
                self.input == old(self).input,
                len == self.input@.len(),
                len + 2 <= usize::MAX,
                from <= self.pos <= len,
                self.next_pos == self.pos + 1,
                forall|k: int|
                    from <= k < self.pos ==> CharClass::Space.holds(#[trigger] self.input@[k]),
            decreases len - self.pos,
        {
            self.pos = self.next_pos;
            self.next_pos += 1;
        }
        proof {
            lemma_run_end_unique(self.input@, CharClass::Space, from, self.pos as int);
        }
    }

    /// The token of the letters between the cursors.
    fn word(&self) -> (token: Token)
        requires
            self.pos <= self.next_pos <= self.input@.len(),
        ensures
            token@ == word_token(self.input@.subrange(self.pos as int, self.next_pos as int)),
    {
        let text = self.input.as_str().substring_char(self.pos, self.next_pos);
        proof {
            reveal_strlit("let");
            reveal_strlit("print");
            assert("let"@ =~= keyword_let());
            assert("print"@ =~= keyword_print());
        }
        if same_text(text, "let") {
            Token::Let
        } else if same_text(text, "print") {
            Token::PrintMethod
        } else {
            Token::Ident(text.to_string())
        }
    }

    /// The outcome of the digits between the cursors, after a `-` sign if
    /// `negative`.
    fn number(&self, negative: bool) -> (r: Result<Token, LexError>)
        requires
            self.pos <= self.next_pos <= self.input@.len(),
            forall|k: int| self.pos <= k < self.next_pos ==> is_digit(#[trigger] self.input@[k]),
        ensures
            lexeme_view(r) == number_token(
                self.input@.subrange(self.pos as int, self.next_pos as int),
                negative,
            ),
    {
        match parse_decimal(self.input.as_str(), self.pos, self.next_pos) {
            Some(value) => Ok(Token::Num(if negative { -value } else { value })),
            None => Err(LexError::NumberOverflow),
        }
    }

    /// Gives the next token, or `None` once the final `Eof` has been given.
    ///
    /// Whitespace before the token is skipped. A run of digits above
    /// `i64::MAX` gives `NumberOverflow` and is passed over like a token.
    pub fn next(&mut self) -> (r: Option<Result<Token, LexError>>)
        requires
            old(self).inv(),
        ensures
            final(self).inv(),
            match old(self)@.step() {
                Some((lexeme, state)) => r matches Some(t) && lexeme_view(t) == lexeme
                    && final(self)@ == state,
                None => r is None && final(self)@ == old(self)@,
            },
    {
        let len = self.input.as_str().unicode_len();
        if self.pos > len {
            return None;
        }
        self.eat_whitespace();
        proof {
            old(self)@.lemma_advance();
        }
        let ghost text = self.input@;
        let ghost start = self.pos as int;
        let token = if self.pos >= len {
            Ok(Token::Eof)
        } else {
            let ch = self.input.as_str().get_char(self.pos);
            match ch {
                '(' => Ok(Token::LParen),
                ')' => Ok(Token::RParen),
                '+' => Ok(Token::Plus),
                '-' => {
                    if self.next_pos < len && CharClass::Digit.test(
                        self.input.as_str().get_char(self.next_pos),
                    ) {
                        self.pos += 1;
                        self.read_numeral();
                        proof {
                            lemma_run_end(text, CharClass::Digit, start + 1);
                        }
                        self.number(true)
                    } else {
                        Ok(Token::Minus)
                    }
                },
                '*' => Ok(Token::Multiply),
                '/' => Ok(Token::Divide),
                '\0' => Ok(Token::Eof),
                _ => {
                    if CharClass::Letter.test(ch) {
                        self.read_alphabet();
                        proof {
                            lemma_run_end(text, CharClass::Letter, start + 1);
                        }
                        Ok(self.word())
                    } else if CharClass::Digit.test(ch) {
                        self.read_numeral();
                        proof {
                            lemma_run_end(text, CharClass::Digit, start + 1);
                        }
                        self.number(false)
                    } else {
                        Ok(Token::Illegal)
                    }
                },
            }
        };
        self.pos = self.next_pos;
        self.next_pos += 1;
        Some(token)
    }

    /// Runs the scanner to its end and gives all that was left in it, in
    /// order: the list ends with the final `Eof`, and is empty if that has
    /// been given before.
    pub fn collect(self) -> (tokens: Vec<Result<Token, LexError>>)
        requires
            self.inv(),
        ensures
            lexeme_views(tokens@) == self@.stream(),
    {
        let mut lexer = self;
        let mut tokens: Vec<Result<Token, LexError>> = Vec::new();
        loop
            invariant
                lexer.inv(),
                lexeme_views(tokens@) + lexer@.stream() =~= self@.stream(),
            ensures
                lexer@.exhausted(),
            decreases lexer@.input.len() + 1 - lexer@.pos,
        {
            proof {
                if !lexer@.exhausted() {
                    lexer@.lemma_advance();
                }
            }
            let ghost before = tokens@;
            match lexer.next() {
                Some(token) => {
                    tokens.push(token);
                    proof {
                        assert(lexeme_views(tokens@) =~= lexeme_views(before).push(
                            lexeme_view(token),
                        ));
                    }
                },
                None => {
                    break ;
                },
            }
        }
        tokens
    }
}

} // verus!

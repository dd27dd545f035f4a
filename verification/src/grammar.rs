//! The token grammar as a mathematical model: which token a position of a text
//! yields, where that token ends, and the stream of tokens that a scanner
//! state still has to give.

use crate::chars::{is_digit, is_letter, lemma_run_end, run_end, CharClass};
use crate::lexer::LexError;
use crate::numeral::decimal_value;
use vstd::prelude::*;

verus! {

/// A token as a mathematical value: an identifier carries its text as a
/// sequence of characters.
pub enum TokenView {
    Let,
    Ident(Seq<char>),
    Num(i64),
    LParen,
    RParen,
    Plus,
    Minus,
    Multiply,
    Divide,
    PrintMethod,
    Eof,
    Illegal,
}

/// What one request to the scanner yields: a token, or the reason why the
/// characters at hand are none.
pub type Lexeme = Result<TokenView, LexError>;

/// The text of the keyword `let`.
pub open spec fn keyword_let() -> Seq<char> {
    seq!['l', 'e', 't']
}

/// The text of the keyword `print`.
pub open spec fn keyword_print() -> Seq<char> {
    seq!['p', 'r', 'i', 'n', 't']
}

/// The token of a run of letters: a keyword if the run spells one, else an
/// identifier with the run as its text.
pub open spec fn word_token(word: Seq<char>) -> TokenView {
    if word == keyword_let() {
        TokenView::Let
    } else if word == keyword_print() {
        TokenView::PrintMethod
    } else {
        TokenView::Ident(word)
    }
}

/// The outcome of a run of digits, after a `-` sign if `negative`: the run is
/// read as a number first and negated afterwards, so a run above `i64::MAX`
/// is an overflow with or without the sign.
pub open spec fn number_token(digits: Seq<char>, negative: bool) -> Lexeme {
    let value = decimal_value(digits);
    if value > i64::MAX {
        Err(LexError::NumberOverflow)
    } else if negative {
        Ok(TokenView::Num((-value) as i64))
    } else {
        Ok(TokenView::Num(value as i64))
    }
}

/// The token of a character that is neither a letter nor a digit, taken by
/// itself.
pub open spec fn symbol_token(c: char) -> TokenView {
    if c == '(' {
        TokenView::LParen
    } else if c == ')' {
        TokenView::RParen
    } else if c == '+' {
        TokenView::Plus
    } else if c == '-' {
        TokenView::Minus
    } else if c == '*' {
        TokenView::Multiply
    } else if c == '/' {
        TokenView::Divide
    } else if c == '\0' {
        TokenView::Eof
    } else {
        TokenView::Illegal
    }
}

/// One scanned token: what it is, and the index just past its last character.
pub struct Scan {
    pub token: Lexeme,
    pub end: int,
}

/// Whether a negative numeral starts at `start`: a `-` with a digit right
/// after it.
pub open spec fn starts_negative(s: Seq<char>, start: int) -> bool {
    0 <= start && start + 1 < s.len() && s[start] == '-' && is_digit(s[start + 1])
}

/// The token that starts at `start`, which is taken not to be whitespace.
///
/// * At the end of the text: `Eof`, one place wide.
/// * `-` with a digit right after it: the maximal run of digits that follows,
///   as a negative number.
/// * A letter: the maximal run of letters, as a keyword or an identifier.
/// * A digit: the maximal run of digits, as a number.
/// * Any other character: its own token, one character wide.
pub open spec fn scan_token(s: Seq<char>, start: int) -> Scan {
    if !(0 <= start < s.len()) {
        Scan { token: Ok(TokenView::Eof), end: start + 1 }
    } else if starts_negative(s, start) {
        let end = run_end(s, CharClass::Digit, start + 1);
        Scan { token: number_token(s.subrange(start + 1, end), true), end }
    } else if is_letter(s[start]) {
        let end = run_end(s, CharClass::Letter, start);
        Scan { token: Ok(word_token(s.subrange(start, end))), end }
    } else if is_digit(s[start]) {
        let end = run_end(s, CharClass::Digit, start);
        Scan { token: number_token(s.subrange(start, end), false), end }
    } else {
        Scan { token: Ok(symbol_token(s[start])), end: start + 1 }
    }
}

/// A token is at least one place wide and ends no further than one place
/// past the text.
pub proof fn lemma_scan_token_end(s: Seq<char>, start: int)
    requires
        0 <= start <= s.len(),
    ensures
        start < scan_token(s, start).end <= s.len() + 1,
        start < s.len() ==> scan_token(s, start).end <= s.len(),
{
    if start < s.len() {
        if starts_negative(s, start) {
            lemma_run_end(s, CharClass::Digit, start + 1);
        } else if is_letter(s[start]) {
            lemma_run_end(s, CharClass::Letter, start);
        } else if is_digit(s[start]) {
            lemma_run_end(s, CharClass::Digit, start);
        }
    }
}

/// The state of a scanner: the text and two cursors into it. Between two
/// requests `pos` is where the next token is looked for and `next_pos` is
/// the place after it.
pub struct LexerState {
    pub input: Seq<char>,
    pub pos: int,
    pub next_pos: int,
}

impl LexerState {
    /// The state of a scanner that has given nothing yet.
    pub open spec fn fresh(input: Seq<char>) -> LexerState {
        LexerState { input, pos: 0, next_pos: 1 }
    }

    /// The shape of a state between two requests.
    pub open spec fn at_rest(self) -> bool {
        0 <= self.pos <= self.input.len() + 1 && self.next_pos == self.pos + 1
    }

    /// Whether the scanner has gone past the end of its text, which it does
    /// by giving the final `Eof`.
    pub open spec fn exhausted(self) -> bool {
        self.pos > self.input.len()
    }

    /// Where the next token starts: the first place at or after `pos` that
    /// holds no whitespace.
    pub open spec fn token_start(self) -> int {
        run_end(self.input, CharClass::Space, self.pos)
    }

    /// The next token and its end.
    pub open spec fn scan(self) -> Scan {
        scan_token(self.input, self.token_start())
    }

    /// The state after the next token has been given.
    pub open spec fn advance(self) -> LexerState {
        LexerState { input: self.input, pos: self.scan().end, next_pos: self.scan().end + 1 }
    }

    /// One request: nothing once exhausted, else the next token together
    /// with the state that follows.
    pub open spec fn step(self) -> Option<(Lexeme, LexerState)> {
        if self.exhausted() {
            None
        } else {
            Some((self.scan().token, self.advance()))
        }
    }

    /// Everything that the scanner still has to give, in order.
    pub open spec fn stream(self) -> Seq<Lexeme>
        decreases self.input.len() + 1 - self.pos,
    {
        if self.at_rest() && !self.exhausted() {
            proof {
                self.lemma_advance();
            }
            seq![self.scan().token] + self.advance().stream()
        } else {
            Seq::empty()
        }
    }

    /// Where the tokens of `stream` lie in the text, in the same order: for
    /// each the index of its first character and the index after its last.
    /// The final `Eof` lies at the end of the text, one place wide.
    pub open spec fn spans(self) -> Seq<(int, int)>
        decreases self.input.len() + 1 - self.pos,
    {
        if self.at_rest() && !self.exhausted() {
            proof {
                self.lemma_advance();
            }
            seq![(self.token_start(), self.scan().end)] + self.advance().spans()
        } else {
            Seq::empty()
        }
    }

    /// A request moves both cursors of a live scanner forward and leaves it
    /// at rest, with only whitespace between the old position and the token.
    pub proof fn lemma_advance(self)
        requires
            self.at_rest(),
            !self.exhausted(),
        ensures
            self.advance().at_rest(),
            self.pos <= self.token_start() < self.advance().pos,
            self.next_pos < self.advance().next_pos,
            self.token_start() <= self.input.len(),
            forall|k: int|
                self.pos <= k < self.token_start() ==> CharClass::Space.holds(
                    #[trigger] self.input[k],
                ),
            self.token_start() < self.input.len() ==> !CharClass::Space.holds(
                self.input[self.token_start()],
            ),
    {
        lemma_run_end(self.input, CharClass::Space, self.pos);
        lemma_scan_token_end(self.input, self.token_start());
    }
}

} // verus!

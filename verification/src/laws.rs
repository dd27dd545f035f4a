//! Laws of the grammar: what holds of the tokens of every text.

use crate::chars::{is_digit, is_letter, is_space, lemma_run_end, run_end, CharClass};
use crate::grammar::{
    lemma_scan_token_end, scan_token, starts_negative, symbol_token, Lexeme, LexerState,
    TokenView,
};
use crate::lexer::{lexeme_view, lexeme_views, LexError, Token};
use crate::numeral::decimal_value;
use vstd::prelude::*;

verus! {

/// The parentheses and the four signs of arithmetic.
pub open spec fn is_operator(c: char) -> bool {
    c == '(' || c == ')' || c == '+' || c == '-' || c == '*' || c == '/'
}

/// Whether `s` holds nothing but operators and whitespace.
pub open spec fn operators_only(s: Seq<char>) -> bool {
    forall|i: int| 0 <= i < s.len() ==> is_operator(#[trigger] s[i]) || is_space(s[i])
}

/// Whether `s` holds nothing but whitespace.
pub open spec fn spaces_only(s: Seq<char>) -> bool {
    forall|i: int| 0 <= i < s.len() ==> is_space(#[trigger] s[i])
}

/// The test by which whitespace is left out of a text.
pub open spec fn not_space() -> spec_fn(char) -> bool {
    |c: char| !is_space(c)
}

/// The map from a character to its own token.
pub open spec fn to_symbol() -> spec_fn(char) -> Lexeme {
    |c: char| Ok(symbol_token(c))
}

/// Each character of `s` that is no whitespace, turned into its own token,
/// in order, and `Eof` after the last.
pub open spec fn symbols_then_eof(s: Seq<char>) -> Seq<Lexeme> {
    s.filter(not_space()).map_values(to_symbol()).push(Ok(TokenView::Eof))
}

/// A filter passes over a stretch of characters that all fail its test: the
/// rest of the text from the start of the stretch filters as from its end.
proof fn lemma_filter_passes_over(s: Seq<char>, from: int, to: int, test: spec_fn(char) -> bool)
    requires
        0 <= from <= to <= s.len(),
        forall|k: int| from <= k < to ==> !test(#[trigger] s[k]),
    ensures
        s.subrange(from, s.len() as int).filter(test) == s.subrange(to, s.len() as int).filter(
            test,
        ),
    decreases to - from,
{
    if from < to {
        let rest = s.subrange(from + 1, s.len() as int);
        assert(s.subrange(from, s.len() as int) =~= seq![s[from]] + rest);
        rest.lemma_filter_prepend(s[from], test);
        assert(Seq::<char>::empty() + rest.filter(test) =~= rest.filter(test));
        lemma_filter_passes_over(s, from + 1, to, test);
    }
}

/// The stream that is left once only the end of the text is: `Eof` alone.
proof fn lemma_stream_at_end(st: LexerState)
    requires
        st.at_rest(),
        st.token_start() == st.input.len(),
    ensures
        st.stream() == seq![Ok::<TokenView, LexError>(TokenView::Eof)],
{
    lemma_run_end(st.input, CharClass::Space, st.pos);
    assert(st.advance().stream() =~= Seq::<Lexeme>::empty());
    assert(st.stream() =~= seq![Ok::<TokenView, LexError>(TokenView::Eof)]);
}

/// The law of `lemma_operators_map_one_to_one`, from any place in the text.
proof fn lemma_operator_stream(st: LexerState)
    requires
        st.at_rest(),
        !st.exhausted(),
        operators_only(st.input),
    ensures
        st.stream() == symbols_then_eof(st.input.subrange(st.pos, st.input.len() as int)),
    decreases st.input.len() - st.pos,
{
    let s = st.input;
    let n = s.len() as int;
    let start = st.token_start();
    st.lemma_advance();
    lemma_filter_passes_over(s, st.pos, start, not_space());
    if start == n {
        lemma_stream_at_end(st);
        reveal(Seq::filter);
        assert(s.subrange(n, n) =~= Seq::<char>::empty());
        assert(symbols_then_eof(s.subrange(n, n)) =~= seq![
            Ok::<TokenView, LexError>(TokenView::Eof),
        ]);
    } else {
        let next = st.advance();
        let rest = s.subrange(start + 1, n);
        assert(is_operator(s[start]));
        if start + 1 < n {
            assert(is_operator(s[start + 1]) || is_space(s[start + 1]));
        }
        assert(st.scan().token == Ok::<TokenView, LexError>(symbol_token(s[start])));
        assert(next.pos == start + 1);
        lemma_operator_stream(next);
        assert(s.subrange(start, n) =~= seq![s[start]] + rest);
        rest.lemma_filter_prepend(s[start], not_space());
        assert(symbols_then_eof(s.subrange(start, n)) =~= seq![
            Ok::<TokenView, LexError>(symbol_token(s[start])),
        ] + symbols_then_eof(rest));
    }
}

/// A text of operators and whitespace gives one token for each operator, in
/// the order of the text, and then `Eof`.
pub proof fn lemma_operators_map_one_to_one(s: Seq<char>)
    requires
        operators_only(s),
    ensures
        LexerState::fresh(s).stream() == symbols_then_eof(s),
{
    lemma_operator_stream(LexerState::fresh(s));
    assert(s.subrange(0, s.len() as int) =~= s);
}

/// A text of whitespace alone, the empty text among them, gives `Eof` and
/// nothing else.
pub proof fn lemma_whitespace_gives_eof(s: Seq<char>)
    requires
        spaces_only(s),
    ensures
        LexerState::fresh(s).stream() == seq![Ok::<TokenView, LexError>(TokenView::Eof)],
{
    let st = LexerState::fresh(s);
    lemma_run_end(s, CharClass::Space, 0);
    lemma_stream_at_end(st);
}

/// Scanning is a function of the text: what two scanners give that were set
/// up on the same text is the same, token by token.
pub proof fn lemma_rescan_gives_same(
    s: Seq<char>,
    first: Seq<Result<Token, LexError>>,
    second: Seq<Result<Token, LexError>>,
)
    requires
        lexeme_views(first) == LexerState::fresh(s).stream(),
        lexeme_views(second) == LexerState::fresh(s).stream(),
    ensures
        first.len() == second.len(),
        forall|i: int| 0 <= i < first.len() ==> lexeme_view(first[i]) == lexeme_view(second[i]),
{
    assert(lexeme_views(first).len() == first.len());
    assert(lexeme_views(second).len() == second.len());
    assert forall|i: int| 0 <= i < first.len() implies lexeme_view(first[i]) == lexeme_view(
        second[i],
    ) by {
        assert(lexeme_views(first)[i] == lexeme_view(first[i]));
        assert(lexeme_views(second)[i] == lexeme_view(second[i]));
    }
}

/// The stream of a scanner that is not exhausted has an entry, has no more
/// entries than there are places left in the text and one for its end, and
/// ends with `Eof`.
pub proof fn lemma_stream_ends_with_eof(st: LexerState)
    requires
        st.at_rest(),
        !st.exhausted(),
    ensures
        1 <= st.stream().len() <= st.input.len() + 1 - st.pos,
        st.stream().last() == Ok::<TokenView, LexError>(TokenView::Eof),
    decreases st.input.len() + 1 - st.pos,
{
    st.lemma_advance();
    lemma_scan_token_end(st.input, st.token_start());
    let next = st.advance();
    if next.exhausted() {
        assert(next.stream() =~= Seq::<Lexeme>::empty());
    } else {
        lemma_stream_ends_with_eof(next);
    }
}

/// In a text without a NUL character `Eof` comes once, as the last token:
/// no entry of the stream before the last is `Eof`.
pub proof fn lemma_eof_only_at_end(st: LexerState)
    requires
        st.at_rest(),
        forall|k: int| 0 <= k < st.input.len() ==> st.input[k] != '\0',
    ensures
        forall|i: int|
            0 <= i < st.stream().len() - 1 ==> st.stream()[i] != Ok::<TokenView, LexError>(
                TokenView::Eof,
            ),
    decreases st.input.len() + 1 - st.pos,
{
    if !st.exhausted() {
        st.lemma_advance();
        lemma_scan_token_end(st.input, st.token_start());
        let next = st.advance();
        lemma_eof_only_at_end(next);
        if next.exhausted() {
            assert(next.stream() =~= Seq::<Lexeme>::empty());
        }
        assert forall|i: int| 0 <= i < st.stream().len() - 1 implies st.stream()[i] != Ok::<
            TokenView,
            LexError,
        >(TokenView::Eof) by {
            if i > 0 {
                assert(st.stream()[i] == next.stream()[i - 1]);
            }
        }
    }
}

/// No character of a token is whitespace.
pub proof fn lemma_token_holds_no_space(s: Seq<char>, start: int, k: int)
    requires
        0 <= start < s.len(),
        !is_space(s[start]),
        start <= k < scan_token(s, start).end,
    ensures
        k < s.len(),
        !is_space(s[k]),
{
    if starts_negative(s, start) {
        lemma_run_end(s, CharClass::Digit, start + 1);
    } else if is_letter(s[start]) {
        lemma_run_end(s, CharClass::Letter, start);
    } else if is_digit(s[start]) {
        lemma_run_end(s, CharClass::Digit, start);
    }
}

/// The tokens tile the text: they lie in it one after another without
/// overlap, none holds whitespace, and every character from the scanner's
/// position on that is in no token is whitespace.
pub proof fn lemma_spans_tile(st: LexerState)
    requires
        st.at_rest(),
    ensures
        st.spans().len() == st.stream().len(),
        forall|i: int|
            0 <= i < st.spans().len() ==> st.pos <= (#[trigger] st.spans()[i]).0 < st.spans()[i].1
                <= st.input.len() + 1,
        forall|i: int, j: int|
            0 <= i < j < st.spans().len() ==> (#[trigger] st.spans()[i]).1 <= (
            #[trigger] st.spans()[j]).0,
        forall|i: int, k: int|
            0 <= i < st.spans().len() && (#[trigger] st.spans()[i]).0 <= k < st.spans()[i].1 && k
                < st.input.len() ==> !is_space(#[trigger] st.input[k]),
        forall|k: int|
            st.pos <= k < st.input.len() && !is_space(#[trigger] st.input[k]) ==> exists|i: int|
                0 <= i < st.spans().len() && (#[trigger] st.spans()[i]).0 <= k < st.spans()[i].1,
    decreases st.input.len() + 1 - st.pos,
{
    if !st.exhausted() {
        st.lemma_advance();
        let s = st.input;
        let start = st.token_start();
        let end = st.scan().end;
        let next = st.advance();
        let spans = st.spans();
        lemma_spans_tile(next);
        assert(spans =~= seq![(start, end)] + next.spans());
        assert(spans[0] == (start, end));
        assert forall|i: int| 0 < i < spans.len() implies spans[i] == next.spans()[i - 1] by {}
        assert forall|i: int, j: int| 0 <= i < j < spans.len() implies (#[trigger] spans[i]).1 <= (
        #[trigger] spans[j]).0 by {
            assert(spans[j] == next.spans()[j - 1]);
            if i > 0 {
                assert(spans[i] == next.spans()[i - 1]);
            }
        }
        assert forall|i: int, k: int|
            0 <= i < spans.len() && (#[trigger] spans[i]).0 <= k < spans[i].1 && k
                < s.len() implies !is_space(#[trigger] s[k]) by {
            if i == 0 {
                lemma_token_holds_no_space(s, start, k);
            } else {
                assert(spans[i] == next.spans()[i - 1]);
            }
        }
        assert forall|k: int| st.pos <= k < s.len() && !is_space(#[trigger] s[k]) implies exists|
            i: int,
        |
            0 <= i < spans.len() && (#[trigger] spans[i]).0 <= k < spans[i].1 by {
            if k < end {
                assert(CharClass::Space.holds(s[k]) == is_space(s[k]));
                assert(spans[0].0 <= k < spans[0].1);
            } else {
                let i = choose|i: int|
                    0 <= i < next.spans().len() && (#[trigger] next.spans()[i]).0 <= k
                        < next.spans()[i].1;
                assert(spans[i + 1] == next.spans()[i]);
            }
        }
    }
}

/// The parentheses and the signs `+`, `*` and `/`: the operators that are
/// a token by themselves wherever they stand.
pub open spec fn is_plain_operator(c: char) -> bool {
    c == '(' || c == ')' || c == '+' || c == '*' || c == '/'
}

/// The test for the character `c`.
pub open spec fn is_char(c: char) -> spec_fn(char) -> bool {
    |x: char| x == c
}

/// The test for the token `t`.
pub open spec fn is_token(t: TokenView) -> spec_fn(Lexeme) -> bool {
    |x: Lexeme| x == Ok::<TokenView, LexError>(t)
}

/// How often the character `c` stands in `s`.
pub open spec fn char_count(s: Seq<char>, c: char) -> nat {
    s.filter(is_char(c)).len()
}

/// How often the token `t` stands in `stream`.
pub open spec fn token_count(stream: Seq<Lexeme>, t: TokenView) -> nat {
    stream.filter(is_token(t)).len()
}

/// The law of `lemma_operator_counts_agree`, from any place in the text.
proof fn lemma_operator_counts_agree_from(st: LexerState, c: char)
    requires
        st.at_rest(),
        !st.exhausted(),
        is_plain_operator(c),
    ensures
        token_count(st.stream(), symbol_token(c)) == char_count(
            st.input.subrange(st.pos, st.input.len() as int),
            c,
        ),
    decreases st.input.len() + 1 - st.pos,
{
    let s = st.input;
    let n = s.len() as int;
    let start = st.token_start();
    let end = st.scan().end;
    let next = st.advance();
    let token = st.scan().token;
    let wanted = is_token(symbol_token(c));
    st.lemma_advance();
    lemma_scan_token_end(s, start);
    assert forall|k: int| st.pos <= k < start implies !is_char(c)(#[trigger] s[k]) by {
        assert(CharClass::Space.holds(s[k]));
    }
    lemma_filter_passes_over(s, st.pos, start, is_char(c));
    assert(st.stream() =~= seq![token] + next.stream());
    next.stream().lemma_filter_prepend(token, wanted);
    if start == n {
        reveal(Seq::filter);
        assert(next.stream() =~= Seq::<Lexeme>::empty());
        assert(s.subrange(n, n) =~= Seq::<char>::empty());
    } else {
        lemma_operator_counts_agree_from(next, c);
        if starts_negative(s, start) || is_letter(s[start]) || is_digit(s[start]) {
            if starts_negative(s, start) {
                lemma_run_end(s, CharClass::Digit, start + 1);
            } else if is_letter(s[start]) {
                lemma_run_end(s, CharClass::Letter, start);
            } else {
                lemma_run_end(s, CharClass::Digit, start);
            }
            assert forall|k: int| start <= k < end implies !is_char(c)(#[trigger] s[k]) by {
                if k > start || !starts_negative(s, start) {
                    assert(CharClass::Digit.holds(s[k]) || CharClass::Letter.holds(s[k]));
                }
            }
            lemma_filter_passes_over(s, start, end, is_char(c));
            assert(!wanted(token));
        } else {
            let rest = s.subrange(start + 1, n);
            assert(s.subrange(start, n) =~= seq![s[start]] + rest);
            rest.lemma_filter_prepend(s[start], is_char(c));
            assert(wanted(token) == is_char(c)(s[start]));
        }
    }
}

/// Each parenthesis of the text gives one parenthesis token and nothing
/// else gives one, so the tokens open and close as often as the text does;
/// the same holds of `+`, `*` and `/`.
pub proof fn lemma_operator_counts_agree(s: Seq<char>, c: char)
    requires
        is_plain_operator(c),
    ensures
        token_count(LexerState::fresh(s).stream(), symbol_token(c)) == char_count(s, c),
{
    lemma_operator_counts_agree_from(LexerState::fresh(s), c);
    assert(s.subrange(0, s.len() as int) =~= s);
}

/// A `-` that is the last character of the text is the token `Minus`, and
/// the stream goes on with the final `Eof`.
pub proof fn lemma_trailing_minus(st: LexerState)
    requires
        st.at_rest(),
        st.token_start() == st.input.len() - 1,
        st.input.len() > 0,
        st.input.last() == '-',
    ensures
        st.scan().token == Ok::<TokenView, LexError>(TokenView::Minus),
        st.stream() == seq![
            Ok::<TokenView, LexError>(TokenView::Minus),
            Ok::<TokenView, LexError>(TokenView::Eof),
        ],
{
    lemma_run_end(st.input, CharClass::Space, st.pos);
    let next = st.advance();
    assert(next.token_start() == st.input.len()) by {
        reveal_with_fuel(run_end, 1);
    }
    lemma_stream_at_end(next);
    assert(st.stream() =~= seq![
        Ok::<TokenView, LexError>(TokenView::Minus),
        Ok::<TokenView, LexError>(TokenView::Eof),
    ]);
}

/// A character is `Illegal` exactly when it is no letter, no digit, no
/// operator and not NUL.
pub proof fn lemma_illegal_iff_unknown(s: Seq<char>, start: int)
    requires
        0 <= start < s.len(),
    ensures
        scan_token(s, start).token == Ok::<TokenView, LexError>(TokenView::Illegal) <==> !(
        is_letter(s[start]) || is_digit(s[start]) || is_operator(s[start]) || s[start] == '\0'),
{
}

/// A run of digits is a number exactly when it denotes no more than
/// `i64::MAX`; a longer one is `NumberOverflow`, never a wrapped number and
/// never `Illegal`. With a `-` in front the number is the negated one.
pub proof fn lemma_numeral_outcome(s: Seq<char>, start: int)
    requires
        0 <= start < s.len(),
        is_digit(s[start]) || starts_negative(s, start),
    ensures
        ({
            let first = if starts_negative(s, start) {
                start + 1
            } else {
                start
            };
            let end = run_end(s, CharClass::Digit, first);
            let value = decimal_value(s.subrange(first, end));
            &&& first < end <= s.len()
            &&& scan_token(s, start).end == end
            &&& scan_token(s, start).token == if value > i64::MAX {
                Err::<TokenView, LexError>(LexError::NumberOverflow)
            } else if starts_negative(s, start) {
                Ok::<TokenView, LexError>(TokenView::Num((-value) as i64))
            } else {
                Ok::<TokenView, LexError>(TokenView::Num(value as i64))
            }
        }),
{
    let first = if starts_negative(s, start) {
        start + 1
    } else {
        start
    };
    lemma_run_end(s, CharClass::Digit, first);
    lemma_run_end(s, CharClass::Digit, first + 1);
}

} // verus!

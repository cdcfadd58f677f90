//! The model of scanning: each stage of the pipeline, a pass, and a whole
//! scan, as spec functions over the source's characters.
use crate::chars::{is_blank, is_ident_char, is_ident_start, is_num};
use crate::token::Token;
use vstd::prelude::*;

verus! {

/// The number of newline characters in `t`.
pub open spec fn newlines(t: Seq<char>) -> nat
    decreases t.len(),
{
    if t.len() == 0 {
        0
    } else {
        newlines(t.drop_last()) + if t.last() == '\n' {
            1nat
        } else {
            0nat
        }
    }
}

/// The end of the run of blanks that starts at `p`.
pub open spec fn blank_end(s: Seq<char>, p: int) -> int
    decreases s.len() - p,
{
    if 0 <= p < s.len() && is_blank(s[p]) {
        blank_end(s, p + 1)
    } else {
        p
    }
}

/// The position just past the first newline at or after `p`, or the end of
/// `s` when there is none.
pub open spec fn line_end(s: Seq<char>, p: int) -> int
    decreases s.len() - p,
{
    if 0 <= p < s.len() {
        if s[p] == '\n' {
            p + 1
        } else {
            line_end(s, p + 1)
        }
    } else {
        s.len() as int
    }
}

pub open spec fn starts_comment(s: Seq<char>, p: int) -> bool {
    0 <= p && p + 1 < s.len() && s[p] == '/' && s[p + 1] == '/'
}

/// Where the cursor stands after the comment stage at `p`.
pub open spec fn comment_end(s: Seq<char>, p: int) -> int {
    if starts_comment(s, p) {
        line_end(s, p + 2)
    } else {
        p
    }
}

/// The end of the run of identifier characters that starts at `p`.
pub open spec fn ident_end(s: Seq<char>, p: int) -> int
    decreases s.len() - p,
{
    if 0 <= p < s.len() && is_ident_char(s[p]) {
        ident_end(s, p + 1)
    } else {
        p
    }
}

/// The token of a scanned word: the keyword it spells, else an identifier.
pub open spec fn word_token(w: Seq<char>) -> Token {
    if w == "and"@ {
        Token::And
    } else if w == "class"@ {
        Token::Class
    } else if w == "else"@ {
        Token::Else
    } else if w == "false"@ {
        Token::False
    } else if w == "fun"@ {
        Token::Fun
    } else if w == "for"@ {
        Token::For
    } else if w == "if"@ {
        Token::If
    } else if w == "nil"@ {
        Token::Nil
    } else if w == "or"@ {
        Token::Or
    } else if w == "print"@ {
        Token::Print
    } else if w == "return"@ {
        Token::Return
    } else if w == "super"@ {
        Token::Super
    } else if w == "this"@ {
        Token::This
    } else if w == "true"@ {
        Token::True
    } else if w == "var"@ {
        Token::Var
    } else if w == "while"@ {
        Token::While
    } else {
        Token::Identifier(w)
    }
}

/// Walks a numeric literal from `i`: the position where it stops, and whether
/// it stopped on a `.` that no digit follows (that `.` is consumed).
pub open spec fn number_run(s: Seq<char>, i: int) -> (int, bool)
    decreases s.len() - i,
{
    if 0 <= i < s.len() && (is_num(s[i]) || s[i] == '.') {
        if s[i] == '.' && !(i + 1 < s.len() && is_num(s[i + 1])) {
            (i + 1, true)
        } else {
            number_run(s, i + 1)
        }
    } else {
        (i, false)
    }
}

/// A decimal literal: ASCII digits and at most one `.`.
pub open spec fn is_decimal(t: Seq<char>) -> bool {
    &&& forall|i: int| 0 <= i < t.len() ==> ('0' <= #[trigger] t[i] && t[i] <= '9') || t[i] == '.'
    &&& forall|i: int, j: int|
        0 <= i < t.len() && 0 <= j < t.len() && #[trigger] t[i] == '.' && #[trigger] t[j] == '.'
            ==> i == j
}

/// The first `"` at or after `i`, or the end of `s`.
pub open spec fn quote_close(s: Seq<char>, i: int) -> int
    decreases s.len() - i,
{
    if 0 <= i < s.len() {
        if s[i] == '"' {
            i
        } else {
            quote_close(s, i + 1)
        }
    } else {
        s.len() as int
    }
}

/// The token of a character that is a token by itself.
pub open spec fn single_token(c: char) -> Option<Token> {
    if c == '(' {
        Some(Token::LeftParen)
    } else if c == ')' {
        Some(Token::RightParen)
    } else if c == '{' {
        Some(Token::LeftBrace)
    } else if c == '}' {
        Some(Token::RightBrace)
    } else if c == ',' {
        Some(Token::Comma)
    } else if c == '.' {
        Some(Token::Dot)
    } else if c == '-' {
        Some(Token::Minus)
    } else if c == '+' {
        Some(Token::Plus)
    } else if c == '/' {
        Some(Token::Slash)
    } else if c == ';' {
        Some(Token::Semicolon)
    } else if c == '*' {
        Some(Token::Star)
    } else {
        None
    }
}

/// For `! = > <`: the token alone, and the token when `=` follows.
pub open spec fn pair_tokens(c: char) -> Option<(Token, Token)> {
    if c == '!' {
        Some((Token::Bang, Token::BangEqual))
    } else if c == '=' {
        Some((Token::Equal, Token::EqualEqual))
    } else if c == '>' {
        Some((Token::Greater, Token::GreaterEqual))
    } else if c == '<' {
        Some((Token::Less, Token::LessEqual))
    } else {
        None
    }
}

/// A character that some stage of the pipeline starts on.
pub open spec fn is_recognized(c: char) -> bool {
    is_blank(c) || is_ident_start(c) || is_num(c) || c == '"' || single_token(c) is Some
        || pair_tokens(c) is Some
}

pub open spec fn digit_message() -> Seq<char> {
    "Expected digit after '.'"@
}

pub open spec fn parse_message() -> Seq<char> {
    "Failed to parse number"@
}

pub open spec fn unexpected_message() -> Seq<char> {
    "Unexpected character"@
}

/// The identifier stage at `p`: where the cursor ends, and the token emitted.
pub open spec fn ident_step(s: Seq<char>, p: int) -> (int, Option<Token>) {
    if 0 <= p < s.len() && is_ident_start(s[p]) {
        let e = ident_end(s, p);
        (e, Some(word_token(s.subrange(p, e))))
    } else {
        (p, None)
    }
}

/// The number stage at `p`.
pub open spec fn number_step(s: Seq<char>, p: int) -> (int, Option<Token>) {
    if 0 <= p < s.len() && is_num(s[p]) {
        let (e, bad_dot) = number_run(s, p);
        if bad_dot {
            (e, Some(Token::Error(digit_message())))
        } else if is_decimal(s.subrange(p, e)) {
            (e, Some(Token::Number(s.subrange(p, e))))
        } else {
            (e, Some(Token::Error(parse_message())))
        }
    } else {
        (p, None)
    }
}

/// The string stage at `p`. A literal that reaches the end of the input
/// without a closing quote holds the rest of the input.
pub open spec fn string_step(s: Seq<char>, p: int) -> (int, Option<Token>) {
    if 0 <= p < s.len() && s[p] == '"' {
        let q = quote_close(s, p + 1);
        (if q < s.len() { q + 1 } else { q }, Some(Token::String(s.subrange(p + 1, q))))
    } else {
        (p, None)
    }
}

/// The punctuation and operator stage at `p`. It leaves a `//` to the
/// comment stage of the next pass.
pub open spec fn punct_step(s: Seq<char>, p: int) -> (int, Option<Token>) {
    if starts_comment(s, p) {
        (p, None)
    } else if 0 <= p < s.len() && single_token(s[p]) is Some {
        (p + 1, single_token(s[p]))
    } else if 0 <= p < s.len() && pair_tokens(s[p]) is Some {
        let (one, two) = pair_tokens(s[p])->0;
        if p + 1 < s.len() && s[p + 1] == '=' {
            (p + 2, Some(two))
        } else {
            (p + 1, Some(one))
        }
    } else {
        (p, None)
    }
}

/// The last stage: a character that no stage starts on is consumed and
/// reported.
pub open spec fn unexpected_step(s: Seq<char>, p: int) -> (int, Option<Token>) {
    if 0 <= p < s.len() && !is_recognized(s[p]) {
        (p + 1, Some(Token::Error(unexpected_message())))
    } else {
        (p, None)
    }
}

pub open spec fn emit(toks: Seq<Token>, t: Option<Token>) -> Seq<Token> {
    match t {
        Some(t) => toks.push(t),
        None => toks,
    }
}

pub open spec fn is_error(t: Option<Token>) -> bool {
    t is Some && t->0 is Error
}

/// Whether scanning has stopped on an error.
pub open spec fn halted(toks: Seq<Token>) -> bool {
    toks.len() > 0 && toks.last() is Error
}

/// The stages of a pass that emit tokens, from `q1`: identifier, number,
/// string, punctuation, then the fallback for an unrecognized character. A
/// stage that reports an error ends the pass.
pub open spec fn token_stages(s: Seq<char>, q1: int, toks: Seq<Token>) -> (int, Seq<Token>) {
    let (q2, t2) = ident_step(s, q1);
    let (q3, t3) = number_step(s, q2);
    let toks3 = emit(emit(toks, t2), t3);
    if is_error(t3) {
        (q3, toks3)
    } else {
        let (q4, t4) = string_step(s, q3);
        let (q5, t5) = punct_step(s, q4);
        let (q6, t6) = unexpected_step(s, q5);
        (q6, emit(emit(emit(toks3, t4), t5), t6))
    }
}

/// One pass of the pipeline at `p`: blanks, then a comment, then the stages
/// that emit tokens.
pub open spec fn round(s: Seq<char>, p: int, toks: Seq<Token>) -> (int, Seq<Token>) {
    token_stages(s, comment_end(s, blank_end(s, p)), toks)
}

/// Passes of the pipeline from `p` until the input is exhausted or an error
/// was emitted; `Eof` closes an input scanned without error. The result is
/// where the cursor stopped and the tokens.
pub open spec fn run(s: Seq<char>, p: int, toks: Seq<Token>) -> (int, Seq<Token>)
    decreases s.len() - p,
{
    if halted(toks) {
        (p, toks)
    } else if 0 <= p < s.len() {
        let (q, next) = round(s, p, toks);
        if p < q <= s.len() {
            run(s, q, next)
        } else {
            (p, toks)
        }
    } else {
        (p, toks.push(Token::Eof))
    }
}

/// The tokens of `s`.
pub open spec fn scan_tokens(s: Seq<char>) -> Seq<Token> {
    run(s, 0, Seq::empty()).1
}

/// Where the scan of `s` stopped: the end of `s`, or just past the character
/// at which an error was reported.
pub open spec fn scan_stop(s: Seq<char>) -> int {
    run(s, 0, Seq::empty()).0
}

pub(crate) proof fn lemma_newlines_step(t: Seq<char>, p: int)
    requires
        0 <= p < t.len(),
    ensures
        newlines(t.subrange(0, p + 1)) == newlines(t.subrange(0, p)) + if t[p] == '\n' {
            1nat
        } else {
            0nat
        },
{
    assert(t.subrange(0, p + 1).drop_last() =~= t.subrange(0, p));
}

pub(crate) proof fn lemma_newlines_bound(t: Seq<char>)
    ensures
        newlines(t) <= t.len(),
    decreases t.len(),
{
    if t.len() > 0 {
        lemma_newlines_bound(t.drop_last());
    }
}

pub(crate) proof fn lemma_blank_end(s: Seq<char>, p: int)
    requires
        0 <= p <= s.len(),
    ensures
        p <= blank_end(s, p) <= s.len(),
        p < s.len() && is_blank(s[p]) ==> p < blank_end(s, p),
    decreases s.len() - p,
{
    if p < s.len() && is_blank(s[p]) {
        lemma_blank_end(s, p + 1);
    }
}

proof fn lemma_line_end(s: Seq<char>, p: int)
    requires
        0 <= p <= s.len(),
    ensures
        p <= line_end(s, p) <= s.len(),
        p < s.len() ==> p < line_end(s, p),
    decreases s.len() - p,
{
    if p < s.len() && s[p] != '\n' {
        lemma_line_end(s, p + 1);
    }
}

pub(crate) proof fn lemma_ident_end(s: Seq<char>, p: int)
    requires
        0 <= p <= s.len(),
    ensures
        p <= ident_end(s, p) <= s.len(),
        p < s.len() && is_ident_char(s[p]) ==> p < ident_end(s, p),
    decreases s.len() - p,
{
    if p < s.len() && is_ident_char(s[p]) {
        lemma_ident_end(s, p + 1);
    }
}

pub(crate) proof fn lemma_number_run(s: Seq<char>, i: int)
    requires
        0 <= i <= s.len(),
    ensures
        i <= number_run(s, i).0 <= s.len(),
        i < s.len() && is_num(s[i]) ==> i < number_run(s, i).0,
    decreases s.len() - i,
{
    if i < s.len() && (is_num(s[i]) || s[i] == '.') {
        if !(s[i] == '.' && !(i + 1 < s.len() && is_num(s[i + 1]))) {
            lemma_number_run(s, i + 1);
        }
    }
}

pub(crate) proof fn lemma_quote_close(s: Seq<char>, i: int)
    requires
        0 <= i <= s.len(),
    ensures
        i <= quote_close(s, i) <= s.len(),
    decreases s.len() - i,
{
    if i < s.len() && s[i] != '"' {
        lemma_quote_close(s, i + 1);
    }
}

/// Every stage leaves the cursor within the input and never moves it back;
/// a stage that triggers moves it forward.
pub(crate) proof fn lemma_steps(s: Seq<char>, x: int)
    requires
        0 <= x <= s.len(),
    ensures
        x <= comment_end(s, blank_end(s, x)) <= s.len(),
        x <= ident_step(s, x).0 <= s.len(),
        x <= number_step(s, x).0 <= s.len(),
        x <= string_step(s, x).0 <= s.len(),
        x <= punct_step(s, x).0 <= s.len(),
        x <= unexpected_step(s, x).0 <= s.len(),
        x < s.len() && is_blank(s[x]) ==> x < comment_end(s, blank_end(s, x)),
        x < s.len() && is_ident_start(s[x]) ==> x < ident_step(s, x).0,
        x < s.len() && is_num(s[x]) ==> x < number_step(s, x).0,
        x < s.len() && s[x] == '"' ==> x < string_step(s, x).0,
        starts_comment(s, x) ==> x < comment_end(s, blank_end(s, x)),
        x < s.len() && !starts_comment(s, x) && (single_token(s[x]) is Some || pair_tokens(
            s[x],
        ) is Some) ==> x < punct_step(s, x).0,
        x < s.len() && !is_recognized(s[x]) ==> x < unexpected_step(s, x).0,
{
    lemma_blank_end(s, x);
    let b = blank_end(s, x);
    if starts_comment(s, b) {
        lemma_line_end(s, b + 2);
    }
    lemma_ident_end(s, x);
    lemma_number_run(s, x);
    if x < s.len() {
        lemma_quote_close(s, x + 1);
    }
}

/// A pass of the pipeline on unread input consumes at least one character.
pub(crate) proof fn lemma_round_progress(s: Seq<char>, p: int, toks: Seq<Token>)
    requires
        0 <= p < s.len(),
    ensures
        p < round(s, p, toks).0 <= s.len(),
{
    let q1 = comment_end(s, blank_end(s, p));
    lemma_steps(s, p);
    lemma_steps(s, q1);
    let q2 = ident_step(s, q1).0;
    lemma_steps(s, q2);
    let q3 = number_step(s, q2).0;
    lemma_steps(s, q3);
    let q4 = string_step(s, q3).0;
    lemma_steps(s, q4);
    let q5 = punct_step(s, q4).0;
    lemma_steps(s, q5);
}

} // verus!

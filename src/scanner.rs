//! The executable scanner, proved to produce the tokens of the model.
use crate::chars::{blank, chars_of, ident_char, ident_start, is_num, numeric, push_char};
use crate::model::{
    blank_end, comment_end, emit, halted, ident_end, ident_step, is_decimal, is_error,
    is_recognized, lemma_newlines_bound, lemma_newlines_step, lemma_round_progress, line_end,
    newlines, number_run, number_step, pair_tokens, punct_step, quote_close, round, run,
    scan_stop, scan_tokens, single_token, starts_comment, string_step, unexpected_step,
    word_token,
};
use crate::token::{Token, TokenType};
use vstd::prelude::*;

verus! {

broadcast use vstd::string::group_string_axioms;

/// Whether `cs[start..end]` spells `kw`.
fn word_is(cs: &Vec<char>, start: usize, end: usize, kw: &str) -> (r: bool)
    requires
        start <= end <= cs.len(),
    ensures
        r == (cs@.subrange(start as int, end as int) == kw@),
{
    let n = kw.unicode_len();
    if end - start != n {
        return false;
    }
    let mut i: usize = 0;
    while i < n
        invariant
            start <= end <= cs.len(),
            n == end - start,
            n == kw@.len(),
            i <= n,
            forall|j: int| 0 <= j < i ==> cs@[start + j] == kw@[j],
        decreases n - i,
    {
        if cs[start + i] != kw.get_char(i) {
            assert(cs@.subrange(start as int, end as int)[i as int] != kw@[i as int]);
            return false;
        }
        i = i + 1;
    }
    assert(cs@.subrange(start as int, end as int) =~= kw@);
    true
}

/// The token of the word `cs[start..end]`, whose characters are `text`.
fn word_token_of(cs: &Vec<char>, start: usize, end: usize, text: String) -> (r: TokenType)
    requires
        start <= end <= cs.len(),
        text@ == cs@.subrange(start as int, end as int),
    ensures
        r@ == word_token(text@),
{
        if word_is(cs, start, end, "and") {
            TokenType::And
        } else if word_is(cs, start, end, "class") {
            TokenType::Class
        } else if word_is(cs, start, end, "else") {
            TokenType::Else
        } else if word_is(cs, start, end, "false") {
            TokenType::False
        } else if word_is(cs, start, end, "fun") {
            TokenType::Fun
        } else if word_is(cs, start, end, "for") {
            TokenType::For
        } else if word_is(cs, start, end, "if") {
            TokenType::If
        } else if word_is(cs, start, end, "nil") {
            TokenType::Nil
        } else if word_is(cs, start, end, "or") {
            TokenType::Or
        } else if word_is(cs, start, end, "print") {
            TokenType::Print
        } else if word_is(cs, start, end, "return") {
            TokenType::Return
        } else if word_is(cs, start, end, "super") {
            TokenType::Super
        } else if word_is(cs, start, end, "this") {
            TokenType::This
        } else if word_is(cs, start, end, "true") {
            TokenType::True
        } else if word_is(cs, start, end, "var") {
            TokenType::Var
        } else if word_is(cs, start, end, "while") {
            TokenType::While
        } else {
            TokenType::Identifier(text)
        }
}

/// Whether `cs[start..end]` is a decimal literal.
fn decimal(cs: &Vec<char>, start: usize, end: usize) -> (r: bool)
    requires
        start <= end <= cs.len(),
    ensures
        r == is_decimal(cs@.subrange(start as int, end as int)),
{
    let ghost t = cs@.subrange(start as int, end as int);
    let mut i: usize = start;
    let mut dot: Option<usize> = None;
    while i < end
        invariant
            start <= i <= end <= cs.len(),
            t == cs@.subrange(start as int, end as int),
            forall|j: int| 0 <= j < i - start ==> ('0' <= #[trigger] t[j] && t[j] <= '9') || t[j] == '.',
            match dot {
                Some(d) => start <= d < i && t[d - start] == '.' && forall|j: int|
                    0 <= j < i - start && #[trigger] t[j] == '.' ==> j == d - start,
                None => forall|j: int| 0 <= j < i - start ==> #[trigger] t[j] != '.',
            },
        decreases end - i,
    {
        let c = cs[i];
        assert(t[i - start] == c);
        if c == '.' {
            if dot.is_some() {
                return false;
            }
            dot = Some(i);
        } else if !('0' <= c && c <= '9') {
            return false;
        }
        i = i + 1;
    }
    true
}

fn single_token_of(c: char) -> (r: Option<TokenType>)
    ensures
        match r {
            Some(t) => single_token(c) == Some(t@),
            None => single_token(c) is None,
        },
{
    match c {
        '(' => Some(TokenType::LeftParen),
        ')' => Some(TokenType::RightParen),
        '{' => Some(TokenType::LeftBrace),
        '}' => Some(TokenType::RightBrace),
        ',' => Some(TokenType::Comma),
        '.' => Some(TokenType::Dot),
        '-' => Some(TokenType::Minus),
        '+' => Some(TokenType::Plus),
        '/' => Some(TokenType::Slash),
        ';' => Some(TokenType::Semicolon),
        '*' => Some(TokenType::Star),
        _ => None,
    }
}

/// For `! = > <`: the token alone, or the token with `=` when `eq_follows`.
fn pair_token_of(c: char, eq_follows: bool) -> (r: Option<TokenType>)
    ensures
        match r {
            Some(t) => pair_tokens(c) is Some && t@ == if eq_follows {
                (pair_tokens(c)->0).1
            } else {
                (pair_tokens(c)->0).0
            },
            None => pair_tokens(c) is None,
        },
{
    match (c, eq_follows) {
        ('!', true) => Some(TokenType::BangEqual),
        ('!', false) => Some(TokenType::Bang),
        ('=', true) => Some(TokenType::EqualEqual),
        ('=', false) => Some(TokenType::Equal),
        ('>', true) => Some(TokenType::GreaterEqual),
        ('>', false) => Some(TokenType::Greater),
        ('<', true) => Some(TokenType::LessEqual),
        ('<', false) => Some(TokenType::Less),
        _ => None,
    }
}

fn recognized(c: char) -> (r: bool)
    ensures
        r == is_recognized(c),
{
    blank(c) || ident_start(c) || numeric(c) || c == '"' || single_token_of(c).is_some()
        || pair_token_of(c, false).is_some()
}

/// A scan in progress, and its outcome once [`scan`] returns: the tokens
/// emitted, in source order, and the 1-based line the cursor stands on.
pub struct Scanner {
    chars: Vec<char>,
    pos: usize,
    pub tokens: Vec<TokenType>,
    pub line: usize,
}

impl Scanner {
    /// The tokens emitted so far, as values of the model.
    pub closed spec fn token_seq(&self) -> Seq<Token> {
        self.tokens@.map_values(|t: TokenType| t@)
    }

    /// The line counter.
    pub closed spec fn line_number(&self) -> int {
        self.line as int
    }

    /// The cursor stays within the source, and the line counter is one more
    /// than the newlines consumed.
    pub closed spec fn wf(&self) -> bool {
        &&& self.pos <= self.chars.len()
        &&& self.chars.len() < usize::MAX
        &&& self.line == 1 + newlines(self.chars@.subrange(0, self.pos as int))
    }

    /// `self` is `prev` after one stage that ended at `step.0` and emitted
    /// `step.1`.
    spec fn did_step(&self, prev: &Scanner, step: (int, Option<Token>)) -> bool {
        &&& self.wf()
        &&& self.chars@ == prev.chars@
        &&& self.pos == step.0
        &&& self.token_seq() == emit(prev.token_seq(), step.1)
    }

    fn advance(&mut self)
        requires
            old(self).wf(),
            old(self).pos < old(self).chars.len(),
        ensures
            final(self).wf(),
            final(self).chars@ == old(self).chars@,
            final(self).pos == old(self).pos + 1,
            final(self).tokens@ == old(self).tokens@,
    {
        proof {
            lemma_newlines_step(self.chars@, self.pos as int);
            lemma_newlines_bound(self.chars@.subrange(0, self.pos as int));
        }
        if self.chars[self.pos] == '\n' {
            self.line = self.line + 1;
        }
        self.pos = self.pos + 1;
    }

    fn emit_token(&mut self, t: TokenType)
        ensures
            final(self).chars@ == old(self).chars@,
            final(self).pos == old(self).pos,
            final(self).line == old(self).line,
            final(self).token_seq() == old(self).token_seq().push(t@),
    {
        let ghost v = t@;
        self.tokens.push(t);
        assert(self.token_seq() =~= old(self).token_seq().push(v));
    }

    fn parse_whitespace(&mut self)
        requires
            old(self).wf(),
        ensures
            final(self).did_step(old(self), (blank_end(old(self).chars@, old(self).pos as int), None)),
    {
        let ghost s = self.chars@;
        let ghost from = self.pos as int;
        loop
            invariant
                self.wf(),
                self.chars@ == s,
                self.tokens@ == old(self).tokens@,
                blank_end(s, self.pos as int) == blank_end(s, from),
            ensures
                self.wf(),
                self.chars@ == s,
                self.tokens@ == old(self).tokens@,
                self.pos == blank_end(s, from),
            decreases self.chars.len() - self.pos,
        {
            if self.pos < self.chars.len() && blank(self.chars[self.pos]) {
                self.advance();
            } else {
                break;
            }
        }
    }

    /// Whether `//` stands at the cursor.
    fn starts_comment(&self) -> (r: bool)
        requires
            self.wf(),
        ensures
            r == starts_comment(self.chars@, self.pos as int),
    {
        self.pos + 1 < self.chars.len() && self.chars[self.pos] == '/' && self.chars[self.pos + 1]
            == '/'
    }

    fn parse_comment(&mut self)
        requires
            old(self).wf(),
        ensures
            final(self).did_step(old(self), (comment_end(old(self).chars@, old(self).pos as int), None)),
    {
        let ghost s = self.chars@;
        let ghost from = self.pos as int;
        if self.starts_comment() {
            self.advance();
            self.advance();
            loop
                invariant_except_break
                    line_end(s, self.pos as int) == line_end(s, from + 2),
                invariant
                    self.wf(),
                    self.chars@ == s,
                    self.tokens@ == old(self).tokens@,
                ensures
                    self.wf(),
                    self.chars@ == s,
                    self.tokens@ == old(self).tokens@,
                    self.pos == line_end(s, from + 2),
                decreases self.chars.len() - self.pos,
            {
                if self.pos >= self.chars.len() {
                    break;
                }
                let c = self.chars[self.pos];
                self.advance();
                if c == '\n' {
                    break;
                }
            }
        }
    }

    fn parse_identifier(&mut self)
        requires
            old(self).wf(),
        ensures
            final(self).did_step(old(self), ident_step(old(self).chars@, old(self).pos as int)),
    {
        let ghost s = self.chars@;
        let start = self.pos;
        if !(self.pos < self.chars.len() && ident_start(self.chars[self.pos])) {
            return;
        }
        let mut text = String::new();
        loop
            invariant
                self.wf(),
                self.chars@ == s,
                self.tokens@ == old(self).tokens@,
                start <= self.pos,
                ident_end(s, self.pos as int) == ident_end(s, start as int),
                text@ == s.subrange(start as int, self.pos as int),
            ensures
                self.wf(),
                self.chars@ == s,
                self.tokens@ == old(self).tokens@,
                self.pos == ident_end(s, start as int),
                text@ == s.subrange(start as int, self.pos as int),
            decreases self.chars.len() - self.pos,
        {
            if self.pos < self.chars.len() && ident_char(self.chars[self.pos]) {
                push_char(&mut text, self.chars[self.pos]);
                assert(text@ =~= s.subrange(start as int, self.pos + 1));
                self.advance();
            } else {
                break;
            }
        }
        let end = self.pos;
        let t = word_token_of(&self.chars, start, end, text);
        self.emit_token(t);
    }

    /// Emits an error carrying `msg`.
    fn emit_error(&mut self, msg: &str)
        ensures
            final(self).chars@ == old(self).chars@,
            final(self).pos == old(self).pos,
            final(self).line == old(self).line,
            final(self).token_seq() == old(self).token_seq().push(Token::Error(msg@)),
    {
        self.emit_token(TokenType::Error(String::from_str(msg)));
    }

    /// Returns whether it emitted an error.
    fn parse_number(&mut self) -> (failed: bool)
        requires
            old(self).wf(),
        ensures
            final(self).did_step(old(self), number_step(old(self).chars@, old(self).pos as int)),
            failed == is_error(number_step(old(self).chars@, old(self).pos as int).1),
    {
        let ghost s = self.chars@;
        let start = self.pos;
        if !(self.pos < self.chars.len() && numeric(self.chars[self.pos])) {
            return false;
        }
        loop
            invariant
                self.wf(),
                self.chars@ == s,
                self.tokens@ == old(self).tokens@,
                start == old(self).pos,
                s == old(self).chars@,
                start <= self.pos,
                start < s.len(),
                is_num(s[start as int]),
                number_run(s, self.pos as int) == number_run(s, start as int),
            ensures
                self.wf(),
                self.chars@ == s,
                self.tokens@ == old(self).tokens@,
                self.pos == number_run(s, start as int).0,
                !number_run(s, start as int).1,
            decreases self.chars.len() - self.pos,
        {
            if !(self.pos < self.chars.len() && (numeric(self.chars[self.pos])
                || self.chars[self.pos] == '.')) {
                break;
            }
            let c = self.chars[self.pos];
            self.advance();
            if c == '.' && !(self.pos < self.chars.len() && numeric(self.chars[self.pos])) {
                self.emit_error("Expected digit after '.'");
                return true;
            }
        }
        let end = self.pos;
        if decimal(&self.chars, start, end) {
            let mut text = String::new();
            let mut i: usize = start;
            while i < end
                invariant
                    start <= i <= end <= self.chars.len(),
                    self.chars@ == s,
                    text@ == s.subrange(start as int, i as int),
                decreases end - i,
            {
                push_char(&mut text, self.chars[i]);
                i = i + 1;
            }
            self.emit_token(TokenType::Number(text));
            false
        } else {
            self.emit_error("Failed to parse number");
            true
        }
    }

    fn parse_string(&mut self)
        requires
            old(self).wf(),
        ensures
            final(self).did_step(old(self), string_step(old(self).chars@, old(self).pos as int)),
    {
        let ghost s = self.chars@;
        if !(self.pos < self.chars.len() && self.chars[self.pos] == '"') {
            return;
        }
        self.advance();
        let start = self.pos;
        let mut text = String::new();
        loop
            invariant
                self.wf(),
                self.chars@ == s,
                self.tokens@ == old(self).tokens@,
                start <= self.pos,
                quote_close(s, self.pos as int) == quote_close(s, start as int),
                text@ == s.subrange(start as int, self.pos as int),
            ensures
                self.wf(),
                self.chars@ == s,
                self.tokens@ == old(self).tokens@,
                self.pos == quote_close(s, start as int),
                text@ == s.subrange(start as int, self.pos as int),
            decreases self.chars.len() - self.pos,
        {
            if self.pos >= self.chars.len() || self.chars[self.pos] == '"' {
                break;
            }
            push_char(&mut text, self.chars[self.pos]);
            assert(text@ =~= s.subrange(start as int, self.pos + 1));
            self.advance();
        }
        if self.pos < self.chars.len() {
            self.advance();
        }
        self.emit_token(TokenType::String(text));
    }

    fn parse_punctuation(&mut self)
        requires
            old(self).wf(),
        ensures
            final(self).did_step(old(self), punct_step(old(self).chars@, old(self).pos as int)),
    {
        if self.pos >= self.chars.len() || self.starts_comment() {
            return;
        }
        let c = self.chars[self.pos];
        match single_token_of(c) {
            Some(t) => {
                self.advance();
                self.emit_token(t);
            },
            None => {
                let eq_follows = self.pos + 1 < self.chars.len() && self.chars[self.pos + 1] == '=';
                match pair_token_of(c, eq_follows) {
                    Some(t) => {
                        self.advance();
                        if eq_follows {
                            self.advance();
                        }
                        self.emit_token(t);
                    },
                    None => {},
                }
            },
        }
    }

    /// The fallback stage: a character that no stage starts on is consumed
    /// and reported as an error.
    fn parse_unexpected(&mut self)
        requires
            old(self).wf(),
        ensures
            final(self).did_step(old(self), unexpected_step(old(self).chars@, old(self).pos as int)),
    {
        if self.pos < self.chars.len() && !recognized(self.chars[self.pos]) {
            self.advance();
            self.emit_error("Unexpected character");
        }
    }

    /// Whether the last token emitted is an error.
    fn has_halted(&self) -> (r: bool)
        ensures
            r == halted(self.token_seq()),
    {
        let n = self.tokens.len();
        if n == 0 {
            false
        } else {
            assert(self.token_seq().last() == self.tokens@[n - 1]@);
            match &self.tokens[n - 1] {
                TokenType::Error(_) => true,
                _ => false,
            }
        }
    }

    /// One pass of the pipeline.
    fn pipe(&mut self)
        requires
            old(self).wf(),
        ensures
            final(self).wf(),
            final(self).chars@ == old(self).chars@,
            (final(self).pos as int, final(self).token_seq()) == round(
                old(self).chars@,
                old(self).pos as int,
                old(self).token_seq(),
            ),
    {
        self.parse_whitespace();
        self.parse_comment();
        self.parse_identifier();
        if self.parse_number() {
            return;
        }
        self.parse_string();
        self.parse_punctuation();
        self.parse_unexpected();
    }
}

/// Scans `source` to its end or to its first lexical error.
///
/// The returned scanner holds the tokens of `source` (closed by `Eof`, or
/// ending in the error that stopped the scan) and the line counter at the
/// point where scanning stopped.
pub fn scan(source: &str) -> (r: Scanner)
    requires
        source@.len() < usize::MAX,
    ensures
        r.token_seq() == scan_tokens(source@),
        0 <= scan_stop(source@) <= source@.len(),
        r.line_number() == 1 + newlines(source@.subrange(0, scan_stop(source@))),
{
    let ghost s = source@;
    let chars = chars_of(source);
    let mut scanner = Scanner { chars, pos: 0, tokens: Vec::new(), line: 1 };
    assert(scanner.token_seq() =~= Seq::empty());
    assert(s.subrange(0, 0) =~= Seq::empty());
    loop
        invariant
            s == source@,
            scanner.wf(),
            scanner.chars@ == s,
            run(s, scanner.pos as int, scanner.token_seq()) == run(s, 0, Seq::empty()),
            !halted(scanner.token_seq()),
        ensures
            scanner.wf(),
            scanner.chars@ == s,
            scanner.pos == s.len(),
            run(s, scanner.pos as int, scanner.token_seq()) == run(s, 0, Seq::empty()),
        decreases scanner.chars.len() - scanner.pos,
    {
        if scanner.pos >= scanner.chars.len() {
            break;
        }
        let ghost before = (scanner.pos as int, scanner.token_seq());
        proof {
            lemma_round_progress(s, before.0, before.1);
        }
        scanner.pipe();
        assert(run(s, before.0, before.1) == run(s, scanner.pos as int, scanner.token_seq()));
        if scanner.has_halted() {
            return scanner;
        }
    }
    scanner.emit_token(TokenType::Eof);
    scanner
}

} // verus!

//! Properties of the scanner as a whole, stated over the model of a scan
//! ([`crate::model::scan_tokens`]) and proved.
use crate::chars::{is_alpha, is_blank, is_ident_char, is_ident_start, is_num};
use crate::model::{
    blank_end, comment_end, digit_message, emit, halted, ident_end, ident_step, is_decimal,
    is_error, lemma_blank_end, lemma_ident_end, lemma_number_run, lemma_quote_close,
    lemma_round_progress, lemma_steps, line_end, newlines, number_run, number_step,
    pair_tokens, punct_step, quote_close, round, run, scan_stop, scan_tokens, single_token,
    starts_comment, string_step, token_stages, unexpected_step, word_token,
};
use crate::token::Token;
use vstd::prelude::*;

verus! {

/// A word that the keyword table maps to a keyword.
pub open spec fn is_keyword(w: Seq<char>) -> bool {
    !(word_token(w) is Identifier)
}

proof fn lemma_ident_run(s: Seq<char>, p: int)
    requires
        0 <= p <= s.len(),
        forall|i: int| p <= i < s.len() ==> is_ident_char(#[trigger] s[i]),
    ensures
        ident_end(s, p) == s.len(),
    decreases s.len() - p,
{
    if p < s.len() {
        lemma_ident_run(s, p + 1);
    }
}

/// Input made of one word scans to that word's token.
proof fn lemma_one_word(w: Seq<char>)
    requires
        w.len() > 0,
        is_ident_start(w[0]),
        forall|i: int| 0 <= i < w.len() ==> is_ident_char(#[trigger] w[i]),
    ensures
        scan_tokens(w) == seq![word_token(w), Token::Eof],
{
    lemma_ident_run(w, 0);
    assert(w.subrange(0, w.len() as int) =~= w);
    let e: Seq<Token> = Seq::empty();
    assert(round(w, 0, e) == (w.len() as int, e.push(word_token(w))));
    assert(run(w, 0, e) == run(w, w.len() as int, e.push(word_token(w))));
    assert(e.push(word_token(w)).push(Token::Eof) =~= seq![word_token(w), Token::Eof]);
}

/// A nonempty run of letters and underscores that is not a keyword scans to
/// one identifier holding exactly that text.
pub proof fn law_identifier(w: Seq<char>)
    requires
        w.len() > 0,
        forall|i: int| 0 <= i < w.len() ==> is_alpha(#[trigger] w[i]) || w[i] == '_',
        !is_keyword(w),
    ensures
        scan_tokens(w) == seq![Token::Identifier(w), Token::Eof],
{
    lemma_one_word(w);
}

/// A reserved word scans to its keyword token, never to an identifier.
pub proof fn law_keyword(w: Seq<char>)
    requires
        is_keyword(w),
    ensures
        scan_tokens(w) == seq![word_token(w), Token::Eof],
        !(scan_tokens(w)[0] is Identifier),
{
    reveal_strlit("and");
    reveal_strlit("class");
    reveal_strlit("else");
    reveal_strlit("false");
    reveal_strlit("fun");
    reveal_strlit("for");
    reveal_strlit("if");
    reveal_strlit("nil");
    reveal_strlit("or");
    reveal_strlit("print");
    reveal_strlit("return");
    reveal_strlit("super");
    reveal_strlit("this");
    reveal_strlit("true");
    reveal_strlit("var");
    reveal_strlit("while");
    assert(forall|i: int| 0 <= i < w.len() ==> 'a' <= #[trigger] w[i] && w[i] <= 'z');
    lemma_one_word(w);
}

/// A punctuation or operator character.
pub open spec fn is_operator_char(c: char) -> bool {
    single_token(c) is Some || pair_tokens(c) is Some
}

/// The tokens of a run of operator characters from `p`: one per character,
/// except that `! = > <` followed by `=` make one two-character token.
pub open spec fn operator_tokens(s: Seq<char>, p: int) -> Seq<Token>
    decreases s.len() - p,
{
    if 0 <= p < s.len() {
        if single_token(s[p]) is Some {
            seq![single_token(s[p])->0] + operator_tokens(s, p + 1)
        } else if pair_tokens(s[p]) is Some {
            if p + 1 < s.len() && s[p + 1] == '=' {
                seq![(pair_tokens(s[p])->0).1] + operator_tokens(s, p + 2)
            } else {
                seq![(pair_tokens(s[p])->0).0] + operator_tokens(s, p + 1)
            }
        } else {
            Seq::empty()
        }
    } else {
        Seq::empty()
    }
}

proof fn lemma_operators_run(s: Seq<char>, p: int, toks: Seq<Token>)
    requires
        0 <= p <= s.len(),
        !halted(toks),
        forall|i: int| 0 <= i < s.len() ==> is_operator_char(#[trigger] s[i]),
        forall|i: int| 0 <= i < s.len() - 1 ==> !(#[trigger] s[i] == '/' && s[i + 1] == '/'),
    ensures
        run(s, p, toks) == (s.len() as int, toks + operator_tokens(s, p).push(Token::Eof)),
    decreases s.len() - p,
{
    if p == s.len() {
        assert(toks + seq![Token::Eof] =~= toks.push(Token::Eof));
    } else {
        let (q, t) = punct_step(s, p);
        let tok = t->0;
        assert(q < s.len() ==> is_operator_char(s[q]));
        assert(round(s, p, toks) == (q, toks.push(tok)));
        assert(operator_tokens(s, p) == seq![tok] + operator_tokens(s, q));
        lemma_operators_run(s, q, toks.push(tok));
        assert(toks.push(tok) + operator_tokens(s, q).push(Token::Eof) =~= toks + (seq![tok]
            + operator_tokens(s, q)).push(Token::Eof));
    }
}

/// Input made only of punctuation and operator characters, with no `//` in
/// it (which would open a comment), scans to one token per character or per
/// two-character operator, in source order, then `Eof`.
pub proof fn law_operators(s: Seq<char>)
    requires
        forall|i: int| 0 <= i < s.len() ==> is_operator_char(#[trigger] s[i]),
        forall|i: int| 0 <= i < s.len() - 1 ==> !(#[trigger] s[i] == '/' && s[i + 1] == '/'),
    ensures
        scan_tokens(s) == operator_tokens(s, 0).push(Token::Eof),
{
    lemma_operators_run(s, 0, Seq::empty());
    assert(Seq::<Token>::empty() + operator_tokens(s, 0).push(Token::Eof) =~= operator_tokens(
        s,
        0,
    ).push(Token::Eof));
}

pub open spec fn is_ascii_digit(c: char) -> bool {
    '0' <= c && c <= '9'
}

proof fn lemma_decimal_run(s: Seq<char>, i: int)
    requires
        0 <= i <= s.len(),
        forall|j: int| 0 <= j < s.len() ==> is_ascii_digit(#[trigger] s[j]) || s[j] == '.',
        forall|j: int| i <= j < s.len() && #[trigger] s[j] == '.' ==> j + 1 < s.len()
            && is_ascii_digit(s[j + 1]),
    ensures
        number_run(s, i) == (s.len() as int, false),
    decreases s.len() - i,
{
    if i < s.len() {
        lemma_decimal_run(s, i + 1);
    }
}

/// A decimal literal (ASCII digits, at most one `.`, beginning and ending
/// with a digit) scans to one number token holding exactly that text.
pub proof fn law_decimal(s: Seq<char>)
    requires
        s.len() > 0,
        is_decimal(s),
        is_ascii_digit(s[0]),
        is_ascii_digit(s.last()),
    ensures
        scan_tokens(s) == seq![Token::Number(s), Token::Eof],
{
    assert forall|j: int| 0 <= j < s.len() && #[trigger] s[j] == '.' implies j + 1 < s.len()
        && is_ascii_digit(s[j + 1]) by {
        assert(j != s.len() - 1);
        if s[j + 1] == '.' {
            assert(s[j] == '.' && s[j + 1] == '.');
        }
    }
    lemma_decimal_run(s, 0);
    assert(s.subrange(0, s.len() as int) =~= s);
    let e: Seq<Token> = Seq::empty();
    assert(number_step(s, 0) == (s.len() as int, Some(Token::Number(s))));
    assert(round(s, 0, e) == (s.len() as int, e.push(Token::Number(s))));
    assert(run(s, 0, e) == run(s, s.len() as int, e.push(Token::Number(s))));
    assert(e.push(Token::Number(s)).push(Token::Eof) =~= seq![Token::Number(s), Token::Eof]);
}

proof fn lemma_digits_run(s: Seq<char>, i: int, n: int)
    requires
        0 <= i <= n < s.len(),
        forall|j: int| 0 <= j < n ==> is_ascii_digit(#[trigger] s[j]),
    ensures
        number_run(s, i) == number_run(s, n),
    decreases n - i,
{
    if i < n {
        lemma_digits_run(s, i + 1, n);
    }
}

/// Digits followed by a `.` that no digit follows (the end of the input, or
/// any other character) scan to the malformed-number error alone: the scan
/// stops there, with no `Eof` and nothing after it.
pub proof fn law_trailing_dot(d: Seq<char>, rest: Seq<char>)
    requires
        d.len() > 0,
        forall|i: int| 0 <= i < d.len() ==> is_ascii_digit(#[trigger] d[i]),
        rest.len() == 0 || !is_num(rest[0]),
    ensures
        scan_tokens(d + seq!['.'] + rest) == seq![Token::Error(digit_message())],
        scan_stop(d + seq!['.'] + rest) == d.len() + 1,
{
    let s = d + seq!['.'] + rest;
    let n = d.len() as int;
    assert(s[n] == '.');
    assert(forall|j: int| 0 <= j < n ==> s[j] == d[j]);
    assert(n + 1 < s.len() ==> s[n + 1] == rest[0]);
    lemma_digits_run(s, 0, n);
    let err = Token::Error(digit_message());
    let e: Seq<Token> = Seq::empty();
    assert(number_step(s, 0) == (n + 1, Some(err)));
    assert(round(s, 0, e) == (n + 1, e.push(err)));
    assert(run(s, 0, e) == run(s, n + 1, e.push(err)));
    assert(e.push(err) =~= seq![err]);
}

proof fn lemma_quote_run(s: Seq<char>, i: int, n: int)
    requires
        0 <= i <= n < s.len(),
        s[n] == '"',
        forall|j: int| i <= j < n ==> #[trigger] s[j] != '"',
    ensures
        quote_close(s, i) == n,
    decreases n - i,
{
    if i < n {
        lemma_quote_run(s, i + 1, n);
    }
}

/// A quoted literal scans to one string token whose payload is the text
/// between the quotes.
pub proof fn law_quoted(t: Seq<char>)
    requires
        forall|i: int| 0 <= i < t.len() ==> #[trigger] t[i] != '"',
    ensures
        scan_tokens(seq!['"'] + t + seq!['"']) == seq![Token::String(t), Token::Eof],
{
    let s = seq!['"'] + t + seq!['"'];
    let n = t.len() as int + 1;
    assert(s[0] == '"' && s[n] == '"');
    assert(forall|j: int| 1 <= j < n ==> s[j] == t[j - 1]);
    lemma_quote_run(s, 1, n);
    assert(s.subrange(1, n) =~= t);
    let e: Seq<Token> = Seq::empty();
    let tok = Token::String(t);
    assert(string_step(s, 0) == (n + 1, Some(tok)));
    assert(round(s, 0, e) == (n + 1, e.push(tok)));
    assert(run(s, 0, e) == run(s, n + 1, e.push(tok)));
    assert(e.push(tok).push(Token::Eof) =~= seq![tok, Token::Eof]);
}

/// Scanning is a function of the text alone: two scans of the same text give
/// the same tokens and stop at the same place.
pub proof fn law_rescan(a: Seq<char>, b: Seq<char>)
    requires
        a == b,
    ensures
        scan_tokens(a) == scan_tokens(b),
        scan_stop(a) == scan_stop(b),
{
}

proof fn lemma_run_stop(s: Seq<char>, p: int, toks: Seq<Token>)
    requires
        0 <= p <= s.len(),
    ensures
        p <= run(s, p, toks).0 <= s.len(),
    decreases s.len() - p,
{
    if !halted(toks) && p < s.len() {
        lemma_round_progress(s, p, toks);
        let (q, next) = round(s, p, toks);
        lemma_run_stop(s, q, next);
    }
}

/// Where a pass resumes its token stages at `k` (after a comment), the scan
/// goes on as a fresh pass from `k` would.
proof fn lemma_resume(s: Seq<char>, k: int, toks: Seq<Token>)
    requires
        0 <= k <= s.len(),
        !halted(toks),
    ensures
        k <= token_stages(s, k, toks).0 <= s.len(),
        run(s, token_stages(s, k, toks).0, token_stages(s, k, toks).1) == run(s, k, toks),
{
    lemma_steps(s, k);
    let (q, t) = token_stages(s, k, toks);
    if k < s.len() && (is_blank(s[k]) || starts_comment(s, k)) {
        assert(token_stages(s, k, toks) == (k, toks));
    } else if k < s.len() {
        assert(blank_end(s, k) == k);
        assert(comment_end(s, k) == k);
        lemma_round_progress(s, k, toks);
        lemma_steps(s, q);
        assert(round(s, k, toks) == (q, t));
    } else {
        assert(token_stages(s, k, toks) == (k, toks));
    }
}

proof fn lemma_no_newlines(t: Seq<char>)
    requires
        forall|i: int| 0 <= i < t.len() ==> #[trigger] t[i] != '\n',
    ensures
        newlines(t) == 0,
    decreases t.len(),
{
    if t.len() > 0 {
        lemma_no_newlines(t.drop_last());
    }
}

/// A line comment at the start of the input emits no token: the input scans
/// to the tokens of what follows the comment's newline, and that newline adds
/// exactly one to the line counter.
pub proof fn law_line_comment(c: Seq<char>, rest: Seq<char>)
    requires
        forall|i: int| 0 <= i < c.len() ==> #[trigger] c[i] != '\n',
    ensures
        ({
            let s = seq!['/', '/'] + c + seq!['\n'] + rest;
            &&& scan_tokens(s) == scan_tokens(rest)
            &&& scan_stop(s) == c.len() + 3 + scan_stop(rest)
            &&& newlines(s.subrange(0, scan_stop(s))) == 1 + newlines(
                rest.subrange(0, scan_stop(rest)),
            )
        }),
{
    let pre = seq!['/', '/'] + c + seq!['\n'];
    let s = pre + rest;
    let k = c.len() as int + 3;
    let e: Seq<Token> = Seq::empty();
    assert(s[0] == '/' && s[1] == '/' && s[k - 1] == '\n');
    assert(forall|j: int| 2 <= j < k - 1 ==> s[j] == c[j - 2]);
    lemma_line_end_at(s, 2, k - 1);
    assert(comment_end(s, blank_end(s, 0)) == k);
    lemma_resume(s, k, e);
    assert(run(s, 0, e) == run(s, k, e));
    lemma_shift_run(pre, rest, 0, e);
    lemma_run_stop(rest, 0, e);
    let stop = scan_stop(rest);
    assert(s.subrange(0, k + stop) =~= pre + rest.subrange(0, stop));
    lemma_newlines_concat(pre, rest.subrange(0, stop));
    assert(pre.drop_last() =~= seq!['/', '/'] + c);
    lemma_no_newlines(seq!['/', '/'] + c);
}

proof fn lemma_line_end_at(s: Seq<char>, i: int, n: int)
    requires
        0 <= i <= n < s.len(),
        s[n] == '\n',
        forall|j: int| i <= j < n ==> #[trigger] s[j] != '\n',
    ensures
        line_end(s, i) == n + 1,
    decreases n - i,
{
    if i < n {
        lemma_line_end_at(s, i + 1, n);
    }
}

/// No `Error` and no `Eof` among `t`.
pub open spec fn no_sentinel(t: Seq<Token>) -> bool {
    forall|i: int| 0 <= i < t.len() ==> !(#[trigger] t[i] is Error) && !(t[i] is Eof)
}

proof fn lemma_emit_plain(toks: Seq<Token>, t: Option<Token>)
    requires
        no_sentinel(toks),
        t is None || (!(t->0 is Error) && !(t->0 is Eof)),
    ensures
        no_sentinel(emit(toks, t)),
{
    if t is Some {
        assert(forall|i: int| 0 <= i < toks.len() ==> emit(toks, t)[i] == toks[i]);
    }
}

proof fn lemma_round_shape(s: Seq<char>, p: int, toks: Seq<Token>)
    requires
        no_sentinel(toks),
    ensures
        ({
            let t = round(s, p, toks).1;
            no_sentinel(t) || (t.len() > 0 && t.last() is Error && no_sentinel(t.drop_last()))
        }),
{
    let q1 = comment_end(s, blank_end(s, p));
    let (q2, t2) = ident_step(s, q1);
    let (q3, t3) = number_step(s, q2);
    let (q4, t4) = string_step(s, q3);
    let (q5, t5) = punct_step(s, q4);
    let (q6, t6) = unexpected_step(s, q5);
    let toks2 = emit(toks, t2);
    lemma_emit_plain(toks, t2);
    if is_error(t3) {
        assert(round(s, p, toks).1.drop_last() =~= toks2);
    } else {
        let toks3 = emit(toks2, t3);
        lemma_emit_plain(toks2, t3);
        lemma_emit_plain(toks3, t4);
        let toks4 = emit(toks3, t4);
        lemma_emit_plain(toks4, t5);
        let toks5 = emit(toks4, t5);
        if t6 is Some {
            assert(round(s, p, toks).1.drop_last() =~= toks5);
        }
    }
}

proof fn lemma_run_shape(s: Seq<char>, p: int, toks: Seq<Token>)
    requires
        0 <= p <= s.len(),
        no_sentinel(toks) || (toks.len() > 0 && toks.last() is Error && no_sentinel(
            toks.drop_last(),
        )),
    ensures
        ({
            let t = run(s, p, toks).1;
            &&& t.len() > 0
            &&& t.last() is Error || t.last() is Eof
            &&& no_sentinel(t.drop_last())
        }),
    decreases s.len() - p,
{
    if halted(toks) {
    } else {
        assert(no_sentinel(toks));
        if p < s.len() {
            lemma_round_progress(s, p, toks);
            lemma_round_shape(s, p, toks);
            let (q, next) = round(s, p, toks);
            lemma_run_shape(s, q, next);
        } else {
            assert(toks.push(Token::Eof).drop_last() =~= toks);
        }
    }
}

/// The tokens of any input end in exactly one sentinel: `Eof` when the scan
/// reached the end of the input, or the `Error` that stopped it. No other
/// token is a sentinel.
pub proof fn law_one_sentinel_last(s: Seq<char>)
    ensures
        scan_tokens(s).len() > 0,
        scan_tokens(s).last() is Error || scan_tokens(s).last() is Eof,
        no_sentinel(scan_tokens(s).drop_last()),
{
    lemma_run_shape(s, 0, Seq::empty());
}

proof fn lemma_shift_runs(pre: Seq<char>, r: Seq<char>, p: int)
    requires
        0 <= p <= r.len(),
    ensures
        blank_end(pre + r, pre.len() + p) == pre.len() + blank_end(r, p),
        line_end(pre + r, pre.len() + p) == pre.len() + line_end(r, p),
        ident_end(pre + r, pre.len() + p) == pre.len() + ident_end(r, p),
        quote_close(pre + r, pre.len() + p) == pre.len() + quote_close(r, p),
        number_run(pre + r, pre.len() + p) == (pre.len() + number_run(r, p).0, number_run(
            r,
            p,
        ).1),
    decreases r.len() - p,
{
    let s = pre + r;
    let n = pre.len() as int;
    if p < r.len() {
        assert(s[n + p] == r[p]);
        if p + 1 < r.len() {
            assert(s[n + p + 1] == r[p + 1]);
        }
        lemma_shift_runs(pre, r, p + 1);
    }
}

/// A stage's outcome with its end moved right by `pre.len()` positions.
spec fn shifted(pre: Seq<char>, step: (int, Option<Token>)) -> (int, Option<Token>) {
    (pre.len() + step.0, step.1)
}

proof fn lemma_shift_index(pre: Seq<char>, r: Seq<char>)
    ensures
        forall|i: int| 0 <= i < r.len() ==> #[trigger] (pre + r)[pre.len() + i] == r[i],
{
}

proof fn lemma_shift_prefix(pre: Seq<char>, r: Seq<char>, x: int)
    requires
        0 <= x <= r.len(),
    ensures
        comment_end(pre + r, blank_end(pre + r, pre.len() + x)) == pre.len() + comment_end(
            r,
            blank_end(r, x),
        ),
{
    lemma_shift_index(pre, r);
    lemma_shift_runs(pre, r, x);
    lemma_steps(r, x);
    let b = blank_end(r, x);
    lemma_blank_end(r, x);
    lemma_shift_runs(pre, r, b);
    assert(starts_comment(pre + r, pre.len() + b) == starts_comment(r, b));
    if starts_comment(r, b) {
        lemma_shift_runs(pre, r, b + 2);
    }
}

proof fn lemma_shift_ident(pre: Seq<char>, r: Seq<char>, x: int)
    requires
        0 <= x <= r.len(),
    ensures
        ident_step(pre + r, pre.len() + x) == shifted(pre, ident_step(r, x)),
{
    lemma_shift_index(pre, r);
    lemma_shift_runs(pre, r, x);
    let e = ident_end(r, x);
    lemma_ident_end(r, x);
    assert((pre + r).subrange(pre.len() + x, pre.len() + e) =~= r.subrange(x, e));
}

proof fn lemma_shift_number(pre: Seq<char>, r: Seq<char>, x: int)
    requires
        0 <= x <= r.len(),
    ensures
        number_step(pre + r, pre.len() + x) == shifted(pre, number_step(r, x)),
{
    lemma_shift_index(pre, r);
    lemma_shift_runs(pre, r, x);
    let e = number_run(r, x).0;
    lemma_number_run(r, x);
    assert((pre + r).subrange(pre.len() + x, pre.len() + e) =~= r.subrange(x, e));
}

proof fn lemma_shift_string(pre: Seq<char>, r: Seq<char>, x: int)
    requires
        0 <= x <= r.len(),
    ensures
        string_step(pre + r, pre.len() + x) == shifted(pre, string_step(r, x)),
{
    lemma_shift_index(pre, r);
    if x < r.len() {
        lemma_shift_runs(pre, r, x + 1);
        let q = quote_close(r, x + 1);
        lemma_quote_close(r, x + 1);
        assert((pre + r).subrange(pre.len() + x + 1, pre.len() + q) =~= r.subrange(x + 1, q));
    }
}

proof fn lemma_shift_tail(pre: Seq<char>, r: Seq<char>, x: int)
    requires
        0 <= x <= r.len(),
    ensures
        punct_step(pre + r, pre.len() + x) == shifted(pre, punct_step(r, x)),
        unexpected_step(pre + r, pre.len() + x) == shifted(pre, unexpected_step(r, x)),
{
    lemma_shift_index(pre, r);
    if x + 1 < r.len() {
        assert((pre + r)[pre.len() + x + 1] == r[x + 1]);
    }
}

proof fn lemma_shift_round(pre: Seq<char>, r: Seq<char>, p: int, toks: Seq<Token>)
    requires
        0 <= p <= r.len(),
    ensures
        round(pre + r, pre.len() + p, toks) == (pre.len() + round(r, p, toks).0, round(
            r,
            p,
            toks,
        ).1),
{
    lemma_shift_prefix(pre, r, p);
    lemma_steps(r, p);
    let q1 = comment_end(r, blank_end(r, p));
    lemma_steps(r, q1);
    lemma_shift_ident(pre, r, q1);
    let q2 = ident_step(r, q1).0;
    lemma_steps(r, q2);
    lemma_shift_number(pre, r, q2);
    let q3 = number_step(r, q2).0;
    lemma_steps(r, q3);
    lemma_shift_string(pre, r, q3);
    let q4 = string_step(r, q3).0;
    lemma_steps(r, q4);
    lemma_shift_tail(pre, r, q4);
    let q5 = punct_step(r, q4).0;
    lemma_steps(r, q5);
    lemma_shift_tail(pre, r, q5);
}

proof fn lemma_shift_run(pre: Seq<char>, r: Seq<char>, p: int, toks: Seq<Token>)
    requires
        0 <= p <= r.len(),
    ensures
        run(pre + r, pre.len() + p, toks) == (pre.len() + run(r, p, toks).0, run(r, p, toks).1),
    decreases r.len() - p,
{
    if !halted(toks) && p < r.len() {
        lemma_round_progress(r, p, toks);
        lemma_shift_round(pre, r, p, toks);
        let (q, next) = round(r, p, toks);
        lemma_shift_run(pre, r, q, next);
    }
}

proof fn lemma_newlines_concat(a: Seq<char>, b: Seq<char>)
    ensures
        newlines(a + b) == newlines(a) + newlines(b),
    decreases b.len(),
{
    if b.len() > 0 {
        assert((a + b).drop_last() =~= a + b.drop_last());
        lemma_newlines_concat(a, b.drop_last());
    }
}

} // verus!

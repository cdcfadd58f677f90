//! Character classes of the scanner, and the text helpers it relies on.
use vstd::prelude::*;
use vstd::std_specs::iter::IteratorSpec;

verus! {

broadcast use vstd::string::group_string_axioms;

/// What `char::is_alphabetic` answers for a character outside ASCII (the
/// Unicode `Alphabetic` property).
pub uninterp spec fn unicode_alphabetic(c: char) -> bool;

/// What `char::is_numeric` answers for a character outside ASCII (the Unicode
/// general categories `Nd`, `Nl` and `No`).
pub uninterp spec fn unicode_numeric(c: char) -> bool;

pub open spec fn is_ascii_char(c: char) -> bool {
    (c as u32) < 128
}

/// Alphabetic characters: the ASCII letters, and beyond ASCII those with the
/// Unicode `Alphabetic` property.
pub open spec fn is_alpha(c: char) -> bool {
    if is_ascii_char(c) {
        ('a' <= c && c <= 'z') || ('A' <= c && c <= 'Z')
    } else {
        unicode_alphabetic(c)
    }
}

/// Numeric characters: the ASCII digits, and beyond ASCII those in a Unicode
/// number category.
pub open spec fn is_num(c: char) -> bool {
    if is_ascii_char(c) {
        '0' <= c && c <= '9'
    } else {
        unicode_numeric(c)
    }
}

/// Relies on `char::is_alphabetic`: within ASCII exactly the letters `a-z` and
/// `A-Z`, beyond it the Unicode `Alphabetic` property.
#[verifier::external_body]
fn char_is_alphabetic(c: char) -> (r: bool)
    ensures
        is_ascii_char(c) ==> r == (('a' <= c && c <= 'z') || ('A' <= c && c <= 'Z')),
        !is_ascii_char(c) ==> r == unicode_alphabetic(c),
{
    c.is_alphabetic()
}

/// Relies on `char::is_numeric`: within ASCII exactly the digits `0-9`, beyond
/// it the Unicode number categories.
#[verifier::external_body]
fn char_is_numeric(c: char) -> (r: bool)
    ensures
        is_ascii_char(c) ==> r == ('0' <= c && c <= '9'),
        !is_ascii_char(c) ==> r == unicode_numeric(c),
{
    c.is_numeric()
}

/// The characters of `s`, in order.
pub(crate) fn chars_of(s: &str) -> (r: Vec<char>)
    ensures
        r@ == s@,
{
    let mut it = s.chars();
    let mut out: Vec<char> = Vec::new();
    loop
        invariant
            out@ + it.remaining() == s@,
            it.decrease() is Some,
            it.obeys_prophetic_iter_laws(),
        ensures
            out@ == s@,
        decreases it.decrease()->0,
    {
        match it.next() {
            Some(c) => out.push(c),
            None => {
                assert(out@ =~= s@);
                break;
            },
        }
    }
    out
}

pub open spec fn is_ident_start(c: char) -> bool {
    is_alpha(c) || c == '_'
}

pub open spec fn is_ident_char(c: char) -> bool {
    is_alpha(c) || is_num(c) || c == '_'
}

/// Space, carriage return, tab and newline.
pub open spec fn is_blank(c: char) -> bool {
    c == ' ' || c == '\r' || c == '\t' || c == '\n'
}

/// Relies on `String::push`: appends one character.
#[verifier::external_body]
pub(crate) fn push_char(s: &mut String, c: char)
    ensures
        final(s)@ == old(s)@.push(c),
{
    s.push(c);
}

pub(crate) fn blank(c: char) -> (r: bool)
    ensures
        r == is_blank(c),
{
    c == ' ' || c == '\r' || c == '\t' || c == '\n'
}

pub(crate) fn ident_start(c: char) -> (r: bool)
    ensures
        r == is_ident_start(c),
{
    char_is_alphabetic(c) || c == '_'
}

pub(crate) fn ident_char(c: char) -> (r: bool)
    ensures
        r == is_ident_char(c),
{
    char_is_alphabetic(c) || char_is_numeric(c) || c == '_'
}

pub(crate) fn numeric(c: char) -> (r: bool)
    ensures
        r == is_num(c),
{
    char_is_numeric(c)
}

} // verus!

//! Character classes the engine works with, as spec predicates with
//! matching executable tests.

use vstd::prelude::*;

verus! {

/// A lowercase ASCII letter.
pub open spec fn is_lower(c: char) -> bool {
    'a' <= c && c <= 'z'
}

/// An uppercase ASCII letter.
pub open spec fn is_upper(c: char) -> bool {
    'A' <= c && c <= 'Z'
}

/// An ASCII decimal digit.
pub open spec fn is_digit(c: char) -> bool {
    '0' <= c && c <= '9'
}

/// An ASCII letter of either case.
pub open spec fn is_alpha(c: char) -> bool {
    is_lower(c) || is_upper(c)
}

/// A separator character: dash or underscore.
pub open spec fn is_sep(c: char) -> bool {
    c == '-' || c == '_'
}

/// A bracket character, removed outright by the rewrite.
pub open spec fn is_bracket(c: char) -> bool {
    c == '[' || c == ']' || c == '{' || c == '}'
}

/// Punctuation the rewrite replaces with a dash.
pub open spec fn is_dash_punct(c: char) -> bool {
    c == ' ' || c == '+' || c == ',' || c == '(' || c == ')' || c == '\'' || c == '"'
        || c == '@' || c == '#' || c == '$' || c == '%' || c == '&' || c == '!'
}

/// Punctuation that keeps a name from counting as already clean:
/// the dash punctuation together with the brackets.
pub open spec fn is_blacklisted(c: char) -> bool {
    is_dash_punct(c) || is_bracket(c)
}

/// An ASCII character.
pub open spec fn is_ascii_char(c: char) -> bool {
    (c as u32) < 128
}

/// The lowercase form of an ASCII letter; any other character is unchanged.
pub open spec fn to_lower(c: char) -> char {
    if is_upper(c) {
        ((c as u8) + 32) as char
    } else {
        c
    }
}

pub fn lower_char(c: char) -> (res: char)
    ensures
        res == to_lower(c),
{
    if 'A' <= c && c <= 'Z' {
        ((c as u8) + 32) as char
    } else {
        c
    }
}

pub fn is_lower_char(c: char) -> (res: bool)
    ensures
        res == is_lower(c),
{
    'a' <= c && c <= 'z'
}

pub fn is_upper_char(c: char) -> (res: bool)
    ensures
        res == is_upper(c),
{
    'A' <= c && c <= 'Z'
}

pub fn is_digit_char(c: char) -> (res: bool)
    ensures
        res == is_digit(c),
{
    '0' <= c && c <= '9'
}

pub fn is_alpha_char(c: char) -> (res: bool)
    ensures
        res == is_alpha(c),
{
    ('a' <= c && c <= 'z') || ('A' <= c && c <= 'Z')
}

pub fn is_sep_char(c: char) -> (res: bool)
    ensures
        res == is_sep(c),
{
    c == '-' || c == '_'
}

pub fn is_bracket_char(c: char) -> (res: bool)
    ensures
        res == is_bracket(c),
{
    c == '[' || c == ']' || c == '{' || c == '}'
}

pub fn is_dash_punct_char(c: char) -> (res: bool)
    ensures
        res == is_dash_punct(c),
{
    c == ' ' || c == '+' || c == ',' || c == '(' || c == ')' || c == '\'' || c == '"'
        || c == '@' || c == '#' || c == '$' || c == '%' || c == '&' || c == '!'
}

pub fn is_blacklisted_char(c: char) -> (res: bool)
    ensures
        res == is_blacklisted(c),
{
    is_dash_punct_char(c) || is_bracket_char(c)
}

pub fn is_ascii_exec(c: char) -> (res: bool)
    ensures
        res == is_ascii_char(c),
{
    (c as u32) < 128
}

} // verus!

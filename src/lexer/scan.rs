//! Executable pieces of one lexer step, each proved against `model`.

use vstd::prelude::*;

use super::model::{
    comment_close, digit_value, digit_values, digits_end, digits_value, double_token, find_char,
    ident_end, is_digit, is_ident_char, is_ident_start, single_token, word_token,
};
use super::TokType;
use crate::text::push_char;

verus! {

pub(crate) fn is_digit_char(c: char) -> (r: bool)
    ensures
        r == is_digit(c),
{
    '0' <= c && c <= '9'
}

fn is_ident_char_exec(c: char) -> (r: bool)
    ensures
        r == is_ident_char(c),
{
    ('a' <= c && c <= 'z') || ('A' <= c && c <= 'Z') || ('0' <= c && c <= '9') || c == '_'
}

pub(crate) fn is_ident_start_char(c: char) -> (r: bool)
    ensures
        r == is_ident_start(c),
{
    ('a' <= c && c <= 'z') || ('A' <= c && c <= 'Z') || c == '_' || c == '$'
}

fn digit_of(c: char) -> (d: u8)
    requires
        is_digit(c),
    ensures
        d == digit_value(c),
        d < 10,
{
    ((c as u32) - ('0' as u32)) as u8
}

pub(crate) fn single_token_of(c: char) -> (r: Option<TokType>)
    ensures
        r == single_token(c),
{
    match c {
        '(' => Some(TokType::LParen),
        ')' => Some(TokType::RParen),
        '{' => Some(TokType::LBrace),
        '}' => Some(TokType::RBrace),
        '[' => Some(TokType::LBracket),
        ']' => Some(TokType::RBracket),
        ';' => Some(TokType::Semicolon),
        '=' => Some(TokType::Assign),
        '<' => Some(TokType::Lt),
        '>' => Some(TokType::Gt),
        '-' => Some(TokType::Minus),
        '~' => Some(TokType::Tilde),
        '!' => Some(TokType::Exclamation),
        '+' => Some(TokType::Plus),
        '*' => Some(TokType::Multi),
        '%' => Some(TokType::Mod),
        '/' => Some(TokType::Splash),
        '&' => Some(TokType::SingleAnd),
        '|' => Some(TokType::InclusiveOr),
        '?' => Some(TokType::QuestionMark),
        ':' => Some(TokType::Colon),
        ',' => Some(TokType::Comma),
        '#' => Some(TokType::Highlight),
        '.' => Some(TokType::Dot),
        _ => None,
    }
}

pub(crate) fn double_token_of(c: char, d: char) -> (r: Option<TokType>)
    ensures
        r == double_token(c, d),
{
    match (c, d) {
        ('=', '=') => Some(TokType::EqOp),
        ('<', '=') => Some(TokType::LeOp),
        ('<', '<') => Some(TokType::LeftOp),
        ('>', '=') => Some(TokType::GeOp),
        ('>', '>') => Some(TokType::RightOp),
        ('-', '-') => Some(TokType::DecOp),
        ('-', '=') => Some(TokType::SubAssign),
        ('!', '=') => Some(TokType::NeOp),
        ('+', '+') => Some(TokType::IncOp),
        ('+', '=') => Some(TokType::AddAssign),
        ('*', '=') => Some(TokType::MulAssign),
        ('%', '=') => Some(TokType::ModAssign),
        ('/', '=') => Some(TokType::DivAssign),
        ('&', '&') => Some(TokType::AndOp),
        ('&', '=') => Some(TokType::AndAssign),
        ('|', '|') => Some(TokType::OrOp),
        ('|', '=') => Some(TokType::OrAssign),
        _ => None,
    }
}

pub(crate) fn digits_end_of(chars: &Vec<char>, i: usize) -> (j: usize)
    requires
        i <= chars@.len(),
    ensures
        j == digits_end(chars@, i as int),
{
    let mut j = i;
    while j < chars.len() && is_digit_char(chars[j])
        invariant
            i <= j <= chars@.len(),
            digits_end(chars@, j as int) == digits_end(chars@, i as int),
        decreases chars@.len() - j,
    {
        j = j + 1;
    }
    j
}

pub(crate) fn ident_end_of(chars: &Vec<char>, i: usize) -> (j: usize)
    requires
        i <= chars@.len(),
    ensures
        j == ident_end(chars@, i as int),
{
    let mut j = i;
    while j < chars.len() && is_ident_char_exec(chars[j])
        invariant
            i <= j <= chars@.len(),
            ident_end(chars@, j as int) == ident_end(chars@, i as int),
        decreases chars@.len() - j,
    {
        j = j + 1;
    }
    j
}

pub(crate) fn find_char_of(chars: &Vec<char>, i: usize, q: char) -> (j: usize)
    requires
        i <= chars@.len(),
    ensures
        j == find_char(chars@, i as int, q),
{
    let mut j = i;
    while j < chars.len() && chars[j] != q
        invariant
            i <= j <= chars@.len(),
            find_char(chars@, j as int, q) == find_char(chars@, i as int, q),
        decreases chars@.len() - j,
    {
        j = j + 1;
    }
    j
}

pub(crate) fn comment_close_of(chars: &Vec<char>, i: usize) -> (j: usize)
    requires
        i <= chars@.len(),
    ensures
        j == comment_close(chars@, i as int),
{
    let mut j = i;
    while j < chars.len() && !(j + 1 < chars.len() && chars[j] == '*' && chars[j + 1] == '/')
        invariant
            i <= j <= chars@.len(),
            comment_close(chars@, j as int) == comment_close(chars@, i as int),
        decreases chars@.len() - j,
    {
        j = j + 1;
    }
    j
}

/// A prefix of a digit string never denotes more than the whole string.
pub proof fn lemma_digits_value_prefix(w: Seq<char>, m: int)
    requires
        0 <= m <= w.len(),
    ensures
        digits_value(w.take(m)) <= digits_value(w),
    decreases w.len(),
{
    if m < w.len() {
        assert(w.take(m) =~= w.drop_last().take(m));
        lemma_digits_value_prefix(w.drop_last(), m);
    } else {
        assert(w.take(m) =~= w);
    }
}

/// The value of the digits `chars[i..j]`, or `None` where it exceeds `i64::MAX`.
pub(crate) fn number_value(chars: &Vec<char>, i: usize, j: usize) -> (r: Option<i64>)
    requires
        i <= j <= chars@.len(),
        forall|k: int| i <= k < j ==> is_digit(#[trigger] chars@[k]),
    ensures
        match r {
            Some(v) => v == digits_value(chars@.subrange(i as int, j as int)),
            None => digits_value(chars@.subrange(i as int, j as int)) > i64::MAX,
        },
{
    let ghost s = chars@;
    let mut value: i64 = 0;
    let mut k = i;
    assert(s.subrange(i as int, i as int).len() == 0);
    while k < j
        invariant
            i <= k <= j <= s.len(),
            s == chars@,
            forall|m: int| i <= m < j ==> is_digit(#[trigger] s[m]),
            0 <= value,
            value == digits_value(s.subrange(i as int, k as int)),
        decreases j - k,
    {
        let d = digit_of(chars[k]);
        let ghost w = s.subrange(i as int, k as int + 1);
        assert(w.drop_last() =~= s.subrange(i as int, k as int));
        assert(w.last() == s[k as int]);
        let ghost whole = s.subrange(i as int, j as int);
        proof {
            assert(w =~= whole.take(k - i + 1));
            lemma_digits_value_prefix(whole, k - i + 1);
        }
        match value.checked_mul(10) {
            Some(t) => match t.checked_add(d as i64) {
                Some(v) => {
                    value = v;
                },
                None => {
                    return None;
                },
            },
            None => {
                return None;
            },
        }
        k = k + 1;
    }
    Some(value)
}

/// The value of each digit of `chars[i..j]`.
pub(crate) fn digits_of(chars: &Vec<char>, i: usize, j: usize) -> (r: Vec<u8>)
    requires
        i <= j <= chars@.len(),
        forall|k: int| i <= k < j ==> is_digit(#[trigger] chars@[k]),
    ensures
        r@ == digit_values(chars@.subrange(i as int, j as int)),
{
    let mut out: Vec<u8> = Vec::new();
    let mut k = i;
    while k < j
        invariant
            i <= k <= j <= chars@.len(),
            forall|m: int| i <= m < j ==> is_digit(#[trigger] chars@[m]),
            out@ =~= digit_values(chars@.subrange(i as int, k as int)),
        decreases j - k,
    {
        out.push(digit_of(chars[k]));
        k = k + 1;
        assert(out@ =~= digit_values(chars@.subrange(i as int, k as int)));
    }
    out
}

/// The text `chars[i..j]`.
pub(crate) fn string_of(chars: &Vec<char>, i: usize, j: usize) -> (r: String)
    requires
        i <= j <= chars@.len(),
    ensures
        r@ == chars@.subrange(i as int, j as int),
{
    let mut out = String::new();
    let mut k = i;
    while k < j
        invariant
            i <= k <= j <= chars@.len(),
            out@ =~= chars@.subrange(i as int, k as int),
        decreases j - k,
    {
        push_char(&mut out, chars[k]);
        k = k + 1;
        assert(out@ =~= chars@.subrange(i as int, k as int));
    }
    out
}

/// Whether `chars[i..j]` spells `word`.
fn spells(chars: &Vec<char>, i: usize, j: usize, word: &[char]) -> (r: bool)
    requires
        i <= j <= chars@.len(),
    ensures
        r == (chars@.subrange(i as int, j as int) == word@),
{
    if j - i != word.len() {
        assert(chars@.subrange(i as int, j as int).len() != word@.len());
        return false;
    }
    let mut k: usize = 0;
    while k < word.len()
        invariant
            j - i == word@.len(),
            i <= j <= chars@.len(),
            k <= word@.len(),
            forall|m: int| 0 <= m < k ==> chars@[i + m] == word@[m],
        decreases word@.len() - k,
    {
        if chars[i + k] != word[k] {
            assert(chars@.subrange(i as int, j as int)[k as int] != word@[k as int]);
            return false;
        }
        k = k + 1;
    }
    assert(chars@.subrange(i as int, j as int) =~= word@);
    true
}

/// The token for the word `chars[i..j]`.
pub(crate) fn word_token_of(chars: &Vec<char>, i: usize, j: usize) -> (r: TokType)
    requires
        i <= j <= chars@.len(),
    ensures
        r@ == word_token(chars@.subrange(i as int, j as int)),
{
    let module_word = ['m', 'o', 'd', 'u', 'l', 'e'];
    let if_word = ['i', 'f'];
    let else_word = ['e', 'l', 's', 'e'];
    assert(module_word@ =~= seq!['m', 'o', 'd', 'u', 'l', 'e']);
    assert(if_word@ =~= seq!['i', 'f']);
    assert(else_word@ =~= seq!['e', 'l', 's', 'e']);
    if spells(chars, i, j, module_word.as_slice()) {
        TokType::Module
    } else if spells(chars, i, j, if_word.as_slice()) {
        TokType::IF
    } else if spells(chars, i, j, else_word.as_slice()) {
        TokType::ELSE
    } else {
        TokType::IDENTIFIER(string_of(chars, i, j))
    }
}

} // verus!

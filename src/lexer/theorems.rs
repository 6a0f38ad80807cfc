//! General facts about the lexer, proved from its model.

use vstd::prelude::*;

use super::model::{
    digit_values, digits_end, digits_value, find_char, ident_end, is_digit, lemma_digits_end,
    lemma_scan_advances, lex_from, lex_spec, newlines, pos_at, scan, Scan, TokenKind, TokenView,
};
use super::{LexError, TokType};

verus! {

/// Whether lexing, started at index `from`, begins a step at index `i`.
pub open spec fn reaches(s: Seq<char>, from: int, i: int) -> bool
    decreases s.len() - from,
{
    if from == i {
        true
    } else if from < 0 || from >= s.len() || from > i {
        false
    } else {
        proof {
            lemma_scan_advances(s, from);
        }
        match scan(s, from) {
            Scan::Skip(j) => reaches(s, j, i),
            Scan::Emit(_, j) => reaches(s, j, i),
            Scan::Fail(_) => false,
        }
    }
}

/// The number that the digits `whole` then `fraction` spell together;
/// a decimal `whole.fraction` equals it divided by `10^fraction.len()`.
pub open spec fn scaled_value(whole: int, fraction: Seq<u8>) -> int
    decreases fraction.len(),
{
    if fraction.len() == 0 {
        whole
    } else {
        scaled_value(whole, fraction.drop_last()) * 10 + fraction.last()
    }
}

/// The end-of-stream token at position `(line, column)`.
pub open spec fn eof_at(line: nat, column: nat) -> TokenView {
    TokenView { kind: TokenKind::Plain(TokType::EOF), line, column }
}

proof fn lemma_pos_single_line(s: Seq<char>, i: int)
    requires
        0 <= i <= s.len(),
        forall|k: int| 0 <= k < i ==> #[trigger] s[k] != '\n',
    ensures
        pos_at(s, i) == (1nat, (i + 1) as nat),
    decreases i,
{
    if i > 0 {
        lemma_pos_single_line(s, i - 1);
    }
}

proof fn lemma_digits_run(s: Seq<char>, i: int, j: int)
    requires
        0 <= i <= j <= s.len(),
        forall|k: int| i <= k < j ==> is_digit(#[trigger] s[k]),
        j == s.len() || !is_digit(s[j]),
    ensures
        digits_end(s, i) == j,
    decreases j - i,
{
    if i < j {
        lemma_digits_run(s, i + 1, j);
    }
}

/// A string of decimal digits lexes to one integer constant with the value
/// that the digits spell, then the end-of-stream token. Values above
/// `i64::MAX` are rejected (`LexError::IntegerTooLarge`), so they are left out.
pub proof fn lemma_lex_integer(d: Seq<char>)
    requires
        d.len() > 0,
        forall|k: int| 0 <= k < d.len() ==> is_digit(#[trigger] d[k]),
        digits_value(d) <= i64::MAX,
    ensures
        lex_spec(d) == Ok::<Seq<TokenView>, LexError>(
            seq![
                TokenView { kind: TokenKind::Int(digits_value(d) as int), line: 1, column: 1 },
                eof_at(1, d.len() + 1),
            ],
        ),
{
    lemma_digits_run(d, 0, d.len() as int);
    assert(d.subrange(0, d.len() as int) =~= d);
    assert(forall|k: int| 0 <= k < d.len() ==> #[trigger] d[k] != '\n');
    lemma_pos_single_line(d, d.len() as int);
    lemma_pos_single_line(d, 0);
    lemma_scan_advances(d, 0);
    assert(scan(d, 0) == Scan::Emit(TokenKind::Int(digits_value(d) as int), d.len() as int));
    let tok = TokenView { kind: TokenKind::Int(digits_value(d) as int), line: 1, column: 1 };
    assert(lex_from(d, d.len() as int) == Ok::<Seq<TokenView>, LexError>(
        seq![eof_at(1, d.len() + 1)],
    ));
    assert(lex_from(d, 0) == Ok::<Seq<TokenView>, LexError>(
        seq![tok] + seq![eof_at(1, d.len() + 1)],
    ));
    assert(seq![tok] + seq![eof_at(1, d.len() + 1)] =~= seq![tok, eof_at(1, d.len() + 1)]);
}

proof fn lemma_scaled_value(a: Seq<char>, b: Seq<char>)
    requires
        forall|k: int| 0 <= k < b.len() ==> is_digit(#[trigger] b[k]),
    ensures
        scaled_value(digits_value(a) as int, digit_values(b)) == digits_value(a + b),
    decreases b.len(),
{
    if b.len() > 0 {
        assert(digit_values(b).drop_last() =~= digit_values(b.drop_last()));
        assert((a + b).drop_last() =~= a + b.drop_last());
        lemma_scaled_value(a, b.drop_last());
    } else {
        assert(a + b =~= a);
    }
}

/// `int.frac`, with both parts strings of decimal digits, lexes to one float
/// constant holding the value of `int` and the digits of `frac` exactly, then
/// the end-of-stream token; the constant is `int + frac[0]/10 + frac[1]/100 + ...`,
/// which is the number `int` then `frac` spell, over `10^frac.len()`.
/// Integer parts above `i64::MAX` are rejected, so they are left out.
pub proof fn lemma_lex_float(int_part: Seq<char>, frac: Seq<char>)
    requires
        int_part.len() > 0,
        frac.len() > 0,
        forall|k: int| 0 <= k < int_part.len() ==> is_digit(#[trigger] int_part[k]),
        forall|k: int| 0 <= k < frac.len() ==> is_digit(#[trigger] frac[k]),
        digits_value(int_part) <= i64::MAX,
    ensures
        lex_spec(int_part + seq!['.'] + frac) == Ok::<Seq<TokenView>, LexError>(
            seq![
                TokenView {
                    kind: TokenKind::Float(digits_value(int_part) as int, digit_values(frac)),
                    line: 1,
                    column: 1,
                },
                eof_at(1, int_part.len() + frac.len() + 2),
            ],
        ),
        scaled_value(digits_value(int_part) as int, digit_values(frac)) == digits_value(
            int_part + frac,
        ),
{
    let s = int_part + seq!['.'] + frac;
    let n = int_part.len() as int;
    assert(forall|k: int| 0 <= k < n ==> s[k] == int_part[k]);
    assert(s[n] == '.');
    assert(forall|k: int| n < k < s.len() ==> s[k] == frac[k - n - 1]);
    lemma_digits_run(s, 0, n);
    lemma_digits_run(s, n + 1, s.len() as int);
    assert(s.subrange(0, n) =~= int_part);
    assert(s.subrange(n + 1, s.len() as int) =~= frac);
    assert(forall|k: int| 0 <= k < s.len() ==> #[trigger] s[k] != '\n');
    lemma_pos_single_line(s, s.len() as int);
    lemma_pos_single_line(s, 0);
    lemma_scan_advances(s, 0);
    assert(is_digit(s[n + 1]));
    assert(scan(s, 0) == Scan::Emit(
        TokenKind::Float(digits_value(int_part) as int, digit_values(frac)),
        s.len() as int,
    ));
    let tok = TokenView {
        kind: TokenKind::Float(digits_value(int_part) as int, digit_values(frac)),
        line: 1,
        column: 1,
    };
    let eof = eof_at(1, s.len() + 1);
    assert(lex_from(s, s.len() as int) == Ok::<Seq<TokenView>, LexError>(seq![eof]));
    assert(lex_from(s, 0) == Ok::<Seq<TokenView>, LexError>(seq![tok] + seq![eof]));
    assert(seq![tok] + seq![eof] =~= seq![tok, eof]);
    lemma_scaled_value(int_part, frac);
}

/// The line of a position is one more than the newlines before it.
proof fn lemma_pos_line(s: Seq<char>, i: int)
    requires
        0 <= i <= s.len(),
    ensures
        pos_at(s, i).0 == newlines(s.take(i)) + 1,
    decreases i,
{
    if i > 0 {
        lemma_pos_line(s, i - 1);
        assert(s.take(i).drop_last() =~= s.take(i - 1));
    }
}

/// A successful lex ends with the end-of-stream token at the position past
/// the last character.
proof fn lemma_ends_with_eof(s: Seq<char>, i: int)
    requires
        0 <= i <= s.len(),
    ensures
        lex_from(s, i) matches Ok(ts) ==> ts.len() > 0 && ts.last() == eof_at(
            pos_at(s, s.len() as int).0,
            pos_at(s, s.len() as int).1,
        ),
    decreases s.len() - i,
{
    if i < s.len() {
        lemma_scan_advances(s, i);
        match scan(s, i) {
            Scan::Skip(j) => lemma_ends_with_eof(s, j),
            Scan::Emit(_, j) => lemma_ends_with_eof(s, j),
            Scan::Fail(_) => {},
        }
    }
}

/// Whether `tv` stands at the position of an index that lexing from `from` reaches.
pub open spec fn at_reached_index(s: Seq<char>, from: int, tv: TokenView) -> bool {
    exists|k: int|
        from <= k <= s.len() && #[trigger] reaches(s, from, k) && tv.line == pos_at(s, k).0
            && tv.column == pos_at(s, k).1
}

/// Every token that lexing from `i` emits stands at the position of an
/// index that lexing reaches.
proof fn lemma_token_positions(s: Seq<char>, i: int)
    requires
        0 <= i <= s.len(),
    ensures
        lex_from(s, i) matches Ok(ts) ==> forall|t: int|
            0 <= t < ts.len() ==> at_reached_index(s, i, #[trigger] ts[t]),
    decreases s.len() - i,
{
    if i < s.len() {
        lemma_scan_advances(s, i);
        match scan(s, i) {
            Scan::Skip(j) => {
                lemma_token_positions(s, j);
                lemma_reaches_step(s, i, j);
                if let Ok(ts) = lex_from(s, i) {
                    assert forall|t: int| 0 <= t < ts.len() implies at_reached_index(
                        s,
                        i,
                        #[trigger] ts[t],
                    ) by {
                        assert(at_reached_index(s, j, ts[t]));
                        let k = choose|k: int|
                            j <= k <= s.len() && #[trigger] reaches(s, j, k) && ts[t].line
                                == pos_at(s, k).0 && ts[t].column == pos_at(s, k).1;
                        assert(reaches(s, i, k));
                    }
                }
            },
            Scan::Emit(_, j) => {
                lemma_token_positions(s, j);
                lemma_reaches_step(s, i, j);
                if let Ok(ts) = lex_from(s, i) {
                    let rest = lex_from(s, j)->Ok_0;
                    assert forall|t: int| 0 <= t < ts.len() implies at_reached_index(
                        s,
                        i,
                        #[trigger] ts[t],
                    ) by {
                        if t == 0 {
                            assert(reaches(s, i, i));
                        } else {
                            assert(ts[t] == rest[t - 1]);
                            assert(at_reached_index(s, j, rest[t - 1]));
                            let k = choose|k: int|
                                j <= k <= s.len() && #[trigger] reaches(s, j, k) && rest[t
                                    - 1].line == pos_at(s, k).0 && rest[t - 1].column == pos_at(
                                    s,
                                    k,
                                ).1;
                            assert(reaches(s, i, k));
                        }
                    }
                }
            },
            Scan::Fail(_) => {},
        }
    } else {
        assert(reaches(s, i, i));
        let ts = lex_from(s, i)->Ok_0;
        assert(at_reached_index(s, i, ts[0]));
    }
}

/// Where lexing from `j` reaches `k`, lexing from a step before `j` does too.
proof fn lemma_reaches_step(s: Seq<char>, i: int, j: int)
    requires
        0 <= i < s.len(),
        !(scan(s, i) is Fail),
        j == super::model::scan_next(scan(s, i)),
    ensures
        forall|k: int| reaches(s, j, k) && k >= j ==> #[trigger] reaches(s, i, k),
{
    lemma_scan_advances(s, i);
}

/// A source with `k` newlines ends, once lexed, with a token on line `k + 1`;
/// every token stands at the position of an index where lexing begins a step; and the
/// position just after a newline is column 1 of the next line.
pub proof fn lemma_lex_lines(s: Seq<char>)
    ensures
        lex_spec(s) matches Ok(ts) ==> ts.len() > 0 && ts.last().line == newlines(s) + 1,
        lex_spec(s) matches Ok(ts) ==> forall|t: int|
            0 <= t < ts.len() ==> at_reached_index(s, 0, #[trigger] ts[t]),
        forall|i: int|
            0 <= i < s.len() && s[i] == '\n' ==> #[trigger] pos_at(s, i + 1) == (
                newlines(s.take(i + 1)) + 1,
                1nat,
            ),
{
    lemma_ends_with_eof(s, 0);
    lemma_pos_line(s, s.len() as int);
    assert(s.take(s.len() as int) =~= s);
    lemma_token_positions(s, 0);
    assert forall|i: int| 0 <= i < s.len() && s[i] == '\n' implies #[trigger] pos_at(s, i + 1) == (
        newlines(s.take(i + 1)) + 1,
        1nat,
    ) by {
        lemma_pos_line(s, i + 1);
    }
}

/// A character that begins no token fails the lex, wherever lexing reaches
/// it (that is, outside string literals and comments): the error cites that
/// character at its line and column, and no tokens come back.
pub proof fn lemma_lex_unexpected(s: Seq<char>, i: int)
    requires
        0 <= i < s.len(),
        reaches(s, 0, i),
        s[i] == '§',
    ensures
        lex_spec(s) == Err::<Seq<TokenView>, LexError>(
            LexError::UnexpectedCharacter {
                ch: '§',
                line: pos_at(s, i).0 as usize,
                column: pos_at(s, i).1 as usize,
            },
        ),
{
    lemma_fails_at(s, 0, i);
}

proof fn lemma_fails_at(s: Seq<char>, from: int, i: int)
    requires
        0 <= from <= i < s.len(),
        reaches(s, from, i),
        s[i] == '§',
    ensures
        lex_from(s, from) == Err::<Seq<TokenView>, LexError>(
            LexError::UnexpectedCharacter {
                ch: '§',
                line: pos_at(s, i).0 as usize,
                column: pos_at(s, i).1 as usize,
            },
        ),
    decreases s.len() - from,
{
    lemma_scan_advances(s, from);
    if from < i {
        match scan(s, from) {
            Scan::Skip(j) => {
                assert(reaches(s, j, i));
                lemma_fails_at(s, j, i);
            },
            Scan::Emit(_, j) => {
                assert(reaches(s, j, i));
                lemma_fails_at(s, j, i);
            },
            Scan::Fail(_) => {},
        }
    }
}

/// Whether `ch` stands at an index that lexing from `from` reaches, at
/// line `line` and column `column`.
pub open spec fn reached_char(s: Seq<char>, from: int, ch: char, line: usize, column: usize) -> bool {
    exists|k: int|
        from <= k < s.len() && #[trigger] reaches(s, from, k) && s[k] == ch && line == pos_at(
            s,
            k,
        ).0 as usize && column == pos_at(s, k).1 as usize
}

/// An unexpected-character error always names a character of the source
/// that lexing reached, with that character's line and column.
pub proof fn lemma_unexpected_is_located(s: Seq<char>, from: int)
    requires
        0 <= from <= s.len(),
    ensures
        lex_from(s, from) matches Err(LexError::UnexpectedCharacter { ch, line, column })
            ==> reached_char(s, from, ch, line, column),
    decreases s.len() - from,
{
    if from < s.len() {
        lemma_scan_advances(s, from);
        match scan(s, from) {
            Scan::Skip(j) => {
                lemma_unexpected_is_located(s, j);
                lemma_reaches_step(s, from, j);
                lemma_reached_char_step(s, from, j);
            },
            Scan::Emit(_, j) => {
                lemma_unexpected_is_located(s, j);
                lemma_reaches_step(s, from, j);
                lemma_reached_char_step(s, from, j);
            },
            Scan::Fail(e) => {
                assert(reaches(s, from, from));
                if let LexError::UnexpectedCharacter { ch, line, column } = e {
                    assert(reached_char(s, from, ch, line, column));
                }
            },
        }
    }
}

proof fn lemma_reached_char_step(s: Seq<char>, i: int, j: int)
    requires
        0 <= i < s.len(),
        !(scan(s, i) is Fail),
        j == super::model::scan_next(scan(s, i)),
    ensures
        forall|ch: char, line: usize, column: usize|
            #[trigger] reached_char(s, j, ch, line, column) ==> reached_char(s, i, ch, line, column),
{
    lemma_reaches_step(s, i, j);
    lemma_scan_advances(s, i);
    assert forall|ch: char, line: usize, column: usize|
        #[trigger] reached_char(s, j, ch, line, column) implies reached_char(s, i, ch, line, column) by {
        let k = choose|k: int|
            j <= k < s.len() && #[trigger] reaches(s, j, k) && s[k] == ch && line == pos_at(s, k).0 as usize
                && column == pos_at(s, k).1 as usize;
        assert(reaches(s, i, k));
    }
}

/// Whether position `(l1, c1)` comes no later than `(l2, c2)` in the text.
pub open spec fn no_later(l1: nat, c1: nat, l2: nat, c2: nat) -> bool {
    l1 < l2 || (l1 == l2 && c1 <= c2)
}

proof fn lemma_pos_monotone(s: Seq<char>, i: int, j: int)
    requires
        0 <= i <= j <= s.len(),
    ensures
        no_later(pos_at(s, i).0, pos_at(s, i).1, pos_at(s, j).0, pos_at(s, j).1),
    decreases j - i,
{
    if i < j {
        lemma_pos_monotone(s, i, j - 1);
    }
}

proof fn lemma_ordered_from(s: Seq<char>, i: int)
    requires
        0 <= i <= s.len(),
    ensures
        lex_from(s, i) matches Ok(ts) ==> (forall|t: int|
            0 <= t < ts.len() ==> no_later(
                pos_at(s, i).0,
                pos_at(s, i).1,
                #[trigger] ts[t].line,
                ts[t].column,
            )) && (forall|a: int, b: int|
            0 <= a <= b < ts.len() ==> no_later(
                #[trigger] ts[a].line,
                ts[a].column,
                #[trigger] ts[b].line,
                ts[b].column,
            )),
    decreases s.len() - i,
{
    if i < s.len() {
        lemma_scan_advances(s, i);
        match scan(s, i) {
            Scan::Skip(j) => {
                lemma_ordered_from(s, j);
                lemma_pos_monotone(s, i, j);
            },
            Scan::Emit(_, j) => {
                lemma_ordered_from(s, j);
                lemma_pos_monotone(s, i, j);
                if let Ok(ts) = lex_from(s, i) {
                    let rest = lex_from(s, j)->Ok_0;
                    assert forall|t: int| 1 <= t < ts.len() implies #[trigger] ts[t] == rest[t
                        - 1] by {}
                }
            },
            Scan::Fail(_) => {},
        }
    } else {
        lemma_pos_monotone(s, i, s.len() as int);
    }
}

/// A successful lex is never empty, ends with the end-of-stream token, and
/// lists its tokens in the order of their positions.
pub proof fn lemma_lex_ordered(s: Seq<char>)
    ensures
        lex_spec(s) matches Ok(ts) ==> ts.len() > 0 && ts.last().kind == TokenKind::Plain(
            TokType::EOF,
        ) && forall|a: int, b: int|
            0 <= a <= b < ts.len() ==> no_later(
                #[trigger] ts[a].line,
                ts[a].column,
                #[trigger] ts[b].line,
                ts[b].column,
            ),
{
    lemma_ends_with_eof(s, 0);
    lemma_ordered_from(s, 0);
}

} // verus!

//! Writing tokens and reading them again: the tokens that the lexer makes,
//! each written as an expression shows it and a blank behind each, are read
//! as tokens of the same kinds and texts.

use vstd::prelude::*;
use crate::lexer::{
    digits_end, find_char, ident_end, is_digit, is_ident_part, is_ident_start, keyword_of, lex,
    lex_from, number_end, pair_at, punctuation, scan, skip, string_scan, token_at, token_views,
    Mode, Scan, Skip, Token, TokenKind, TokenView,
};
use crate::sql::expr::{all_plain, doubled, identifier, is_plain, push_rendered, render};
use crate::text::{ascii_lower, ascii_lowercase, is_ws};

verus! {

/// A run of characters of an identifier ends where it ends.
proof fn lemma_ident_run(s: Seq<char>, a: int, b: int)
    requires
        0 <= a <= b <= s.len(),
        forall|k: int| a <= k < b ==> is_ident_part(#[trigger] s[k]),
        b == s.len() || !is_ident_part(s[b]),
    ensures
        ident_end(s, a) == b,
    decreases b - a,
{
    if a < b {
        lemma_ident_run(s, a + 1, b);
    }
}

/// Up to where an identifier ends there are characters of an identifier
/// only, and none stands there.
proof fn lemma_ident_end(s: Seq<char>, a: int)
    requires
        0 <= a <= s.len(),
    ensures
        a <= ident_end(s, a) <= s.len(),
        forall|k: int| a <= k < ident_end(s, a) ==> is_ident_part(#[trigger] s[k]),
        ident_end(s, a) == s.len() || !is_ident_part(s[ident_end(s, a)]),
    decreases s.len() - a,
{
    if a < s.len() && is_ident_part(s[a]) {
        lemma_ident_end(s, a + 1);
    }
}

/// A run of digits ends where it ends.
proof fn lemma_digit_run(s: Seq<char>, a: int, b: int)
    requires
        0 <= a <= b <= s.len(),
        forall|k: int| a <= k < b ==> is_digit(#[trigger] s[k]),
        b == s.len() || !is_digit(s[b]),
    ensures
        digits_end(s, a) == b,
    decreases b - a,
{
    if a < b {
        lemma_digit_run(s, a + 1, b);
    }
}

/// Up to where a run of digits ends there are digits only, and none stands
/// there.
proof fn lemma_digits_end_run(s: Seq<char>, a: int)
    requires
        0 <= a <= s.len(),
    ensures
        a <= digits_end(s, a) <= s.len(),
        forall|k: int| a <= k < digits_end(s, a) ==> is_digit(#[trigger] s[k]),
        digits_end(s, a) == s.len() || !is_digit(s[digits_end(s, a)]),
    decreases s.len() - a,
{
    if a < s.len() && is_digit(s[a]) {
        lemma_digits_end_run(s, a + 1);
    }
}

/// The character `c` is found where it first stands.
proof fn lemma_found(s: Seq<char>, a: int, b: int, c: char)
    requires
        0 <= a <= b <= s.len(),
        forall|k: int| a <= k < b ==> #[trigger] s[k] != c,
        b == s.len() || s[b] == c,
    ensures
        find_char(s, a, c) == b,
    decreases b - a,
{
    if a < b {
        lemma_found(s, a + 1, b, c);
    }
}

/// Before the place where the character `c` is found it does not stand.
proof fn lemma_find_char(s: Seq<char>, a: int, c: char)
    requires
        0 <= a <= s.len(),
    ensures
        a <= find_char(s, a, c) <= s.len(),
        forall|k: int| a <= k < find_char(s, a, c) ==> #[trigger] s[k] != c,
        find_char(s, a, c) == s.len() || s[find_char(s, a, c)] == c,
    decreases s.len() - a,
{
    if a < s.len() && s[a] != c {
        lemma_find_char(s, a + 1, c);
    }
}

/// The text of a token whose kind fixes it.
pub open spec fn fixed_text(kind: TokenKind) -> Option<Seq<char>> {
    match kind {
        TokenKind::Comma => Some(seq![',']),
        TokenKind::Semicolon => Some(seq![';']),
        TokenKind::LeftParen => Some(seq!['(']),
        TokenKind::RightParen => Some(seq![')']),
        TokenKind::Period => Some(seq!['.']),
        TokenKind::Star => Some(seq!['*']),
        TokenKind::Equals => Some(seq!['=']),
        TokenKind::NotEquals => Some(seq!['<', '>']),
        TokenKind::LessEq => Some(seq!['<', '=']),
        TokenKind::GreaterEq => Some(seq!['>', '=']),
        TokenKind::Less => Some(seq!['<']),
        TokenKind::Greater => Some(seq!['>']),
        TokenKind::DoubleColon => Some(seq![':', ':']),
        _ => None,
    }
}

/// The text is a word: it starts as an identifier does and holds only
/// lower-case letters, digits and underscores.
pub open spec fn is_word(text: Seq<char>) -> bool {
    text.len() > 0 && is_ident_start(text[0]) && all_plain(text)
}

/// The text is a number as the lexer reads one: with a blank behind it, the
/// number that starts with it ends before the blank.
pub open spec fn is_number(text: Seq<char>) -> bool {
    text.len() > 0 && is_digit(text[0]) && number_end(text + seq![' '], 0) == text.len()
}

/// The kind and the text are those of a token that the lexer can make: a
/// reserved word is the word that its text is; an identifier has a text
/// without a double quote; a number is a number; the text of a punctuation
/// mark is the mark.
pub open spec fn can_be_read(kind: TokenKind, text: Seq<char>) -> bool {
    match kind {
        TokenKind::Keyword(k) => is_word(text) && keyword_of(text) == Some(k),
        TokenKind::Identifier => text.len() > 0 && forall|k: int| 0 <= k < text.len() ==> #[trigger] text[k] != '"',
        TokenKind::StringLiteral => true,
        TokenKind::Number => is_number(text),
        _ => fixed_text(kind) == Some(text),
    }
}

/// Every token of the list is one that the lexer can make.
pub open spec fn all_read(ts: Seq<TokenView>) -> bool {
    forall|k: int| 0 <= k < ts.len() ==> can_be_read((#[trigger] ts[k]).kind, ts[k].text)
}

/// Where the number at `i` in `s` ends, the number ends that stands in `u`
/// at `j` with the same characters and a blank behind them.
proof fn lemma_number_copied(s: Seq<char>, i: int, u: Seq<char>, j: int)
    requires
        0 <= i < s.len(),
        is_digit(s[i]),
        0 <= j,
        j + (number_end(s, i) - i) < u.len(),
        forall|k: int| 0 <= k < number_end(s, i) - i ==> #[trigger] u[j + k] == s[i + k],
        u[j + (number_end(s, i) - i)] == ' ',
    ensures
        i < number_end(s, i) <= s.len(),
        number_end(u, j) == j + (number_end(s, i) - i),
{
    let e = number_end(s, i);
    let whole = digits_end(s, i);
    lemma_digits_end_run(s, i);
    assert(is_digit(s[i]));
    assert(whole > i);
    if whole < s.len() {
        lemma_digits_end_run(s, whole + 1);
    }
    let fraction = if whole < s.len() && s[whole] == '.' {
        digits_end(s, whole + 1)
    } else {
        whole
    };
    assert(whole <= fraction <= s.len());
    let digits = if fraction + 1 < s.len() && (s[fraction + 1] == '+' || s[fraction + 1] == '-') {
        fraction + 2
    } else {
        fraction + 1
    };
    if digits <= s.len() {
        lemma_digits_end_run(s, digits);
    }
    assert(fraction <= e <= s.len());
    let d = j - i;
    assert forall|k: int| i <= k < e implies #[trigger] u[k + d] == s[k] by {
        assert(u[j + (k - i)] == s[i + (k - i)]);
    }
    assert forall|k: int| i <= k < whole implies is_digit(#[trigger] u[k + d]) by {
        assert(u[k + d] == s[k]);
    }
    assert forall|k: int| j <= k < whole + d implies is_digit(#[trigger] u[k]) by {
        assert(u[(k - d) + d] == s[k - d]);
    }
    if whole < e {
        assert(u[whole + d] == s[whole]);
    }
    lemma_digit_run(u, j, whole + d);
    assert(digits_end(u, j) == whole + d);
    if whole < s.len() && s[whole] == '.' {
        assert(whole < e);
        assert(u[whole + d] == '.');
        assert forall|k: int| whole + 1 + d <= k < fraction + d implies is_digit(#[trigger] u[k]) by {
            assert(u[(k - d) + d] == s[k - d]);
        }
        if fraction < e {
            assert(u[fraction + d] == s[fraction]);
        }
        lemma_digit_run(u, whole + 1 + d, fraction + d);
    }
    let copied = if whole + d < u.len() && u[whole + d] == '.' {
        digits_end(u, whole + d + 1)
    } else {
        whole + d
    };
    assert(copied == fraction + d);
    if e > fraction {
        assert(u[fraction + d] == s[fraction]);
        assert(digits < s.len() && is_digit(s[digits]));
        assert(e == digits_end(s, digits));
        assert(digits < e);
        assert(u[fraction + 1 + d] == s[fraction + 1]);
        assert(u[digits + d] == s[digits]);
        assert forall|k: int| digits + d <= k < e + d implies is_digit(#[trigger] u[k]) by {
            assert(u[(k - d) + d] == s[k - d]);
        }
        lemma_digit_run(u, digits + d, e + d);
    }
}

/// What the lexer finds at a position is a token that it can make.
proof fn lemma_scan_read(s: Seq<char>, j: int)
    requires
        0 <= j < s.len(),
    ensures
        scan(s, j) matches Scan::Token { kind, text, end } ==> can_be_read(kind, text),
{
    let c = s[j];
    if is_ident_start(c) {
        let e = ident_end(s, j + 1);
        lemma_ident_end(s, j + 1);
        let raw = s.subrange(j, e);
        let t = ascii_lowercase(raw);
        assert(t[0] == ascii_lower(raw[0]));
        assert forall|k: int| 0 <= k < t.len() implies is_ident_part(#[trigger] t[k]) && ascii_lower(t[k])
            == t[k] && t[k] != '"' by {
            assert(t[k] == ascii_lower(raw[k]));
            assert(raw[k] == s[j + k]);
            if k > 0 {
                assert(is_ident_part(s[j + k]));
            }
        }
        assert(is_word(t));
    } else if c == '"' {
        let e = find_char(s, j + 1, '"');
        lemma_find_char(s, j + 1, '"');
        if j + 1 < e < s.len() {
            let t = s.subrange(j + 1, e);
            assert forall|k: int| 0 <= k < t.len() implies #[trigger] t[k] != '"' by {
                assert(t[k] == s[j + 1 + k]);
            }
        }
    } else if c == '\'' {
    } else if c == '$' {
    } else if is_digit(c) {
        let e = number_end(s, j);
        let t = s.subrange(j, e);
        let u = t + seq![' '];
        assert(j < e <= s.len()) by {
            lemma_digits_end_run(s, j);
            let whole = digits_end(s, j);
            if whole < s.len() {
                lemma_digits_end_run(s, whole + 1);
            }
            let fraction = if whole < s.len() && s[whole] == '.' {
                digits_end(s, whole + 1)
            } else {
                whole
            };
            let digits = if fraction + 1 < s.len() && (s[fraction + 1] == '+' || s[fraction + 1] == '-') {
                fraction + 2
            } else {
                fraction + 1
            };
            if digits <= s.len() {
                lemma_digits_end_run(s, digits);
            }
        }
        assert forall|k: int| 0 <= k < e - j implies #[trigger] u[0 + k] == s[j + k] by {
            assert(u[k] == t[k]);
        }
        assert(u[e - j] == ' ');
        lemma_number_copied(s, j, u, 0);
        assert(t[0] == s[j]);
    } else {
        match punctuation(s, j) {
            Some((kind, n)) => {
                let t = s.subrange(j, j + n);
                if n == 2 {
                    assert(j + 1 < s.len());
                    assert(t =~= seq![s[j], s[j + 1]]);
                } else {
                    assert(t =~= seq![s[j]]);
                }
                assert(fixed_text(kind) == Some(t));
            },
            None => {},
        }
    }
}

/// The tokens that the lexer makes are tokens that it can make.
pub proof fn lemma_lex_from_read(s: Seq<char>, i: int)
    requires
        0 <= i,
    ensures
        lex_from(s, i) matches Ok(ts) ==> all_read(ts),
    decreases s.len() - i,
{
    match skip(s, i, i, Mode::Code) {
        Skip::Unterminated(_) => {},
        Skip::To(j) => {
            if !(j >= s.len() || j < i) {
                lemma_scan_read(s, j);
                match scan(s, j) {
                    Scan::Invalid { .. } => {},
                    Scan::Token { kind, text, end } => {
                        if j < end <= s.len() {
                            lemma_lex_from_read(s, end);
                            match lex_from(s, end) {
                                Ok(rest) => {
                                    let first = token_at(s, j, kind, text, end);
                                    let all = seq![first] + rest;
                                    assert forall|k: int| 0 <= k < all.len() implies can_be_read(
                                        (#[trigger] all[k]).kind,
                                        all[k].text,
                                    ) by {
                                        if k > 0 {
                                            assert(all[k] == rest[k - 1]);
                                        }
                                    }
                                },
                                Err(_) => {},
                            }
                        }
                    },
                }
            }
        },
    }
}

/// Outside a comment in brackets, passing over white space and comments
/// does not depend on where it is said to have begun.
proof fn lemma_skip_start(s: Seq<char>, i: int, a: int, b: int, mode: Mode)
    requires
        mode is Code || mode is Line,
    ensures
        skip(s, i, a, mode) == skip(s, i, b, mode),
    decreases s.len() - i,
{
    if !(i < 0 || i >= s.len()) {
        match mode {
            Mode::Code => {
                if is_ws(s[i]) {
                    lemma_skip_start(s, i + 1, a, b, Mode::Code);
                } else if pair_at(s, i, '-', '-') {
                    lemma_skip_start(s, i + 2, a, b, Mode::Line);
                }
            },
            Mode::Line => {
                if s[i] == '\n' {
                    lemma_skip_start(s, i + 1, a, b, Mode::Code);
                } else {
                    lemma_skip_start(s, i + 1, a, b, Mode::Line);
                }
            },
            Mode::Block(_) => {},
        }
    }
}

/// Passing over white space and comments goes forward.
proof fn lemma_skip_forward(s: Seq<char>, i: int, start: int, mode: Mode)
    requires
        0 <= i <= s.len(),
    ensures
        skip(s, i, start, mode) matches Skip::To(j) ==> i <= j <= s.len(),
    decreases s.len() - i,
{
    if i < s.len() {
        match mode {
            Mode::Code => {
                if is_ws(s[i]) {
                    lemma_skip_forward(s, i + 1, start, Mode::Code);
                } else if pair_at(s, i, '-', '-') {
                    lemma_skip_forward(s, i + 2, start, Mode::Line);
                } else if pair_at(s, i, '/', '*') {
                    lemma_skip_forward(s, i + 2, i, Mode::Block(1));
                }
            },
            Mode::Line => {
                if s[i] == '\n' {
                    lemma_skip_forward(s, i + 1, start, Mode::Code);
                } else {
                    lemma_skip_forward(s, i + 1, start, Mode::Line);
                }
            },
            Mode::Block(depth) => {
                if pair_at(s, i, '*', '/') {
                    if depth <= 1 {
                        lemma_skip_forward(s, i + 2, start, Mode::Code);
                    } else {
                        lemma_skip_forward(s, i + 2, start, Mode::Block((depth - 1) as nat));
                    }
                } else if pair_at(s, i, '/', '*') {
                    lemma_skip_forward(s, i + 2, start, Mode::Block(depth + 1));
                } else {
                    lemma_skip_forward(s, i + 1, start, Mode::Block(depth));
                }
            },
        }
    }
}

/// A text with its quotes doubled starts with its first character, twice
/// if that is a quote, and goes on with the rest, its quotes doubled.
proof fn lemma_doubled_front(s: Seq<char>)
    requires
        s.len() > 0,
    ensures
        doubled(s) == (if s[0] == '\'' {
            seq!['\'', '\'']
        } else {
            seq![s[0]]
        }) + doubled(s.drop_first()),
    decreases s.len(),
{
    let head = if s[0] == '\'' {
        seq!['\'', '\'']
    } else {
        seq![s[0]]
    };
    if s.len() == 1 {
        assert(s.drop_last() =~= Seq::<char>::empty());
        assert(s.drop_first() =~= Seq::<char>::empty());
        assert(doubled(s.drop_last()) =~= Seq::<char>::empty());
        assert(doubled(s) =~= head + doubled(s.drop_first()));
    } else {
        lemma_doubled_front(s.drop_last());
        assert(s.drop_last().drop_first() =~= s.drop_first().drop_last());
        assert(s.drop_first().last() == s.last());
        assert(s.drop_last()[0] == s[0]);
        let middle = doubled(s.drop_first().drop_last());
        assert(doubled(s.drop_last()) == head + middle);
        if s.last() == '\'' {
            assert(doubled(s) =~= head + middle.push('\'').push('\''));
        } else {
            assert(doubled(s) =~= head + middle.push(s.last()));
        }
    }
}

/// A text written with its quotes doubled, a quote behind it and no quote
/// behind that, is read as the text.
proof fn lemma_string_read(u: Seq<char>, a: int, text: Seq<char>)
    requires
        0 <= a,
        a + doubled(text).len() + 1 < u.len(),
        u.subrange(a, a + doubled(text).len()) == doubled(text),
        u[a + doubled(text).len()] == '\'',
        u[a + doubled(text).len() + 1] != '\'',
    ensures
        string_scan(u, a) == Some((text, a + doubled(text).len() + 1)),
    decreases text.len(),
{
    let d = doubled(text);
    if text.len() == 0 {
        assert(text =~= Seq::<char>::empty());
    } else {
        lemma_doubled_front(text);
        let rest = text.drop_first();
        let r = doubled(rest);
        assert forall|k: int| 0 <= k < d.len() implies u[a + k] == #[trigger] d[k] by {
            assert(u.subrange(a, a + d.len())[k] == u[a + k]);
        }
        if text[0] == '\'' {
            assert(d == seq!['\'', '\''] + r);
            assert(d[0] == '\'' && d[1] == '\'');
            assert(u[a] == d[0]);
            assert(u[a + 1] == d[1]);
            assert(u.subrange(a + 2, a + 2 + r.len()) =~= r) by {
                assert forall|k: int| 0 <= k < r.len() implies u[a + 2 + k] == r[k] by {
                    assert(d[k + 2] == r[k]);
                }
            }
            lemma_string_read(u, a + 2, rest);
            assert(seq!['\''] + rest =~= text);
        } else {
            assert(d == seq![text[0]] + r);
            assert(d[0] == text[0]);
            assert(u[a] == d[0]);
            assert(u.subrange(a + 1, a + 1 + r.len()) =~= r) by {
                assert forall|k: int| 0 <= k < r.len() implies u[a + 1 + k] == r[k] by {
                    assert(d[k + 1] == r[k]);
                }
            }
            lemma_string_read(u, a + 1, rest);
            assert(seq![u[a]] + rest =~= text);
        }
    }
}

/// How a token of the kind and the text is written.
pub open spec fn shown(kind: TokenKind, text: Seq<char>) -> Seq<char> {
    render(TokenView { kind, text, line: 0, start: 0, end: 0 })
}

/// Where a token that the lexer can make stands written in a text, with a
/// blank behind it, the lexer finds it: a token of its kind and text, which
/// ends before the blank. What stands there starts neither white space nor
/// a comment.
proof fn lemma_shown_scanned(u: Seq<char>, j: int, kind: TokenKind, text: Seq<char>)
    requires
        can_be_read(kind, text),
        0 <= j,
        j + shown(kind, text).len() < u.len(),
        u.subrange(j, j + shown(kind, text).len()) == shown(kind, text),
        u[j + shown(kind, text).len()] == ' ',
    ensures
        shown(kind, text).len() > 0,
        scan(u, j) == (Scan::Token { kind, text, end: j + shown(kind, text).len() }),
        !is_ws(u[j]),
        !pair_at(u, j, '-', '-'),
        !pair_at(u, j, '/', '*'),
{
    let w = shown(kind, text);
    let n = w.len() as int;
    assert forall|k: int| 0 <= k < n implies u[j + k] == #[trigger] w[k] by {
        assert(u.subrange(j, j + n)[k] == u[j + k]);
    }
    match kind {
        TokenKind::Keyword(_) => {
            lemma_word_scanned(u, j, text);
        },
        TokenKind::Identifier => {
            if is_plain(text) {
                lemma_word_scanned(u, j, text);
            } else {
                assert(w == seq!['"'] + text + seq!['"']);
                assert(w[0] == '"');
                assert(u[j] == w[0]);
                let e = j + 1 + text.len();
                assert forall|k: int| j + 1 <= k < e implies #[trigger] u[k] != '"' by {
                    assert(u[j + (k - j)] == w[k - j]);
                    assert(w[k - j] == text[k - j - 1]);
                }
                assert(w[n - 1] == '"');
                assert(u[j + (n - 1)] == w[n - 1]);
                lemma_found(u, j + 1, e, '"');
                assert(u.subrange(j + 1, e) =~= text) by {
                    assert forall|k: int| 0 <= k < text.len() implies u[j + 1 + k] == text[k] by {
                        assert(u[j + (k + 1)] == w[k + 1]);
                        assert(w[k + 1] == text[k]);
                    }
                }
            }
        },
        TokenKind::StringLiteral => {
            let d = doubled(text);
            assert(w == seq!['\''] + d + seq!['\'']);
            assert(w[0] == '\'');
            assert(u[j] == w[0]);
            assert(w[n - 1] == '\'');
            assert(u[j + (n - 1)] == w[n - 1]);
            assert(u.subrange(j + 1, j + 1 + d.len()) =~= d) by {
                assert forall|k: int| 0 <= k < d.len() implies u[j + 1 + k] == d[k] by {
                    assert(u[j + (k + 1)] == w[k + 1]);
                    assert(w[k + 1] == d[k]);
                }
            }
            lemma_string_read(u, j + 1, text);
        },
        TokenKind::Number => {
            let s = text + seq![' '];
            assert(w == text);
            assert(s[0] == text[0]);
            assert forall|k: int| 0 <= k < number_end(s, 0) - 0 implies #[trigger] u[j + k] == s[0 + k] by {
                assert(u[j + k] == w[k]);
                assert(s[k] == text[k]);
            }
            lemma_number_copied(s, 0, u, j);
            assert(u[j] == w[0]);
            assert(u.subrange(j, j + n) =~= text);
        },
        _ => {
            assert(fixed_text(kind) == Some(text));
            assert(w == text);
            assert(u[j] == w[0]);
            if n == 2 {
                assert(u[j + 1] == w[1]);
            }
            assert(u.subrange(j, j + n) =~= text);
        },
    }
}

/// Where a word stands written in a text, with a blank behind it, the
/// lexer finds it: the reserved word that it is, or else an identifier.
proof fn lemma_word_scanned(u: Seq<char>, j: int, text: Seq<char>)
    requires
        is_word(text),
        0 <= j,
        j + text.len() < u.len(),
        u.subrange(j, j + text.len()) == text,
        u[j + text.len()] == ' ',
    ensures
        scan(u, j) == (match keyword_of(text) {
            Some(k) => Scan::Token { kind: TokenKind::Keyword(k), text, end: j + text.len() },
            None => Scan::Token { kind: TokenKind::Identifier, text, end: j + text.len() },
        }),
        !is_ws(u[j]),
        !pair_at(u, j, '-', '-'),
        !pair_at(u, j, '/', '*'),
{
    let n = text.len() as int;
    assert forall|k: int| 0 <= k < n implies u[j + k] == #[trigger] text[k] by {
        assert(u.subrange(j, j + n)[k] == u[j + k]);
    }
    assert(u[j] == text[0]);
    assert forall|k: int| j + 1 <= k < j + n implies is_ident_part(#[trigger] u[k]) by {
        assert(u[j + (k - j)] == text[k - j]);
    }
    lemma_ident_run(u, j + 1, j + n);
    let raw = u.subrange(j, j + n);
    assert(ascii_lowercase(raw) =~= text) by {
        assert forall|k: int| 0 <= k < n implies ascii_lowercase(raw)[k] == text[k] by {
            assert(ascii_lower(text[k]) == text[k]);
        }
    }
}

/// The tokens written one after another, each as an expression shows it
/// and with a blank behind it.
pub open spec fn written(ts: Seq<TokenView>) -> Seq<char>
    decreases ts.len(),
{
    if ts.len() == 0 {
        Seq::empty()
    } else {
        shown(ts.first().kind, ts.first().text) + seq![' '] + written(ts.drop_first())
    }
}

/// Both lists hold tokens of the same kinds and texts, in the same order.
pub open spec fn same_words(a: Seq<TokenView>, b: Seq<TokenView>) -> bool {
    &&& a.len() == b.len()
    &&& forall|k: int| 0 <= k < a.len() ==> (#[trigger] a[k]).kind == b[k].kind && a[k].text == b[k].text
}

/// Behind any text, tokens that the lexer can make are read as they were
/// written.
proof fn lemma_written_read(p: Seq<char>, ts: Seq<TokenView>)
    requires
        all_read(ts),
    ensures
        lex_from(p + written(ts), p.len() as int) matches Ok(again) && same_words(again, ts),
    decreases ts.len(),
{
    let u = p + written(ts);
    let j = p.len() as int;
    if ts.len() == 0 {
        assert(u =~= p);
    } else {
        let first = ts.first();
        let rest = ts.drop_first();
        let w = shown(first.kind, first.text);
        let end = j + w.len();
        assert(can_be_read(first.kind, first.text));
        assert(u.subrange(j, end) =~= w);
        assert(u[end] == ' ');
        lemma_shown_scanned(u, j, first.kind, first.text);
        assert(skip(u, j, j, Mode::Code) == Skip::To(j));
        assert forall|k: int| 0 <= k < rest.len() implies can_be_read((#[trigger] rest[k]).kind, rest[k].text) by {
            assert(rest[k] == ts[k + 1]);
        }
        let before = p + w + seq![' '];
        assert(u =~= before + written(rest));
        lemma_written_read(before, rest);
        assert(before.len() == end + 1);
        assert(skip(u, end, end, Mode::Code) == skip(u, end + 1, end, Mode::Code));
        lemma_skip_start(u, end + 1, end, end + 1, Mode::Code);
        lemma_skip_forward(u, end + 1, end + 1, Mode::Code);
        assert(lex_from(u, end) == lex_from(u, end + 1));
        let again = lex_from(u, end + 1)->Ok_0;
        let all = seq![token_at(u, j, first.kind, first.text, end)] + again;
        assert(lex_from(u, j) == Ok::<Seq<TokenView>, crate::lexer::LexicalErrorView>(all));
        assert forall|k: int| 0 <= k < all.len() implies (#[trigger] all[k]).kind == ts[k].kind && all[k].text
            == ts[k].text by {
            if k > 0 {
                assert(all[k] == again[k - 1]);
                assert(ts[k] == rest[k - 1]);
            }
        }
    }
}

/// The tokens of a text, each written as an expression shows it and with
/// a blank behind it, are read as tokens of the same kinds and texts, in
/// the same order.
pub proof fn lemma_tokens_read_back(s: Seq<char>)
    requires
        lex(s) is Ok,
    ensures
        lex(written(lex(s)->Ok_0)) matches Ok(again) && same_words(again, lex(s)->Ok_0),
{
    lemma_lex_from_read(s, 0);
    let ts = lex(s)->Ok_0;
    lemma_written_read(Seq::empty(), ts);
    assert(Seq::<char>::empty() + written(ts) =~= written(ts));
}

/// Tokens written behind others stand behind what the others are written
/// as.
proof fn lemma_written_push(ts: Seq<TokenView>, t: TokenView)
    ensures
        written(ts.push(t)) == written(ts) + shown(t.kind, t.text) + seq![' '],
    decreases ts.len(),
{
    let all = ts.push(t);
    if ts.len() == 0 {
        assert(all.drop_first() =~= Seq::<TokenView>::empty());
        assert(written(all.drop_first()) =~= Seq::<char>::empty());
        assert(written(all) =~= written(ts) + shown(t.kind, t.text) + seq![' ']);
    } else {
        assert(all.drop_first() =~= ts.drop_first().push(t));
        assert(all.first() == ts.first());
        lemma_written_push(ts.drop_first(), t);
        assert(written(all) =~= written(ts) + shown(t.kind, t.text) + seq![' ']);
    }
}

/// The tokens written one after another, each as an expression shows it
/// and with a blank behind it.
pub fn write_tokens(tokens: &Vec<Token>) -> (r: String)
    ensures
        r@ == written(token_views(tokens@)),
{
    let mut out = String::new();
    let mut k: usize = 0;
    let ghost views = token_views(tokens@);
    proof {
        assert(views.take(0) =~= Seq::<TokenView>::empty());
    }
    while k < tokens.len()
        invariant
            k <= tokens.len(),
            views == token_views(tokens@),
            out@ == written(views.take(k as int)),
        decreases tokens.len() - k,
    {
        proof {
            lemma_written_push(views.take(k as int), views[k as int]);
            assert(views.take(k as int).push(views[k as int]) =~= views.take(k + 1));
            assert(views[k as int] == tokens[k as int]@);
        }
        push_rendered(&mut out, &tokens[k]);
        out.push(' ');
        k += 1;
    }
    proof {
        assert(views.take(k as int) =~= views);
    }
    out
}

} // verus!

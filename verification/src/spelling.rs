//! Tokens written out again: the lexemes of a scan, each followed by one
//! space, scan to the same tokens.

use vstd::prelude::*;
use vstd::string::*;
use crate::scanner::{digits, is_alpha, is_blank, is_digit, lemma_digits_fit, lemma_piece_fits};
use crate::scanner::{lemma_until_fits, lemma_word_fits, paired, piece_at};
use crate::scanner::{scan, scan_from, single, token_at, until, word, Lexeme, Piece};
use crate::token::{token_views, Token, TokenView};
use crate::types::TokenType;

verus! {

/// The lexemes of the tokens but the last, which ends the input, each with
/// one space behind it: the lexemes of all the tokens joined by single
/// spaces.
pub open spec fn spelled(tokens: Seq<TokenView>) -> Seq<char>
    decreases tokens.len(),
{
    if tokens.len() <= 1 {
        Seq::empty()
    } else {
        tokens[0].lexeme + seq![' '] + spelled(tokens.drop_first())
    }
}

/// Writes the tokens out: the lexemes of all of them, joined by single
/// spaces.
pub fn spell(tokens: &Vec<Token>) -> (res: String)
    ensures
        res@ == spelled(token_views(tokens@)),
{
    let ghost all = token_views(tokens@);
    let mut text = String::new();
    let mut i: usize = 0;
    proof {
        reveal_strlit(" ");
        assert(all.subrange(0, all.len() as int) =~= all);
        assert(" "@ =~= seq![' ']);
    }
    while i < tokens.len() && i < tokens.len() - 1
        invariant
            i <= tokens@.len(),
            all == token_views(tokens@),
            " "@ == seq![' '],
            text@ + spelled(all.subrange(i as int, all.len() as int)) == spelled(all),
        decreases tokens@.len() - i,
    {
        let ghost before = text@;
        let ghost here = all.subrange(i as int, all.len() as int);
        text.append(tokens[i].lexeme.as_str());
        text.append(" ");
        proof {
            assert(here[0] == all[i as int]);
            assert(here.drop_first() =~= all.subrange(i + 1, all.len() as int));
            assert(text@ + spelled(here.drop_first()) =~= before + spelled(here));
        }
        i += 1;
    }
    proof {
        assert(spelled(all.subrange(i as int, all.len() as int)) =~= Seq::<char>::empty());
        assert(text@ + Seq::<char>::empty() =~= text@);
    }
    text
}

/// Whether the tokens are the same but for their positions.
pub open spec fn same_words(a: Seq<TokenView>, b: Seq<TokenView>) -> bool {
    &&& a.len() == b.len()
    &&& forall|i: int|
        0 <= i < a.len() ==> a[i].token_type == b[i].token_type && a[i].lexeme == b[i].lexeme
            && a[i].literal == b[i].literal
}

/// Where the stop character stands is told by the characters in front of
/// it.
proof fn lemma_until_is(src: Seq<char>, from: int, stop: char, n: nat)
    requires
        0 <= from,
        from + n <= src.len(),
        forall|k: int| from <= k < from + n ==> src[k] != stop,
        from + n < src.len() ==> src[from + n] == stop,
    ensures
        until(src, from, stop) == n,
    decreases n,
{
    if n > 0 {
        lemma_until_is(src, from + 1, stop, (n - 1) as nat);
    }
}

proof fn lemma_digits_are(src: Seq<char>, from: int, n: nat)
    requires
        0 <= from,
        from + n <= src.len(),
        forall|k: int| from <= k < from + n ==> is_digit(src[k]),
        from + n < src.len() ==> !is_digit(src[from + n]),
    ensures
        digits(src, from) == n,
    decreases n,
{
    if n > 0 {
        lemma_digits_are(src, from + 1, (n - 1) as nat);
    }
}

proof fn lemma_word_is(src: Seq<char>, from: int, n: nat)
    requires
        0 <= from,
        from + n <= src.len(),
        forall|k: int| from <= k < from + n ==> is_alpha(src[k]) || is_digit(src[k]),
        from + n < src.len() ==> !(is_alpha(src[from + n]) || is_digit(src[from + n])),
    ensures
        word(src, from) == n,
    decreases n,
{
    if n > 0 {
        lemma_word_is(src, from + 1, (n - 1) as nat);
    }
}

/// Whether `text` holds from its start on what `src` holds from `at` on,
/// for `len` characters.
pub open spec fn holds(text: Seq<char>, src: Seq<char>, at: int, len: int) -> bool {
    &&& 0 <= at
    &&& 0 <= len
    &&& at + len <= src.len()
    &&& len <= text.len()
    &&& forall|k: int| 0 <= k < len ==> text[k] == src[at + k]
}

/// A token stays what it is when a space is put behind it, whatever stood
/// behind it before.
proof fn lemma_token_stays(src: Seq<char>, at: int, text: Seq<char>)
    requires
        0 <= at < src.len(),
        piece_at(src, at).kind is Token,
        holds(text, src, at, piece_at(src, at).len as int),
        text.len() > piece_at(src, at).len,
        text[piece_at(src, at).len as int] == ' ',
    ensures
        piece_at(text, 0) == piece_at(src, at),
        text.subrange(0, piece_at(src, at).len as int) == src.subrange(
            at,
            at + piece_at(src, at).len,
        ),
{
    let len = piece_at(src, at).len as int;
    let c = src[at];
    lemma_piece_fits(src, at);
    assert(text[0] == c);
    assert(text.subrange(0, len) =~= src.subrange(at, at + len));
    if single(c) is Some {
    } else if c == '/' && at + 1 < src.len() && src[at + 1] == '/' {
    } else if paired(c) is Some {
        if at + 1 < src.len() && src[at + 1] == '=' {
            assert(text[1] == src[at + 1]);
        }
    } else if c == '#' {
        let n = until(src, at + 2, ']') as int;
        lemma_until_fits(src, at + 2, ']');
        assert(len == n + 3);
        assert forall|k: int| 2 <= k < 2 + n implies text[k] != ']' by {
            assert(text[k] == src[at + k]);
        }
        assert(text[2 + n] == src[at + 2 + n]);
        lemma_until_is(text, 2, ']', n as nat);
        assert(text.subrange(0, n + 3) =~= src.subrange(at, at + n + 3));
    } else if is_blank(c) {
    } else if c == '"' {
        let n = until(src, at + 1, '"') as int;
        lemma_until_fits(src, at + 1, '"');
        assert(len == n + 2);
        assert forall|k: int| 1 <= k < 1 + n implies text[k] != '"' by {
            assert(text[k] == src[at + k]);
        }
        assert(text[1 + n] == src[at + 1 + n]);
        lemma_until_is(text, 1, '"', n as nat);
    } else if is_digit(c) {
        let whole = 1 + digits(src, at + 1) as int;
        lemma_digits_fit(src, at + 1);
        assert forall|k: int| 1 <= k < whole implies is_digit(text[k]) by {
            assert(text[k] == src[at + k]);
        }
        if at + whole + 1 < src.len() && src[at + whole] == '.' && is_digit(src[at + whole + 1]) {
            let part = digits(src, at + whole + 1) as int;
            lemma_digits_fit(src, at + whole + 1);
            assert(len == whole + 1 + part);
            assert(text[whole] == src[at + whole]);
            assert(text[whole + 1] == src[at + whole + 1]);
            lemma_digits_are(text, 1, (whole - 1) as nat);
            assert forall|k: int| whole + 1 <= k < whole + 1 + part implies is_digit(text[k]) by {
                assert(text[k] == src[at + k]);
            }
            lemma_digits_are(text, whole + 1, part as nat);
        } else {
            assert(len == whole);
            lemma_digits_are(text, 1, (whole - 1) as nat);
        }
    } else if is_alpha(c) {
        let n = 1 + word(src, at + 1) as int;
        lemma_word_fits(src, at + 1);
        assert(len == n);
        assert forall|k: int| 1 <= k < n implies is_alpha(text[k]) || is_digit(text[k]) by {
            assert(text[k] == src[at + k]);
        }
        lemma_word_is(text, 1, (n - 1) as nat);
        assert(text.subrange(0, n) =~= src.subrange(at, at + n));
    } else {
    }
}

/// What stands behind a place does not depend on what stands in front of
/// it.
proof fn lemma_until_shift(a: Seq<char>, b: Seq<char>, j: int, stop: char)
    requires
        0 <= j,
    ensures
        until(a + b, a.len() + j, stop) == until(b, j, stop),
    decreases b.len() - j,
{
    if j < b.len() {
        assert((a + b)[a.len() + j] == b[j]);
        if b[j] != stop {
            lemma_until_shift(a, b, j + 1, stop);
        }
    }
}

proof fn lemma_digits_shift(a: Seq<char>, b: Seq<char>, j: int)
    requires
        0 <= j,
    ensures
        digits(a + b, a.len() + j) == digits(b, j),
    decreases b.len() - j,
{
    if j < b.len() {
        assert((a + b)[a.len() + j] == b[j]);
        if is_digit(b[j]) {
            lemma_digits_shift(a, b, j + 1);
        }
    }
}

proof fn lemma_word_shift(a: Seq<char>, b: Seq<char>, j: int)
    requires
        0 <= j,
    ensures
        word(a + b, a.len() + j) == word(b, j),
    decreases b.len() - j,
{
    if j < b.len() {
        assert((a + b)[a.len() + j] == b[j]);
        if is_alpha(b[j]) || is_digit(b[j]) {
            lemma_word_shift(a, b, j + 1);
        }
    }
}

/// The piece at a place does not depend on what stands in front of the
/// place.
proof fn lemma_piece_shift(a: Seq<char>, b: Seq<char>, j: int)
    requires
        0 <= j < b.len(),
    ensures
        piece_at(a + b, a.len() + j) == piece_at(b, j),
{
    let s = a + b;
    let i = a.len() + j;
    assert(s[i] == b[j]);
    if j + 1 < b.len() {
        assert(s[i + 1] == b[j + 1]);
    }
    lemma_until_shift(a, b, j + 2, '\n');
    lemma_until_shift(a, b, j + 2, ']');
    lemma_until_shift(a, b, j + 1, '"');
    lemma_digits_shift(a, b, j + 1);
    lemma_word_shift(a, b, j + 1);
    let c = b[j];
    if c == '#' {
        let n = until(b, j + 2, ']');
        lemma_until_fits(b, j + 2, ']');
        if j + 2 + n < b.len() {
            assert(s.subrange(i, i + n + 3) =~= b.subrange(j, j + n + 3));
        }
    } else if is_digit(c) && single(c) is None && paired(c) is None {
        let whole = 1 + digits(b, j + 1);
        lemma_digits_fit(b, j + 1);
        if j + whole + 1 < b.len() {
            assert(s[i + whole] == b[j + whole]);
            assert(s[i + whole + 1] == b[j + whole + 1]);
        }
        lemma_digits_shift(a, b, j + whole + 1);
    } else if is_alpha(c) && single(c) is None && paired(c) is None {
        let n = 1 + word(b, j + 1);
        lemma_word_fits(b, j + 1);
        assert(s.subrange(i, i + n) =~= b.subrange(j, j + n));
    }
}

/// The tokens from a place on do not depend, but for their positions, on
/// what stands in front of the place; nor does the number of errors.
proof fn lemma_scan_shift(a: Seq<char>, b: Seq<char>, j: int)
    requires
        0 <= j <= b.len(),
    ensures
        same_words(scan_from(a + b, a.len() + j).tokens, scan_from(b, j).tokens),
        scan_from(a + b, a.len() + j).errors.len() == scan_from(b, j).errors.len(),
    decreases b.len() - j,
{
    let s = a + b;
    let i = a.len() + j;
    if j < b.len() {
        lemma_piece_shift(a, b, j);
        lemma_piece_fits(b, j);
        let piece = piece_at(b, j);
        lemma_scan_shift(a, b, j + piece.len);
        let rest_s = scan_from(s, i + piece.len);
        let rest_b = scan_from(b, j + piece.len);
        match piece.kind {
            Lexeme::Token(token_type) => {
                let first_s = token_at(s, i, token_type, piece.len);
                let first_b = token_at(b, j, token_type, piece.len);
                assert(s.subrange(i, i + piece.len) =~= b.subrange(j, j + piece.len));
                lemma_string_has_quotes(b, j);
                if piece.len >= 2 {
                    assert(s.subrange(i + 1, i + piece.len - 1) =~= b.subrange(
                        j + 1,
                        j + piece.len - 1,
                    ));
                }
                lemma_same_words_cons(first_s, rest_s.tokens, first_b, rest_b.tokens);
            },
            _ => {},
        }
    }
}

/// Tokens that are the same but for their positions, each put in front of
/// such tokens, make such tokens.
proof fn lemma_same_words_cons(
    first_a: TokenView,
    rest_a: Seq<TokenView>,
    first_b: TokenView,
    rest_b: Seq<TokenView>,
)
    requires
        first_a.token_type == first_b.token_type,
        first_a.lexeme == first_b.lexeme,
        first_a.literal == first_b.literal,
        same_words(rest_a, rest_b),
    ensures
        same_words(seq![first_a] + rest_a, seq![first_b] + rest_b),
{
    let a = seq![first_a] + rest_a;
    let b = seq![first_b] + rest_b;
    assert forall|i: int| 0 <= i < a.len() implies a[i].token_type == b[i].token_type
        && a[i].lexeme == b[i].lexeme && a[i].literal == b[i].literal by {
        if i > 0 {
            assert(a[i] == rest_a[i - 1]);
            assert(b[i] == rest_b[i - 1]);
        }
    }
}

proof fn lemma_same_words_chain(a: Seq<TokenView>, b: Seq<TokenView>, c: Seq<TokenView>)
    requires
        same_words(a, b),
        same_words(b, c),
    ensures
        same_words(a, c),
{
}

/// Every scan has at least the token that ends the input.
proof fn lemma_scan_is_not_empty(src: Seq<char>, from: int)
    ensures
        scan_from(src, from).tokens.len() >= 1,
    decreases src.len() - from,
{
    let piece = piece_at(src, from);
    if !(from < 0 || from >= src.len() || piece.len == 0 || from + piece.len > src.len()) {
        lemma_scan_is_not_empty(src, from + piece.len);
    }
}

/// A string token has at least its two quotes.
proof fn lemma_string_has_quotes(src: Seq<char>, at: int)
    requires
        0 <= at < src.len(),
    ensures
        piece_at(src, at).kind == Lexeme::Token(TokenType::String) ==> piece_at(src, at).len >= 2,
{
}

/// A space is a blank.
proof fn lemma_space_is_blank(text: Seq<char>, at: int)
    requires
        0 <= at < text.len(),
        text[at] == ' ',
    ensures
        piece_at(text, at) == (Piece { kind: Lexeme::Blank, len: 1 }),
{
}

/// A token written out with a space behind it, in front of a text that
/// scans without an error, scans without an error: to the token and the
/// tokens of the text.
proof fn lemma_token_respelled(
    src: Seq<char>,
    at: int,
    tail: Seq<char>,
    rest: Seq<TokenView>,
)
    requires
        0 <= at < src.len(),
        piece_at(src, at).kind is Token,
        scan(tail).errors.len() == 0,
        same_words(scan(tail).tokens, rest),
    ensures
        scan(
            src.subrange(at, at + piece_at(src, at).len) + seq![' '] + tail,
        ).errors.len() == 0,
        same_words(
            scan(src.subrange(at, at + piece_at(src, at).len) + seq![' '] + tail).tokens,
            seq![
                token_at(src, at, piece_at(src, at).kind->Token_0, piece_at(src, at).len),
            ] + rest,
        ),
{
    lemma_piece_fits(src, at);
    lemma_string_has_quotes(src, at);
    let piece = piece_at(src, at);
    let len = piece.len as int;
    let token_type = piece.kind->Token_0;
    let first = token_at(src, at, token_type, piece.len);
    let head = src.subrange(at, at + len) + seq![' '];
    let text = head + tail;
    assert(head.len() == len + 1);
    assert forall|k: int| 0 <= k < len implies text[k] == src[at + k] by {
        assert(text[k] == head[k]);
    }
    assert(text[len] == ' ') by {
        assert(text[len] == head[len]);
    }
    lemma_token_stays(src, at, text);
    let again = token_at(text, 0, token_type, piece.len);
    if len >= 2 {
        let inner_text = text.subrange(1, len - 1);
        let inner_src = src.subrange(at + 1, at + len - 1);
        assert forall|k: int| 0 <= k < inner_text.len() implies #[trigger] inner_text[k]
            == inner_src[k] by {
            assert(text[k + 1] == src[at + k + 1]);
        }
        assert(inner_text =~= inner_src);
    }
    assert(again.literal == first.literal);
    lemma_space_is_blank(text, len);
    lemma_scan_shift(head, tail, 0);
    let behind = scan_from(text, len + 1);
    assert(scan_from(text, len) == behind);
    lemma_same_words_chain(behind.tokens, scan(tail).tokens, rest);
    lemma_same_words_cons(again, behind.tokens, first, rest);
    assert(scan_from(text, 0).tokens == seq![again] + behind.tokens);
    assert(scan_from(text, 0).errors == behind.errors);
}

/// The lexemes of the tokens from a place on, each followed by a space,
/// scan without an error to the same tokens but for their positions.
proof fn lemma_respelled_from(src: Seq<char>, at: int)
    requires
        0 <= at <= src.len(),
        scan_from(src, at).errors.len() == 0,
    ensures
        scan(spelled(scan_from(src, at).tokens)).errors.len() == 0,
        same_words(scan(spelled(scan_from(src, at).tokens)).tokens, scan_from(src, at).tokens),
    decreases src.len() - at,
{
    let tokens = scan_from(src, at).tokens;
    if at >= src.len() {
        assert(spelled(tokens) =~= Seq::<char>::empty());
    } else {
        lemma_piece_fits(src, at);
        let piece = piece_at(src, at);
        let rest = scan_from(src, at + piece.len);
        lemma_scan_is_not_empty(src, at + piece.len);
        if piece.kind is Blank {
            lemma_respelled_from(src, at + piece.len);
        } else if piece.kind is Token {
            let first = token_at(src, at, piece.kind->Token_0, piece.len);
            assert(tokens == seq![first] + rest.tokens);
            assert(tokens.drop_first() =~= rest.tokens);
            lemma_respelled_from(src, at + piece.len);
            lemma_token_respelled(src, at, spelled(rest.tokens), rest.tokens);
        }
    }
}

/// Scanning what was scanned and written out again gives the same. The
/// lexemes of the tokens of a source without lexical errors, joined by
/// single spaces, scan without an error to the same tokens: the same
/// kinds, lexemes and values; the positions may differ.
pub proof fn lemma_scan_round_trip(src: Seq<char>)
    requires
        scan(src).errors.len() == 0,
    ensures
        scan(spelled(scan(src).tokens)).errors.len() == 0,
        same_words(scan(spelled(scan(src).tokens)).tokens, scan(src).tokens),
{
    lemma_respelled_from(src, 0);
}

} // verus!

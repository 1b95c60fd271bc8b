//! The scanner: from source text to tokens.
//!
//! What stands at each place of the source is given by `piece_at`: a token,
//! a blank (white space or a comment) or a lexical error, and how many
//! characters it takes up. `scan_from` strings the pieces together; the
//! scanner computes exactly that.

use vstd::prelude::*;
use vstd::string::*;
use crate::error::{error_views, ErrorView, LoxError, Position};
use crate::text::to_chars;
use crate::token::{keyword, spec_keyword, token_views, Token, TokenView};
use crate::types::{Literal, LiteralView, TokenType};

verus! {

/// The lexical errors.
#[derive(Debug, Clone, Copy, PartialEq, Eq, Structural)]
pub enum ScanFault {
    UnexpectedCharacter,
    UnterminatedString,
    UnterminatedModifier,
    UnknownModifier,
}

/// What a piece of the source is.
#[derive(Debug, Clone, Copy, PartialEq, Eq, Structural)]
pub enum Lexeme {
    Token(TokenType),
    /// White space or a comment.
    Blank,
    Bad(ScanFault),
}

/// A piece of the source: what it is and how many characters it takes up.
pub struct Piece {
    pub kind: Lexeme,
    pub len: nat,
}

impl ScanFault {
    pub open spec fn spec_message(self) -> Seq<char> {
        match self {
            ScanFault::UnexpectedCharacter => "Unexpected character."@,
            ScanFault::UnterminatedString => "Unterminated String."@,
            ScanFault::UnterminatedModifier => "Unterminated Modifier."@,
            ScanFault::UnknownModifier => "Unknown modifier"@,
        }
    }

    pub fn message(&self) -> (res: &'static str)
        ensures
            res@ == self.spec_message(),
    {
        match self {
            ScanFault::UnexpectedCharacter => "Unexpected character.",
            ScanFault::UnterminatedString => "Unterminated String.",
            ScanFault::UnterminatedModifier => "Unterminated Modifier.",
            ScanFault::UnknownModifier => "Unknown modifier",
        }
    }
}

pub open spec fn is_digit(c: char) -> bool {
    '0' <= c <= '9'
}

pub open spec fn is_alpha(c: char) -> bool {
    ('a' <= c <= 'z') || ('A' <= c <= 'Z') || c == '_'
}

pub open spec fn is_blank(c: char) -> bool {
    c == ' ' || c == '\r' || c == '\t' || c == '\n'
}

/// The token that `c` is all by itself.
pub open spec fn single(c: char) -> Option<TokenType> {
    if c == '?' {
        Some(TokenType::QuestionMark)
    } else if c == ':' {
        Some(TokenType::Colon)
    } else if c == '(' {
        Some(TokenType::LeftParen)
    } else if c == ')' {
        Some(TokenType::RightParen)
    } else if c == '{' {
        Some(TokenType::LeftBrace)
    } else if c == '}' {
        Some(TokenType::RightBrace)
    } else if c == ',' {
        Some(TokenType::Comma)
    } else if c == '.' {
        Some(TokenType::Dot)
    } else if c == ';' {
        Some(TokenType::Semicolon)
    } else {
        None
    }
}

/// The token that `c` is alone, and the token that it is with `=` behind
/// it.
pub open spec fn paired(c: char) -> Option<(TokenType, TokenType)> {
    if c == '+' {
        Some((TokenType::Plus, TokenType::PlusEqual))
    } else if c == '-' {
        Some((TokenType::Minus, TokenType::MinusEqual))
    } else if c == '*' {
        Some((TokenType::Star, TokenType::StarEqual))
    } else if c == '/' {
        Some((TokenType::Slash, TokenType::SlashEqual))
    } else if c == '%' {
        Some((TokenType::Mod, TokenType::ModEqual))
    } else if c == '!' {
        Some((TokenType::Bang, TokenType::BangEqual))
    } else if c == '=' {
        Some((TokenType::Equal, TokenType::EqualEqual))
    } else if c == '<' {
        Some((TokenType::Less, TokenType::LessEqual))
    } else if c == '>' {
        Some((TokenType::Greater, TokenType::GreaterEqual))
    } else {
        None
    }
}

/// How many characters from `from` on come before the first `stop`, or
/// before the end where there is none.
pub open spec fn until(src: Seq<char>, from: int, stop: char) -> nat
    decreases src.len() - from,
{
    if from < 0 || from >= src.len() || src[from] == stop {
        0
    } else {
        1 + until(src, from + 1, stop)
    }
}

/// How many digits stand in a row from `from` on.
pub open spec fn digits(src: Seq<char>, from: int) -> nat
    decreases src.len() - from,
{
    if from < 0 || from >= src.len() || !is_digit(src[from]) {
        0
    } else {
        1 + digits(src, from + 1)
    }
}

/// How many letters, digits and underscores stand in a row from `from` on.
pub open spec fn word(src: Seq<char>, from: int) -> nat
    decreases src.len() - from,
{
    if from < 0 || from >= src.len() || !(is_alpha(src[from]) || is_digit(src[from])) {
        0
    } else {
        1 + word(src, from + 1)
    }
}

/// The piece that begins with `#` at `i`: a modifier runs to the first `]`
/// that stands at least two characters on.
pub open spec fn modifier_at(src: Seq<char>, i: int) -> Piece {
    let n = until(src, i + 2, ']');
    if i + 2 + n < src.len() {
        match spec_keyword(src.subrange(i, i + n + 3)) {
            Some(token_type) => Piece { kind: Lexeme::Token(token_type), len: n + 3 },
            None => Piece { kind: Lexeme::Bad(ScanFault::UnknownModifier), len: n + 3 },
        }
    } else {
        Piece {
            kind: Lexeme::Bad(ScanFault::UnterminatedModifier),
            len: (src.len() - i) as nat,
        }
    }
}

/// The number that begins at `i`: digits, and then, if a dot and a digit
/// follow, the dot and the digits behind it.
pub open spec fn number_at(src: Seq<char>, i: int) -> Piece {
    let whole = 1 + digits(src, i + 1);
    if i + whole + 1 < src.len() && src[i + whole] == '.' && is_digit(src[i + whole + 1]) {
        Piece {
            kind: Lexeme::Token(TokenType::Number),
            len: whole + 1 + digits(src, i + whole + 1),
        }
    } else {
        Piece { kind: Lexeme::Token(TokenType::Number), len: whole }
    }
}

/// The piece of the source that begins at `i`. Where one character and
/// two characters both make a token, the two make the token.
pub open spec fn piece_at(src: Seq<char>, i: int) -> Piece
    recommends
        0 <= i < src.len(),
{
    let c = src[i];
    if single(c) is Some {
        Piece { kind: Lexeme::Token(single(c)->0), len: 1 }
    } else if c == '/' && i + 1 < src.len() && src[i + 1] == '/' {
        Piece { kind: Lexeme::Blank, len: 2 + until(src, i + 2, '\n') }
    } else if paired(c) is Some {
        let (alone, with_equal) = paired(c)->0;
        if i + 1 < src.len() && src[i + 1] == '=' {
            Piece { kind: Lexeme::Token(with_equal), len: 2 }
        } else {
            Piece { kind: Lexeme::Token(alone), len: 1 }
        }
    } else if c == '#' {
        modifier_at(src, i)
    } else if is_blank(c) {
        Piece { kind: Lexeme::Blank, len: 1 }
    } else if c == '"' {
        let n = until(src, i + 1, '"');
        if i + 1 + n < src.len() {
            Piece { kind: Lexeme::Token(TokenType::String), len: n + 2 }
        } else {
            Piece { kind: Lexeme::Bad(ScanFault::UnterminatedString), len: n + 1 }
        }
    } else if is_digit(c) {
        number_at(src, i)
    } else if is_alpha(c) {
        let n = 1 + word(src, i + 1);
        match spec_keyword(src.subrange(i, i + n)) {
            Some(token_type) => Piece { kind: Lexeme::Token(token_type), len: n },
            None => Piece { kind: Lexeme::Token(TokenType::Identifier), len: n },
        }
    } else {
        Piece { kind: Lexeme::Bad(ScanFault::UnexpectedCharacter), len: 1 }
    }
}

/// How many line feeds stand before `i`.
pub open spec fn newlines(src: Seq<char>, i: int) -> nat
    decreases i,
{
    if i <= 0 || i > src.len() {
        0
    } else if src[i - 1] == '\n' {
        1 + newlines(src, i - 1)
    } else {
        newlines(src, i - 1)
    }
}

/// Where the line that holds `i` begins.
pub open spec fn line_start(src: Seq<char>, i: int) -> int
    decreases i,
{
    if i <= 0 || i > src.len() {
        0
    } else if src[i - 1] == '\n' {
        i
    } else {
        line_start(src, i - 1)
    }
}

/// Line and column of the character at `i`: lines count from one, columns
/// from zero.
pub open spec fn position_of(src: Seq<char>, i: int) -> Position {
    ((1 + newlines(src, i)) as usize, (i - line_start(src, i)) as usize)
}

/// The token of kind `token_type` that takes up `len` characters from `i`
/// on. A string token holds as its value the text between the quotes; the
/// value of a number token is left open, for only floating-point
/// arithmetic can compute it.
pub open spec fn token_at(src: Seq<char>, i: int, token_type: TokenType, len: nat) -> TokenView {
    TokenView {
        token_type,
        lexeme: src.subrange(i, i + len),
        literal: if token_type == TokenType::String {
            Some(LiteralView::String(src.subrange(i + 1, i + len - 1)))
        } else {
            None
        },
        position: position_of(src, i),
    }
}

/// The token that ends every scan.
pub open spec fn eof_at(src: Seq<char>) -> TokenView {
    TokenView {
        token_type: TokenType::Eof,
        lexeme: Seq::empty(),
        literal: None,
        position: position_of(src, src.len() as int),
    }
}

pub open spec fn fault_at(src: Seq<char>, i: int, fault: ScanFault) -> ErrorView {
    ErrorView::ParseToken { position: position_of(src, i), msg: fault.spec_message() }
}

/// The tokens and the errors of a source.
pub struct Scan {
    pub tokens: Seq<TokenView>,
    pub errors: Seq<ErrorView>,
}

/// The tokens and the errors of the source from `i` on: piece after piece
/// to the end, and then the end-of-input token. (Every piece has at least
/// one character and ends within the source: `lemma_piece_fits`.)
pub open spec fn scan_from(src: Seq<char>, i: int) -> Scan
    decreases src.len() - i,
{
    let piece = piece_at(src, i);
    if i < 0 || i >= src.len() || piece.len == 0 || i + piece.len > src.len() {
        Scan { tokens: seq![eof_at(src)], errors: Seq::empty() }
    } else {
        let rest = scan_from(src, i + piece.len);
        match piece.kind {
            Lexeme::Token(token_type) => Scan {
                tokens: seq![token_at(src, i, token_type, piece.len)] + rest.tokens,
                errors: rest.errors,
            },
            Lexeme::Blank => rest,
            Lexeme::Bad(fault) => Scan {
                tokens: rest.tokens,
                errors: seq![fault_at(src, i, fault)] + rest.errors,
            },
        }
    }
}

/// The tokens and the errors of a whole source.
pub open spec fn scan(src: Seq<char>) -> Scan {
    scan_from(src, 0)
}

/// No piece is empty, and none runs past the end.
pub proof fn lemma_piece_fits(src: Seq<char>, i: int)
    requires
        0 <= i < src.len(),
    ensures
        1 <= piece_at(src, i).len <= src.len() - i,
{
    lemma_until_fits(src, i + 2, '\n');
    lemma_until_fits(src, i + 2, ']');
    lemma_until_fits(src, i + 1, '"');
    lemma_digits_fit(src, i + 1);
    lemma_digits_fit(src, i + 1 + digits(src, i + 1) + 1);
    lemma_word_fits(src, i + 1);
}

pub proof fn lemma_until_fits(src: Seq<char>, from: int, stop: char)
    requires
        0 <= from,
    ensures
        from <= src.len() ==> from + until(src, from, stop) <= src.len(),
        from + until(src, from, stop) < src.len() ==> src[from + until(src, from, stop)] == stop,
        forall|k: int| from <= k < from + until(src, from, stop) ==> src[k] != stop,
    decreases src.len() - from,
{
    if from < src.len() && src[from] != stop {
        lemma_until_fits(src, from + 1, stop);
    }
}

pub proof fn lemma_digits_fit(src: Seq<char>, from: int)
    requires
        0 <= from,
    ensures
        from <= src.len() ==> from + digits(src, from) <= src.len(),
        from + digits(src, from) < src.len() ==> !is_digit(src[from + digits(src, from)]),
        forall|k: int| from <= k < from + digits(src, from) ==> is_digit(src[k]),
    decreases src.len() - from,
{
    if from < src.len() && is_digit(src[from]) {
        lemma_digits_fit(src, from + 1);
    }
}

pub proof fn lemma_word_fits(src: Seq<char>, from: int)
    requires
        0 <= from,
    ensures
        from <= src.len() ==> from + word(src, from) <= src.len(),
        from + word(src, from) < src.len() ==> !(is_alpha(src[from + word(src, from)])
            || is_digit(src[from + word(src, from)])),
        forall|k: int|
            from <= k < from + word(src, from) ==> is_alpha(src[k]) || is_digit(src[k]),
    decreases src.len() - from,
{
    if from < src.len() && (is_alpha(src[from]) || is_digit(src[from])) {
        lemma_word_fits(src, from + 1);
    }
}

/// Lines and columns of a place depend only on the text in front of it.
pub proof fn lemma_lines_of_prefix(a: Seq<char>, b: Seq<char>, i: int)
    requires
        0 <= i <= a.len(),
        a.len() <= b.len(),
        forall|k: int| 0 <= k < a.len() ==> a[k] == b[k],
    ensures
        newlines(a, i) == newlines(b, i),
        line_start(a, i) == line_start(b, i),
    decreases i,
{
    if i > 0 {
        lemma_lines_of_prefix(a, b, i - 1);
    }
}

pub struct Scanner {
    source: String,
    chars: Vec<char>,
    tokens: Vec<Token>,
    start: usize,
    current: usize,
    line: usize,
    line_begin: usize,
}

fn digit(c: char) -> (res: bool)
    ensures
        res == is_digit(c),
{
    '0' <= c && c <= '9'
}

fn alpha(c: char) -> (res: bool)
    ensures
        res == is_alpha(c),
{
    ('a' <= c && c <= 'z') || ('A' <= c && c <= 'Z') || c == '_'
}

/// The token that `c` is all by itself.
fn single_of(c: char) -> (res: Option<TokenType>)
    ensures
        res == single(c),
{
    if c == '?' {
        Some(TokenType::QuestionMark)
    } else if c == ':' {
        Some(TokenType::Colon)
    } else if c == '(' {
        Some(TokenType::LeftParen)
    } else if c == ')' {
        Some(TokenType::RightParen)
    } else if c == '{' {
        Some(TokenType::LeftBrace)
    } else if c == '}' {
        Some(TokenType::RightBrace)
    } else if c == ',' {
        Some(TokenType::Comma)
    } else if c == '.' {
        Some(TokenType::Dot)
    } else if c == ';' {
        Some(TokenType::Semicolon)
    } else {
        None
    }
}

/// The token that `c` is alone, and the token that it is with `=` behind
/// it.
fn paired_of(c: char) -> (res: Option<(TokenType, TokenType)>)
    ensures
        res == paired(c),
{
    if c == '+' {
        Some((TokenType::Plus, TokenType::PlusEqual))
    } else if c == '-' {
        Some((TokenType::Minus, TokenType::MinusEqual))
    } else if c == '*' {
        Some((TokenType::Star, TokenType::StarEqual))
    } else if c == '/' {
        Some((TokenType::Slash, TokenType::SlashEqual))
    } else if c == '%' {
        Some((TokenType::Mod, TokenType::ModEqual))
    } else if c == '!' {
        Some((TokenType::Bang, TokenType::BangEqual))
    } else if c == '=' {
        Some((TokenType::Equal, TokenType::EqualEqual))
    } else if c == '<' {
        Some((TokenType::Less, TokenType::LessEqual))
    } else if c == '>' {
        Some((TokenType::Greater, TokenType::GreaterEqual))
    } else {
        None
    }
}

impl Scanner {
    /// The text being scanned.
    pub closed spec fn source(&self) -> Seq<char> {
        self.chars@
    }

    /// The tokens produced so far.
    pub closed spec fn produced(&self) -> Seq<TokenView> {
        token_views(self.tokens@)
    }

    /// How many characters have been scanned.
    pub closed spec fn scanned(&self) -> int {
        self.current as int
    }

    /// The scanner knows the line and the column of the place it has
    /// reached.
    pub closed spec fn wf(&self) -> bool {
        &&& self.chars@ == self.source@
        &&& self.chars@.len() < usize::MAX
        &&& self.start <= self.current <= self.chars@.len()
        &&& self.line == 1 + newlines(self.chars@, self.current as int)
        &&& self.line_begin == line_start(self.chars@, self.current as int)
        &&& self.line_begin <= self.current
        &&& self.line <= self.current + 1
    }

    pub fn new(source: String) -> (res: Self)
        requires
            source@.len() < usize::MAX,
        ensures
            res.wf(),
            res.source() == source@,
            res.scanned() == 0,
            res.produced().len() == 0,
    {
        let chars = to_chars(source.as_str());
        Scanner {
            source,
            chars,
            tokens: Vec::new(),
            start: 0,
            current: 0,
            line: 1,
            line_begin: 0,
        }
    }

    /// Adds `more` to the end of the text. What was scanned stays scanned.
    pub fn append_source(&mut self, more: String)
        requires
            old(self).wf(),
            old(self).source().len() + more@.len() < usize::MAX,
        ensures
            final(self).wf(),
            final(self).source() == old(self).source() + more@,
            final(self).scanned() == old(self).scanned(),
            final(self).produced() == old(self).produced(),
    {
        let extra = to_chars(more.as_str());
        self.source.append(more.as_str());
        let mut i: usize = 0;
        while i < extra.len()
            invariant
                i <= extra@.len(),
                extra@ == more@,
                self.source@ == old(self).source@ + more@,
                self.chars@ == old(self).chars@ + extra@.subrange(0, i as int),
                self.tokens == old(self).tokens,
                self.start == old(self).start,
                self.current == old(self).current,
                self.line == old(self).line,
                self.line_begin == old(self).line_begin,
            decreases extra@.len() - i,
        {
            self.chars.push(extra[i]);
            i += 1;
            assert(self.chars@ =~= old(self).chars@ + extra@.subrange(0, i as int));
        }
        proof {
            assert(extra@.subrange(0, extra@.len() as int) =~= extra@);
            lemma_lines_of_prefix(old(self).chars@, self.chars@, self.current as int);
        }
    }

    /// The tokens produced so far.
    pub fn tokens(&self) -> (res: &Vec<Token>)
        ensures
            token_views(res@) == self.produced(),
    {
        &self.tokens
    }

    /// Gives up the scanner for the tokens it has produced.
    pub fn into_tokens(self) -> (res: Vec<Token>)
        ensures
            token_views(res@) == self.produced(),
    {
        self.tokens
    }

    fn count_until(&self, from: usize, stop: char) -> (n: usize)
        ensures
            n == until(self.chars@, from as int, stop),
            from <= self.chars@.len() ==> from + n <= self.chars@.len(),
            from > self.chars@.len() ==> n == 0,
    {
        let len = self.chars.len();
        if from >= len {
            return 0;
        }
        let mut j: usize = from;
        while j < len && self.chars[j] != stop
            invariant
                len == self.chars@.len(),
                from <= j <= len,
                until(self.chars@, from as int, stop) == (j - from) + until(
                    self.chars@,
                    j as int,
                    stop,
                ),
            decreases len - j,
        {
            j += 1;
        }
        j - from
    }

    fn count_digits(&self, from: usize) -> (n: usize)
        ensures
            n == digits(self.chars@, from as int),
            from <= self.chars@.len() ==> from + n <= self.chars@.len(),
            from > self.chars@.len() ==> n == 0,
    {
        let len = self.chars.len();
        if from >= len {
            return 0;
        }
        let mut j: usize = from;
        while j < len && digit(self.chars[j])
            invariant
                len == self.chars@.len(),
                from <= j <= len,
                digits(self.chars@, from as int) == (j - from) + digits(self.chars@, j as int),
            decreases len - j,
        {
            j += 1;
        }
        j - from
    }

    fn count_word(&self, from: usize) -> (n: usize)
        ensures
            n == word(self.chars@, from as int),
            from <= self.chars@.len() ==> from + n <= self.chars@.len(),
            from > self.chars@.len() ==> n == 0,
    {
        let len = self.chars.len();
        if from >= len {
            return 0;
        }
        let mut j: usize = from;
        while j < len && (alpha(self.chars[j]) || digit(self.chars[j]))
            invariant
                len == self.chars@.len(),
                from <= j <= len,
                word(self.chars@, from as int) == (j - from) + word(self.chars@, j as int),
            decreases len - j,
        {
            j += 1;
        }
        j - from
    }

    /// The piece that begins at the place the scanner has reached.
    fn piece(&self) -> (res: (Lexeme, usize))
        requires
            self.wf(),
            self.scanned() < self.source().len(),
        ensures
            res.0 == piece_at(self.source(), self.scanned()).kind,
            res.1 == piece_at(self.source(), self.scanned()).len,
            1 <= res.1 <= self.source().len() - self.scanned(),
    {
        let i = self.current;
        let len = self.chars.len();
        let c = self.chars[i];
        proof {
            lemma_piece_fits(self.chars@, i as int);
        }
        if let Some(token_type) = single_of(c) {
            (Lexeme::Token(token_type), 1)
        } else if c == '/' && i + 1 < len && self.chars[i + 1] == '/' {
            (Lexeme::Blank, 2 + self.count_until(i + 2, '\n'))
        } else if let Some((alone, with_equal)) = paired_of(c) {
            if i + 1 < len && self.chars[i + 1] == '=' {
                (Lexeme::Token(with_equal), 2)
            } else {
                (Lexeme::Token(alone), 1)
            }
        } else if c == '#' {
            let n = self.count_until(i + 2, ']');
            if i + 2 + n < len {
                match keyword(self.source.as_str().substring_char(i, i + n + 3)) {
                    Some(token_type) => (Lexeme::Token(token_type), n + 3),
                    None => (Lexeme::Bad(ScanFault::UnknownModifier), n + 3),
                }
            } else {
                (Lexeme::Bad(ScanFault::UnterminatedModifier), len - i)
            }
        } else if c == ' ' || c == '\r' || c == '\t' || c == '\n' {
            (Lexeme::Blank, 1)
        } else if c == '"' {
            let n = self.count_until(i + 1, '"');
            if i + 1 + n < len {
                (Lexeme::Token(TokenType::String), n + 2)
            } else {
                (Lexeme::Bad(ScanFault::UnterminatedString), n + 1)
            }
        } else if digit(c) {
            let whole = 1 + self.count_digits(i + 1);
            if i + whole + 1 < len && self.chars[i + whole] == '.' && digit(
                self.chars[i + whole + 1],
            ) {
                (
                    Lexeme::Token(TokenType::Number),
                    whole + 1 + self.count_digits(i + whole + 1),
                )
            } else {
                (Lexeme::Token(TokenType::Number), whole)
            }
        } else if alpha(c) {
            let n = 1 + self.count_word(i + 1);
            match keyword(self.source.as_str().substring_char(i, i + n)) {
                Some(token_type) => (Lexeme::Token(token_type), n),
                None => (Lexeme::Token(TokenType::Identifier), n),
            }
        } else {
            (Lexeme::Bad(ScanFault::UnexpectedCharacter), 1)
        }
    }

    /// Line and column of the place the scanner has reached.
    fn position(&self) -> (res: Position)
        requires
            self.wf(),
        ensures
            res == position_of(self.source(), self.scanned()),
    {
        (self.line, self.current - self.line_begin)
    }

    /// Moves on by `len` characters, keeping count of the lines.
    fn pass(&mut self, len: usize)
        requires
            old(self).wf(),
            old(self).scanned() + len <= old(self).source().len(),
        ensures
            final(self).wf(),
            final(self).source() == old(self).source(),
            final(self).produced() == old(self).produced(),
            final(self).scanned() == old(self).scanned() + len,
    {
        let end = self.current + len;
        while self.current < end
            invariant
                self.wf(),
                self.source() == old(self).source(),
                self.produced() == old(self).produced(),
                self.current <= end <= self.chars@.len(),
                end == old(self).current + len,
            decreases end - self.current,
        {
            if self.chars[self.current] == '\n' {
                self.line += 1;
                self.line_begin = self.current + 1;
            }
            self.current += 1;
        }
        self.start = self.current;
    }

    /// The token of kind `token_type` that takes up the next `len`
    /// characters.
    fn token(&self, token_type: TokenType, len: usize) -> (res: Token)
        requires
            self.wf(),
            len >= 1,
            self.scanned() + len <= self.source().len(),
            token_type == TokenType::String ==> len >= 2,
        ensures
            res@ == token_at(self.source(), self.scanned(), token_type, len as nat),
    {
        let i = self.current;
        let lexeme = String::from_str(self.source.as_str().substring_char(i, i + len));
        let literal = match token_type {
            TokenType::String => Some(
                Literal::String(
                    String::from_str(self.source.as_str().substring_char(i + 1, i + len - 1)),
                ),
            ),
            _ => None,
        };
        Token::with_literal(token_type, lexeme, literal, self.position())
    }

    /// Scans the piece that begins at the place the scanner has reached: a
    /// token is added to `tokens`, a blank is passed over, a lexical error
    /// is returned. Either way the scanner moves past the piece.
    pub fn scan_token(&mut self) -> (res: Result<(), LoxError>)
        requires
            old(self).wf(),
            old(self).scanned() < old(self).source().len(),
        ensures
            final(self).wf(),
            final(self).source() == old(self).source(),
            final(self).scanned() == old(self).scanned() + piece_at(
                old(self).source(),
                old(self).scanned(),
            ).len,
            match piece_at(old(self).source(), old(self).scanned()).kind {
                Lexeme::Token(token_type) => res is Ok && final(self).produced()
                    == old(self).produced().push(
                    token_at(
                        old(self).source(),
                        old(self).scanned(),
                        token_type,
                        piece_at(old(self).source(), old(self).scanned()).len,
                    ),
                ),
                Lexeme::Blank => res is Ok && final(self).produced() == old(self).produced(),
                Lexeme::Bad(fault) => final(self).produced() == old(self).produced() && (res matches Err(
                    e,
                ) && e@ == fault_at(old(self).source(), old(self).scanned(), fault)),
            },
    {
        let (kind, len) = self.piece();
        match kind {
            Lexeme::Token(token_type) => {
                let token = self.token(token_type, len);
                self.pass(len);
                self.tokens.push(token);
                assert(self.produced() =~= old(self).produced().push(token@));
                Ok(())
            },
            Lexeme::Blank => {
                self.pass(len);
                Ok(())
            },
            Lexeme::Bad(fault) => {
                let error = LoxError::ParseTokenError {
                    position: self.position(),
                    msg: fault.message(),
                };
                self.pass(len);
                Err(error)
            },
        }
    }

    /// Scans what is left of the source. The tokens are added to `tokens`,
    /// the end-of-input token last; the lexical errors, if there are any,
    /// are returned, and scanning goes on behind each of them.
    pub fn scan_tokens(&mut self) -> (res: Result<(), Vec<LoxError>>)
        requires
            old(self).wf(),
        ensures
            final(self).wf(),
            final(self).source() == old(self).source(),
            final(self).scanned() == old(self).source().len(),
            final(self).produced() == old(self).produced() + scan_from(
                old(self).source(),
                old(self).scanned(),
            ).tokens,
            match res {
                Ok(_) => scan_from(old(self).source(), old(self).scanned()).errors.len() == 0,
                Err(errors) => errors@.len() > 0 && error_views(errors@) == scan_from(
                    old(self).source(),
                    old(self).scanned(),
                ).errors,
            },
    {
        let mut errors: Vec<LoxError> = Vec::new();
        let ghost src = self.source();
        let ghost all = scan_from(src, self.scanned());
        assert(self.produced() + all.tokens == old(self).produced()
            + all.tokens);
        assert(error_views(errors@) + all.errors =~= all.errors);
        while self.current < self.chars.len()
            invariant
                self.wf(),
                self.source() == src,
                self.produced() + scan_from(src, self.scanned()).tokens == token_views(
                    old(self).tokens@,
                ) + all.tokens,
                error_views(errors@) + scan_from(src, self.scanned()).errors == all.errors,
            decreases self.chars@.len() - self.current,
        {
            let ghost at = self.scanned();
            let ghost tokens_before = self.produced();
            let ghost errors_before = error_views(errors@);
            let ghost piece = piece_at(src, at);
            proof {
                lemma_piece_fits(src, at);
            }
            match self.scan_token() {
                Ok(_) => {
                    proof {
                        let rest = scan_from(src, at + piece.len);
                        match piece.kind {
                            Lexeme::Token(token_type) => {
                                let token = token_at(src, at, token_type, piece.len);
                                assert(tokens_before.push(token) + rest.tokens =~= tokens_before + (
                                seq![token] + rest.tokens));
                            },
                            _ => {},
                        }
                    }
                },
                Err(error) => {
                    errors.push(error);
                    proof {
                        let rest = scan_from(src, at + piece.len);
                        assert(error_views(errors@) =~= errors_before.push(error@));
                        assert(errors_before.push(error@) + rest.errors =~= errors_before + (
                        seq![error@] + rest.errors));
                    }
                },
            }
        }
        let eof = Token::new(TokenType::Eof, String::new(), self.position());
        self.tokens.push(eof);
        proof {
            assert(eof@ == eof_at(src));
            assert(scan_from(src, self.scanned()).tokens =~= seq![eof_at(src)]);
            assert(self.produced() =~= old(self).produced() + all.tokens);
            assert(error_views(errors@) =~= all.errors);
        }
        if errors.len() == 0 {
            Ok(())
        } else {
            Err(errors)
        }
    }
}

/// Whether a piece begins at `at` when the source is cut into pieces from
/// `from` on.
pub open spec fn piece_starts(src: Seq<char>, from: int, at: int) -> bool
    decreases src.len() - from,
{
    let piece = piece_at(src, from);
    if from < 0 || from >= src.len() || at < from || piece.len == 0 || from + piece.len
        > src.len() {
        false
    } else if at == from {
        true
    } else {
        piece_starts(src, from + piece.len, at)
    }
}

/// Whether the piece that begins at `at` holds the character at `k`.
pub open spec fn covers(src: Seq<char>, at: int, k: int) -> bool {
    piece_starts(src, 0, at) && at <= k < at + piece_at(src, at).len
}

/// Every character from `from` on lies in a piece.
proof fn lemma_some_piece_covers(src: Seq<char>, from: int, k: int) -> (at: int)
    requires
        0 <= from <= k < src.len(),
    ensures
        piece_starts(src, from, at),
        at <= k < at + piece_at(src, at).len,
    decreases src.len() - from,
{
    lemma_piece_fits(src, from);
    if k < from + piece_at(src, from).len {
        from
    } else {
        lemma_some_piece_covers(src, from + piece_at(src, from).len, k)
    }
}

/// No two pieces hold the same character.
proof fn lemma_one_piece_covers(src: Seq<char>, from: int, a: int, b: int, k: int)
    requires
        piece_starts(src, from, a),
        piece_starts(src, from, b),
        a <= k < a + piece_at(src, a).len,
        b <= k < b + piece_at(src, b).len,
    ensures
        a == b,
    decreases src.len() - from,
{
    let len = piece_at(src, from).len;
    if a == from && b == from {
    } else if a == from {
        lemma_starts_later(src, from + len, b);
    } else if b == from {
        lemma_starts_later(src, from + len, a);
    } else {
        lemma_one_piece_covers(src, from + len, a, b, k);
    }
}

/// A piece begins no earlier than the cutting.
proof fn lemma_starts_later(src: Seq<char>, from: int, at: int)
    requires
        piece_starts(src, from, at),
    ensures
        from <= at < src.len(),
    decreases src.len() - from,
{
    if at != from {
        lemma_starts_later(src, from + piece_at(src, from).len, at);
    }
}

/// The token of a piece is among the tokens of the scan, and the error of
/// a piece among its errors.
proof fn lemma_piece_is_scanned(src: Seq<char>, from: int, at: int)
    requires
        piece_starts(src, from, at),
    ensures
        piece_at(src, at).kind matches Lexeme::Token(token_type) ==> scan_from(
            src,
            from,
        ).tokens.contains(token_at(src, at, token_type, piece_at(src, at).len)),
        piece_at(src, at).kind is Bad ==> scan_from(src, from).errors.len() > 0,
    decreases src.len() - from,
{
    let piece = piece_at(src, from);
    let rest = scan_from(src, from + piece.len);
    if at == from {
        match piece.kind {
            Lexeme::Token(token_type) => {
                let token = token_at(src, from, token_type, piece.len);
                assert((seq![token] + rest.tokens)[0] == token);
            },
            _ => {},
        }
    } else {
        lemma_piece_is_scanned(src, from + piece.len, at);
        match piece_at(src, at).kind {
            Lexeme::Token(token_type) => {
                let token = token_at(src, at, token_type, piece_at(src, at).len);
                let i = choose|i: int| 0 <= i < rest.tokens.len() && rest.tokens[i] == token;
                match piece.kind {
                    Lexeme::Token(first_type) => {
                        let first = token_at(src, from, first_type, piece.len);
                        assert((seq![first] + rest.tokens)[i + 1] == token);
                    },
                    _ => {},
                }
            },
            _ => {},
        }
    }
}

/// Every token of a scan but the last is the token of a piece, and the
/// last is the end-of-input token.
proof fn lemma_scanned_is_piece(src: Seq<char>, from: int, i: int) -> (at: int)
    requires
        0 <= from,
        0 <= i < scan_from(src, from).tokens.len() - 1,
    ensures
        piece_starts(src, from, at),
        piece_at(src, at).kind is Token,
        scan_from(src, from).tokens[i] == token_at(
            src,
            at,
            piece_at(src, at).kind->Token_0,
            piece_at(src, at).len,
        ),
    decreases src.len() - from,
{
    let piece = piece_at(src, from);
    let rest = scan_from(src, from + piece.len);
    if from >= src.len() || piece.len == 0 || from + piece.len > src.len() {
        assert(false);
        from
    } else {
        match piece.kind {
            Lexeme::Token(token_type) => {
                if i == 0 {
                    from
                } else {
                    let token = token_at(src, from, token_type, piece.len);
                    assert((seq![token] + rest.tokens)[i] == rest.tokens[i - 1]);
                    let at = lemma_scanned_is_piece(src, from + piece.len, i - 1);
                    at
                }
            },
            _ => lemma_scanned_is_piece(src, from + piece.len, i),
        }
    }
}

/// The last token of a scan is the end-of-input token.
pub proof fn lemma_scan_ends_with_eof(src: Seq<char>, from: int)
    ensures
        scan_from(src, from).tokens.len() >= 1,
        scan_from(src, from).tokens.last() == eof_at(src),
    decreases src.len() - from,
{
    let piece = piece_at(src, from);
    if from < 0 || from >= src.len() || piece.len == 0 || from + piece.len > src.len() {
    } else {
        lemma_scan_ends_with_eof(src, from + piece.len);
        let rest = scan_from(src, from + piece.len);
        match piece.kind {
            Lexeme::Token(token_type) => {
                let token = token_at(src, from, token_type, piece.len);
                assert((seq![token] + rest.tokens).last() == rest.tokens.last());
            },
            _ => {},
        }
    }
}

/// Token coverage. In a source without lexical errors every character
/// lies in exactly one piece. The piece is a blank, that is white space or
/// a comment, or it is a token; and then the token that has the text of the
/// piece as its lexeme and the line and column of the first character of
/// the piece as its position is one of the tokens of the source.
pub proof fn lemma_token_coverage(src: Seq<char>, k: int)
    requires
        0 <= k < src.len(),
        scan(src).errors.len() == 0,
    ensures
        exists|at: int|
            #[trigger] covers(src, at, k) && (piece_at(src, at).kind is Blank || (piece_at(
                src,
                at,
            ).kind is Token && scan(src).tokens.contains(
                token_at(src, at, piece_at(src, at).kind->Token_0, piece_at(src, at).len),
            ))),
        forall|a: int, b: int| #[trigger] covers(src, a, k) && #[trigger] covers(src, b, k) ==> a == b,
{
    let at = lemma_some_piece_covers(src, 0, k);
    lemma_piece_is_scanned(src, 0, at);
    assert(covers(src, at, k));
    assert forall|a: int, b: int| #[trigger] covers(src, a, k) && #[trigger] covers(src, b, k) implies a
        == b by {
        lemma_one_piece_covers(src, 0, a, b, k);
    }
}

/// Every token of a source but the last comes from a piece of the source:
/// its lexeme is the text of the piece and its position is the line and
/// column of the first character of the piece. The last token is the
/// end-of-input token.
pub proof fn lemma_tokens_come_from_pieces(src: Seq<char>, i: int)
    requires
        0 <= i < scan(src).tokens.len(),
    ensures
        i == scan(src).tokens.len() - 1 ==> scan(src).tokens[i] == eof_at(src),
        i < scan(src).tokens.len() - 1 ==> exists|at: int|
            #[trigger] piece_starts(src, 0, at) && piece_at(src, at).kind is Token && scan(
                src,
            ).tokens[i] == token_at(
                src,
                at,
                piece_at(src, at).kind->Token_0,
                piece_at(src, at).len,
            ),
{
    lemma_scan_ends_with_eof(src, 0);
    if i < scan(src).tokens.len() - 1 {
        let at = lemma_scanned_is_piece(src, 0, i);
        assert(piece_starts(src, 0, at));
    }
}

} // verus!

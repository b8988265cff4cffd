use vstd::prelude::*;

use vstd::std_specs::iter::IteratorSpec;

use crate::value::{EnvUpdateOpKind, PfxOpKind, RelOpKind};

verus! {

#[derive(Debug, Clone, PartialEq, Eq, Ord, PartialOrd, Hash)]
#[allow(non_camel_case_types)]
pub enum TokenKind {
    EOF,
    STRING(String),
    IDENT(String),
    BOOL(bool),
    INT(isize),
    LBRACKET,
    RBRACKET,
    LPAR,
    RPAR,
    LBRACE,
    RBRACE,
    COLON,
    AND,
    OR,
    RELOP(RelOpKind),
    PFXOP(PfxOpKind),
    ENVOP(EnvUpdateOpKind),
}

/// A token kind, with `start` and `end` character offsets (end exclusive).
pub type Token = (TokenKind, usize, usize);

#[derive(Debug, Clone, PartialEq, Eq, Hash)]
pub enum LexErrorKind {
    InvalidChar(char),
    Eof,
}

/// An error kind with the span of the text that caused it.
pub type LexError = (LexErrorKind, usize, usize);

/// What a token kind denotes, with text as a sequence of characters.
pub enum TokenModel {
    Eof,
    Str(Seq<char>),
    Ident(Seq<char>),
    Bool(bool),
    Int(int),
    LBracket,
    RBracket,
    LPar,
    RPar,
    LBrace,
    RBrace,
    Colon,
    And,
    Or,
    RelOp(RelOpKind),
    PfxOp(PfxOpKind),
    EnvOp(EnvUpdateOpKind),
}

impl View for TokenKind {
    type V = TokenModel;

    open spec fn view(&self) -> TokenModel {
        match self {
            TokenKind::EOF => TokenModel::Eof,
            TokenKind::STRING(s) => TokenModel::Str(s@),
            TokenKind::IDENT(s) => TokenModel::Ident(s@),
            TokenKind::BOOL(b) => TokenModel::Bool(*b),
            TokenKind::INT(i) => TokenModel::Int(*i as int),
            TokenKind::LBRACKET => TokenModel::LBracket,
            TokenKind::RBRACKET => TokenModel::RBracket,
            TokenKind::LPAR => TokenModel::LPar,
            TokenKind::RPAR => TokenModel::RPar,
            TokenKind::LBRACE => TokenModel::LBrace,
            TokenKind::RBRACE => TokenModel::RBrace,
            TokenKind::COLON => TokenModel::Colon,
            TokenKind::AND => TokenModel::And,
            TokenKind::OR => TokenModel::Or,
            TokenKind::RELOP(k) => TokenModel::RelOp(*k),
            TokenKind::PFXOP(k) => TokenModel::PfxOp(*k),
            TokenKind::ENVOP(k) => TokenModel::EnvOp(*k),
        }
    }
}

/// A token as the model sees it: kind, start, end.
pub type TokenSpec = (TokenModel, int, int);

/// A lexical error as the model sees it: kind, start, end.
pub type LexErrorSpec = (LexErrorKind, int, int);

pub open spec fn token_view(t: Token) -> TokenSpec {
    (t.0@, t.1 as int, t.2 as int)
}

pub open spec fn tokens_view(ts: Seq<Token>) -> Seq<TokenSpec> {
    ts.map_values(|t: Token| token_view(t))
}

pub open spec fn error_view(e: LexError) -> LexErrorSpec {
    (e.0, e.1 as int, e.2 as int)
}

pub open spec fn is_digit(c: char) -> bool {
    '0' <= c && c <= '9'
}

pub open spec fn is_alpha(c: char) -> bool {
    ('a' <= c && c <= 'z') || ('A' <= c && c <= 'Z')
}

pub open spec fn is_hex(c: char) -> bool {
    is_digit(c) || ('a' <= c && c <= 'f') || ('A' <= c && c <= 'F')
}

pub open spec fn is_ident_char(c: char) -> bool {
    is_alpha(c) || is_digit(c) || c == '_' || c == '-'
}

pub open spec fn is_space(c: char) -> bool {
    c == ' ' || c == '\n' || c == '\t' || c == '\r'
}

pub open spec fn digit_val(c: char) -> int {
    c as int - '0' as int
}

pub open spec fn hex_val(c: char) -> int {
    if is_digit(c) {
        digit_val(c)
    } else if 'a' <= c && c <= 'f' {
        c as int - 'a' as int + 10
    } else {
        c as int - 'A' as int + 10
    }
}

/// `s` holds `c` at index `i`.
pub open spec fn char_at(s: Seq<char>, i: int, c: char) -> bool {
    0 <= i < s.len() && s[i] == c
}

pub open spec fn invalid_at(c: char, start: int) -> LexErrorSpec {
    (LexErrorKind::InvalidChar(c), start, start + 1)
}

pub open spec fn eof_at(start: int) -> LexErrorSpec {
    (LexErrorKind::Eof, start, start + 1)
}

/// The index of the first newline at or after `pos`, or the end of `s`.
pub open spec fn line_end(s: Seq<char>, pos: int) -> int
    decreases s.len() - pos,
{
    if pos >= s.len() || s[pos] == '\n' {
        pos
    } else {
        line_end(s, pos + 1)
    }
}

/// Where a block comment ends when scanning resumes at `pos` inside `depth`
/// open comments: just after the `*)` that closes the outermost one, or the
/// end of `s` if it never closes.
pub open spec fn comment_end(s: Seq<char>, pos: int, depth: nat) -> int
    decreases s.len() - pos,
{
    if pos >= s.len() {
        s.len() as int
    } else if s[pos] == '*' && char_at(s, pos + 1, ')') {
        if depth <= 1 {
            pos + 2
        } else {
            comment_end(s, pos + 2, (depth - 1) as nat)
        }
    } else if s[pos] == '(' && char_at(s, pos + 1, '*') {
        comment_end(s, pos + 2, depth + 1)
    } else {
        comment_end(s, pos + 1, depth)
    }
}

/// The value of the three decimal digits `s[p]`, `s[p + 1]`, `s[p + 2]`.
pub open spec fn dec3_val(s: Seq<char>, p: int) -> int {
    digit_val(s[p]) * 100 + digit_val(s[p + 1]) * 10 + digit_val(s[p + 2])
}

/// The escape sequence whose backslash stands at `p`: the character it
/// denotes and the index just after it.
pub open spec fn escape(s: Seq<char>, p: int) -> Result<(char, int), LexErrorSpec> {
    if p + 1 >= s.len() {
        Err(eof_at(p + 1))
    } else {
        let c = s[p + 1];
        if c == '\\' || c == '"' || c == '\'' {
            Ok((c, p + 2))
        } else if c == 'n' {
            Ok(('\n', p + 2))
        } else if c == 'r' {
            Ok(('\r', p + 2))
        } else if c == 't' {
            Ok(('\t', p + 2))
        } else if c == 'b' {
            Ok(('\x08', p + 2))
        } else if c == 'x' {
            if p + 3 < s.len() && is_hex(s[p + 2]) && is_hex(s[p + 3]) {
                Ok((((hex_val(s[p + 2]) * 16 + hex_val(s[p + 3])) as u8) as char, p + 4))
            } else {
                Err(invalid_at('x', p + 1))
            }
        } else if is_digit(c) {
            if p + 3 < s.len() && is_digit(s[p + 2]) && is_digit(s[p + 3]) && dec3_val(s, p + 1)
                <= 255 {
                Ok(((dec3_val(s, p + 1) as u8) as char, p + 4))
            } else {
                Err(invalid_at(c, p + 1))
            }
        } else {
            Err(invalid_at(c, p + 1))
        }
    }
}

/// The body of a `"`-delimited string whose opening quote stands at `q`,
/// scanned from `pos` with `acc` decoded so far: its decoded text and the
/// index just after the closing quote.
pub open spec fn scan_string(s: Seq<char>, pos: int, q: int, acc: Seq<char>) -> Result<
    (Seq<char>, int),
    LexErrorSpec,
>
    decreases s.len() - pos,
{
    if pos < 0 || pos >= s.len() {
        Err(eof_at(q))
    } else if s[pos] == '\\' {
        match escape(s, pos) {
            Ok((c, next)) => scan_string(s, next, q, acc.push(c)),
            Err(e) => Err(e),
        }
    } else if s[pos] == '"' {
        Ok((acc, pos + 1))
    } else {
        scan_string(s, pos + 1, q, acc.push(s[pos]))
    }
}

/// The body of a `"""`-delimited string whose opening quotes start at `q`,
/// scanned from `pos` with `acc` decoded so far. One or two quotes that are
/// not followed by a third are text.
pub open spec fn scan_triple(s: Seq<char>, pos: int, q: int, acc: Seq<char>) -> Result<
    (Seq<char>, int),
    LexErrorSpec,
>
    decreases s.len() - pos,
{
    if pos < 0 || pos >= s.len() {
        Err(eof_at(q))
    } else if s[pos] == '\\' {
        match escape(s, pos) {
            Ok((c, next)) => scan_triple(s, next, q, acc.push(c)),
            Err(e) => Err(e),
        }
    } else if s[pos] == '"' {
        if char_at(s, pos + 1, '"') && char_at(s, pos + 2, '"') {
            Ok((acc, pos + 3))
        } else if char_at(s, pos + 1, '"') {
            scan_triple(s, pos + 2, q, acc + seq!['"', '"'])
        } else {
            scan_triple(s, pos + 1, q, acc.push('"'))
        }
    } else {
        scan_triple(s, pos + 1, q, acc.push(s[pos]))
    }
}

/// `c` continues a run of digits (`digits`) or of identifier characters.
pub open spec fn in_run(c: char, digits: bool) -> bool {
    if digits {
        is_digit(c)
    } else {
        is_ident_char(c)
    }
}

/// The index just after the run of characters satisfying `in_run` that starts at `pos`.
pub open spec fn run_end(s: Seq<char>, pos: int, digits: bool) -> int
    decreases s.len() - pos,
{
    if 0 <= pos < s.len() && in_run(s[pos], digits) {
        run_end(s, pos + 1, digits)
    } else {
        pos
    }
}

/// The number that a sequence of decimal digits denotes.
pub open spec fn digits_val(ds: Seq<char>) -> int
    decreases ds.len(),
{
    if ds.len() == 0 {
        0
    } else {
        digits_val(ds.drop_last()) * 10 + digit_val(ds.last())
    }
}

/// An integer literal at `pos`, negative when `s[pos]` is `-`: the token and
/// the index after it. A literal outside the range of `isize` is refused.
pub open spec fn int_token(s: Seq<char>, pos: int) -> Result<(TokenSpec, int), LexErrorSpec> {
    let neg = s[pos] == '-';
    let first = if neg {
        pos + 1
    } else {
        pos
    };
    let end = run_end(s, first, true);
    let mag = digits_val(s.subrange(first, end));
    let v = if neg {
        -mag
    } else {
        mag
    };
    if isize::MIN <= v <= isize::MAX {
        Ok(((TokenModel::Int(v), pos, end), end))
    } else {
        Err(invalid_at(s[pos], pos))
    }
}

/// A word at `pos`: `true` and `false` are booleans, any other is an identifier.
pub open spec fn word_token(s: Seq<char>, pos: int) -> (TokenSpec, int) {
    let end = run_end(s, pos, false);
    let w = s.subrange(pos, end);
    let kind = if w == seq!['t', 'r', 'u', 'e'] {
        TokenModel::Bool(true)
    } else if w == seq!['f', 'a', 'l', 's', 'e'] {
        TokenModel::Bool(false)
    } else {
        TokenModel::Ident(w)
    };
    ((kind, pos, end), end)
}

/// The punctuation or operator at `pos`, by longest match: its kind and length.
pub open spec fn operator(s: Seq<char>, pos: int) -> Option<(TokenModel, int)> {
    let c = s[pos];
    if c == ':' {
        if char_at(s, pos + 1, '=') {
            Some((TokenModel::EnvOp(EnvUpdateOpKind::ColonEq), 2))
        } else {
            Some((TokenModel::Colon, 1))
        }
    } else if c == '{' {
        Some((TokenModel::LBrace, 1))
    } else if c == '}' {
        Some((TokenModel::RBrace, 1))
    } else if c == '[' {
        Some((TokenModel::LBracket, 1))
    } else if c == ']' {
        Some((TokenModel::RBracket, 1))
    } else if c == '(' {
        Some((TokenModel::LPar, 1))
    } else if c == ')' {
        Some((TokenModel::RPar, 1))
    } else if c == '&' {
        Some((TokenModel::And, 1))
    } else if c == '|' {
        Some((TokenModel::Or, 1))
    } else if c == '?' {
        Some((TokenModel::PfxOp(PfxOpKind::Defined), 1))
    } else if c == '~' {
        Some((TokenModel::RelOp(RelOpKind::Sem), 1))
    } else if c == '!' {
        if char_at(s, pos + 1, '=') {
            Some((TokenModel::RelOp(RelOpKind::Neq), 2))
        } else {
            Some((TokenModel::PfxOp(PfxOpKind::Not), 1))
        }
    } else if c == '>' {
        if char_at(s, pos + 1, '=') {
            Some((TokenModel::RelOp(RelOpKind::Geq), 2))
        } else {
            Some((TokenModel::RelOp(RelOpKind::Gt), 1))
        }
    } else if c == '<' {
        if char_at(s, pos + 1, '=') {
            Some((TokenModel::RelOp(RelOpKind::Leq), 2))
        } else {
            Some((TokenModel::RelOp(RelOpKind::Lt), 1))
        }
    } else if c == '=' {
        if char_at(s, pos + 1, ':') {
            Some((TokenModel::EnvOp(EnvUpdateOpKind::EqColon), 2))
        } else if char_at(s, pos + 1, '+') && char_at(s, pos + 2, '=') {
            Some((TokenModel::EnvOp(EnvUpdateOpKind::EqPlusEq), 3))
        } else if char_at(s, pos + 1, '+') {
            Some((TokenModel::EnvOp(EnvUpdateOpKind::EqPlus), 2))
        } else {
            Some((TokenModel::RelOp(RelOpKind::Eq), 1))
        }
    } else if c == '+' && char_at(s, pos + 1, '=') {
        Some((TokenModel::EnvOp(EnvUpdateOpKind::PlusEq), 2))
    } else {
        None
    }
}

/// One step of the scan at `pos < s.len()`: the token found there, if any
/// (blanks and comments give none), and the index where scanning resumes.
pub open spec fn step(s: Seq<char>, pos: int) -> Result<(Option<TokenSpec>, int), LexErrorSpec> {
    let c = s[pos];
    if is_space(c) {
        Ok((None, pos + 1))
    } else if c == '#' {
        Ok((None, line_end(s, pos + 1)))
    } else if c == '(' && char_at(s, pos + 1, '*') {
        Ok((None, comment_end(s, pos + 2, 1)))
    } else if c == '"' {
        let r = if char_at(s, pos + 1, '"') && char_at(s, pos + 2, '"') {
            scan_triple(s, pos + 3, pos, seq![])
        } else {
            scan_string(s, pos + 1, pos, seq![])
        };
        match r {
            Ok((text, end)) => Ok((Some((TokenModel::Str(text), pos, end)), end)),
            Err(e) => Err(e),
        }
    } else if is_digit(c) || (c == '-' && pos + 1 < s.len() && is_digit(s[pos + 1])) {
        match int_token(s, pos) {
            Ok((t, end)) => Ok((Some(t), end)),
            Err(e) => Err(e),
        }
    } else if is_alpha(c) {
        let (t, end) = word_token(s, pos);
        Ok((Some(t), end))
    } else {
        match operator(s, pos) {
            Some((k, n)) => Ok((Some((k, pos, pos + n)), pos + n)),
            None => Err(invalid_at(c, pos)),
        }
    }
}

/// The tokens of `s` from `pos` on, after the tokens `acc` found before it.
pub open spec fn lex_from(s: Seq<char>, pos: int, acc: Seq<TokenSpec>) -> Result<
    Seq<TokenSpec>,
    LexErrorSpec,
>
    decreases s.len() - pos,
{
    if pos < 0 || pos >= s.len() {
        Ok(acc)
    } else {
        match step(s, pos) {
            Ok((t, next)) => {
                let acc2 = match t {
                    Some(t) => acc.push(t),
                    None => acc,
                };
                // every step advances within `s`; the test states the measure
                if pos < next <= s.len() {
                    lex_from(s, next, acc2)
                } else {
                    Ok(acc2)
                }
            },
            Err(e) => Err(e),
        }
    }
}

/// The token sequence of `s`, closed by an end marker one past the last index.
pub open spec fn lex_spec(s: Seq<char>) -> Result<Seq<TokenSpec>, LexErrorSpec> {
    match lex_from(s, 0, seq![]) {
        Ok(ts) => Ok(ts.push((TokenModel::Eof, s.len() as int, s.len() as int + 1))),
        Err(e) => Err(e),
    }
}

fn is_digit_char(c: char) -> (r: bool)
    ensures
        r == is_digit(c),
{
    '0' <= c && c <= '9'
}

fn is_alpha_char(c: char) -> (r: bool)
    ensures
        r == is_alpha(c),
{
    ('a' <= c && c <= 'z') || ('A' <= c && c <= 'Z')
}

fn is_hex_char(c: char) -> (r: bool)
    ensures
        r == is_hex(c),
{
    is_digit_char(c) || ('a' <= c && c <= 'f') || ('A' <= c && c <= 'F')
}

fn hex_value(c: char) -> (r: u8)
    requires
        is_hex(c),
    ensures
        r as int == hex_val(c),
        r < 16,
{
    if is_digit_char(c) {
        (c as u32 - '0' as u32) as u8
    } else if 'a' <= c && c <= 'f' {
        (c as u32 - 'a' as u32 + 10) as u8
    } else {
        (c as u32 - 'A' as u32 + 10) as u8
    }
}

fn digit_value(c: char) -> (r: u32)
    requires
        is_digit(c),
    ensures
        r as int == digit_val(c),
        r < 10,
{
    c as u32 - '0' as u32
}

/// The character of the escape sequence whose backslash stands at `pos`, and
/// the index just after the sequence.
fn escape_char(input: &[char], pos: usize) -> (r: Result<(char, usize), LexError>)
    requires
        pos < input@.len(),
        input@.len() < usize::MAX,
    ensures
        match (r, escape(input@, pos as int)) {
            (Ok((c, n)), Ok((sc, sn))) => c == sc && n == sn && pos < n <= input@.len(),
            (Err(e), Err(se)) => error_view(e) == se,
            _ => false,
        },
{
    let len = input.len();
    if pos + 1 >= len {
        return Err((LexErrorKind::Eof, pos + 1, pos + 2));
    }
    let c = input[pos + 1];
    if c == '\\' || c == '"' || c == '\'' {
        Ok((c, pos + 2))
    } else if c == 'n' {
        Ok(('\n', pos + 2))
    } else if c == 'r' {
        Ok(('\r', pos + 2))
    } else if c == 't' {
        Ok(('\t', pos + 2))
    } else if c == 'b' {
        Ok(('\x08', pos + 2))
    } else if c == 'x' {
        if pos + 3 < len && is_hex_char(input[pos + 2]) && is_hex_char(input[pos + 3]) {
            let b = hex_value(input[pos + 2]) * 16 + hex_value(input[pos + 3]);
            Ok((b as char, pos + 4))
        } else {
            Err((LexErrorKind::InvalidChar('x'), pos + 1, pos + 2))
        }
    } else if is_digit_char(c) {
        if pos + 3 < len && is_digit_char(input[pos + 2]) && is_digit_char(input[pos + 3]) {
            let v = digit_value(c) * 100 + digit_value(input[pos + 2]) * 10 + digit_value(
                input[pos + 3],
            );
            if v <= 255 {
                Ok(((v as u8) as char, pos + 4))
            } else {
                Err((LexErrorKind::InvalidChar(c), pos + 1, pos + 2))
            }
        } else {
            Err((LexErrorKind::InvalidChar(c), pos + 1, pos + 2))
        }
    } else {
        Err((LexErrorKind::InvalidChar(c), pos + 1, pos + 2))
    }
}

/// Relies on `String`'s `FromIterator<char>`: the string holds the characters in order.
#[verifier::external_body]
pub(crate) fn string_of_chars(cs: &Vec<char>) -> (r: String)
    ensures
        r@ == cs@,
{
    cs.iter().collect()
}

/// Decodes the escape sequence whose backslash stands at `pos`: the text it
/// denotes and the index just after it.
pub fn lex_escape(input: &[char], pos: usize) -> (r: Result<(String, usize), LexError>)
    requires
        pos < input@.len(),
        input@.len() < usize::MAX,
    ensures
        match (r, escape(input@, pos as int)) {
            (Ok((t, n)), Ok((sc, sn))) => t@ == seq![sc] && n == sn,
            (Err(e), Err(se)) => error_view(e) == se,
            _ => false,
        },
{
    match escape_char(input, pos) {
        Ok((c, n)) => {
            let v = vec![c];
            Ok((string_of_chars(&v), n))
        },
        Err(e) => Err(e),
    }
}

fn skip_line(input: &[char], pos: usize) -> (r: usize)
    requires
        pos <= input@.len(),
    ensures
        r == line_end(input@, pos as int),
        pos <= r <= input@.len(),
{
    let mut p = pos;
    while p < input.len() && input[p] != '\n'
        invariant
            pos <= p <= input@.len(),
            line_end(input@, p as int) == line_end(input@, pos as int),
        decreases input@.len() - p,
    {
        p += 1;
    }
    p
}

fn skip_comment(input: &[char], pos: usize) -> (r: usize)
    requires
        pos <= input@.len(),
        input@.len() < usize::MAX,
    ensures
        r == comment_end(input@, pos as int, 1),
        pos <= r <= input@.len(),
{
    let mut p = pos;
    let mut depth: usize = 1;
    while p < input.len()
        invariant
            pos <= p <= input@.len(),
            input@.len() < usize::MAX,
            1 <= depth <= p + 1,
            comment_end(input@, p as int, depth as nat) == comment_end(input@, pos as int, 1),
        decreases input@.len() - p,
    {
        if input[p] == '*' && p + 1 < input.len() && input[p + 1] == ')' {
            if depth <= 1 {
                return p + 2;
            }
            depth -= 1;
            p += 2;
        } else if input[p] == '(' && p + 1 < input.len() && input[p + 1] == '*' {
            depth += 1;
            p += 2;
        } else {
            p += 1;
        }
    }
    p
}

fn lex_string_body(input: &[char], pos: usize, q: usize) -> (r: Result<(Vec<char>, usize), LexError>)
    requires
        q < pos <= input@.len(),
        input@.len() < usize::MAX,
    ensures
        match (r, scan_string(input@, pos as int, q as int, seq![])) {
            (Ok((t, n)), Ok((st, sn))) => t@ == st && n == sn && pos < n <= input@.len(),
            (Err(e), Err(se)) => error_view(e) == se,
            _ => false,
        },
{
    let mut acc: Vec<char> = Vec::new();
    let mut p = pos;
    loop
        invariant
            q < pos <= p <= input@.len(),
            input@.len() < usize::MAX,
            scan_string(input@, p as int, q as int, acc@) == scan_string(
                input@,
                pos as int,
                q as int,
                seq![],
            ),
        decreases input@.len() - p,
    {
        if p >= input.len() {
            return Err((LexErrorKind::Eof, q, q + 1));
        }
        let c = input[p];
        if c == '\\' {
            match escape_char(input, p) {
                Ok((e, n)) => {
                    acc.push(e);
                    p = n;
                },
                Err(e) => {
                    return Err(e);
                },
            }
        } else if c == '"' {
            return Ok((acc, p + 1));
        } else {
            acc.push(c);
            p += 1;
        }
    }
}

fn lex_triple_body(input: &[char], pos: usize, q: usize) -> (r: Result<(Vec<char>, usize), LexError>)
    requires
        q < pos <= input@.len(),
        input@.len() < usize::MAX,
    ensures
        match (r, scan_triple(input@, pos as int, q as int, seq![])) {
            (Ok((t, n)), Ok((st, sn))) => t@ == st && n == sn && pos < n <= input@.len(),
            (Err(e), Err(se)) => error_view(e) == se,
            _ => false,
        },
{
    let mut acc: Vec<char> = Vec::new();
    let mut p = pos;
    loop
        invariant
            q < pos <= p <= input@.len(),
            input@.len() < usize::MAX,
            scan_triple(input@, p as int, q as int, acc@) == scan_triple(
                input@,
                pos as int,
                q as int,
                seq![],
            ),
        decreases input@.len() - p,
    {
        if p >= input.len() {
            return Err((LexErrorKind::Eof, q, q + 1));
        }
        let c = input[p];
        if c == '\\' {
            match escape_char(input, p) {
                Ok((e, n)) => {
                    acc.push(e);
                    p = n;
                },
                Err(e) => {
                    return Err(e);
                },
            }
        } else if c == '"' {
            let two = p + 1 < input.len() && input[p + 1] == '"';
            if two && p + 2 < input.len() && input[p + 2] == '"' {
                return Ok((acc, p + 3));
            } else if two {
                proof {
                    assert(acc@.push('"').push('"') =~= acc@ + seq!['"', '"']);
                }
                acc.push('"');
                acc.push('"');
                p += 2;
            } else {
                acc.push('"');
                p += 1;
            }
        } else {
            acc.push(c);
            p += 1;
        }
    }
}

fn is_ident_char_exec(c: char) -> (r: bool)
    ensures
        r == is_ident_char(c),
{
    is_alpha_char(c) || is_digit_char(c) || c == '_' || c == '-'
}

fn in_run_exec(c: char, digits: bool) -> (r: bool)
    ensures
        r == in_run(c, digits),
{
    if digits {
        is_digit_char(c)
    } else {
        is_ident_char_exec(c)
    }
}

fn scan_run(input: &[char], pos: usize, digits: bool) -> (r: usize)
    requires
        pos <= input@.len(),
    ensures
        r == run_end(input@, pos as int, digits),
        pos <= r <= input@.len(),
        forall|k: int|
            pos <= k < r ==> in_run(input@[k], digits),
        r < input@.len() ==> !in_run(input@[r as int], digits),
{
    let mut p = pos;
    while p < input.len() && in_run_exec(input[p], digits)
        invariant
            pos <= p <= input@.len(),
            run_end(input@, p as int, digits) == run_end(input@, pos as int, digits),
            forall|k: int|
                pos <= k < p ==> in_run(input@[k], digits),
        decreases input@.len() - p,
    {
        p += 1;
    }
    p
}

proof fn lemma_digits_val_nonneg(ds: Seq<char>)
    requires
        forall|k: int| 0 <= k < ds.len() ==> is_digit(ds[k]),
    ensures
        digits_val(ds) >= 0,
    decreases ds.len(),
{
    if ds.len() > 0 {
        lemma_digits_val_nonneg(ds.drop_last());
    }
}

/// A longer run of digits never denotes a smaller number.
proof fn lemma_digits_val_grows(s: Seq<char>, first: int, i: int, j: int)
    requires
        0 <= first <= i <= j <= s.len(),
        forall|k: int| first <= k < j ==> is_digit(s[k]),
    ensures
        digits_val(s.subrange(first, i)) <= digits_val(s.subrange(first, j)),
    decreases j - i,
{
    if i < j {
        lemma_digits_val_grows(s, first, i, j - 1);
        let d = s.subrange(first, j);
        assert(d.drop_last() =~= s.subrange(first, j - 1));
        lemma_digits_val_nonneg(d.drop_last());
    }
}

fn lex_int(input: &[char], pos: usize) -> (r: Result<(Token, usize), LexError>)
    requires
        pos < input@.len(),
        input@.len() < usize::MAX,
        is_digit(input@[pos as int]) || (input@[pos as int] == '-' && pos + 1 < input@.len()
            && is_digit(input@[pos + 1])),
    ensures
        match (r, int_token(input@, pos as int)) {
            (Ok((t, n)), Ok((st, sn))) => token_view(t) == st && n == sn && pos < n
                <= input@.len(),
            (Err(e), Err(se)) => error_view(e) == se,
            _ => false,
        },
{
    let neg = input[pos] == '-';
    let first = if neg {
        pos + 1
    } else {
        pos
    };
    let end = scan_run(input, first, true);
    let ghost s = input@;
    // one more than the largest magnitude of a non-negative `isize`
    let limit: u128 = isize::MAX as u128 + 1;
    let mut mag: u128 = 0;
    let mut i = first;
    while i < end
        invariant
            pos <= first <= i <= end <= input@.len(),
            pos < input@.len(),
            s == input@,
            limit == isize::MAX + 1,
            end == run_end(s, first as int, true),
            neg == (s[pos as int] == '-'),
            first == if neg {
                pos + 1
            } else {
                pos as int
            },
            forall|k: int| first <= k < end ==> is_digit(s[k]),
            mag as int == digits_val(s.subrange(first as int, i as int)),
            mag <= limit,
        decreases end - i,
    {
        let d = digit_value(input[i]);
        let next: u128 = mag * 10 + d as u128;
        proof {
            assert(s.subrange(first as int, i + 1).drop_last() =~= s.subrange(
                first as int,
                i as int,
            ));
        }
        if next > limit {
            proof {
                let ds = s.subrange(first as int, i + 1);
                assert(ds.last() == s[i as int]);
                assert(digits_val(ds) == next);
                lemma_digits_val_grows(s, first as int, i + 1, end as int);
                assert(isize::MIN == -isize::MAX - 1);
            }
            return Err((LexErrorKind::InvalidChar(input[pos]), pos, pos + 1));
        }
        mag = next;
        i += 1;
    }
    if neg {
        let v: isize = if mag == limit {
            isize::MIN
        } else {
            -(mag as isize)
        };
        Ok(((TokenKind::INT(v), pos, end), end))
    } else if mag < limit {
        Ok(((TokenKind::INT(mag as isize), pos, end), end))
    } else {
        Err((LexErrorKind::InvalidChar(input[pos]), pos, pos + 1))
    }
}

fn lex_word(input: &[char], pos: usize) -> (r: (Token, usize))
    requires
        pos < input@.len(),
        is_alpha(input@[pos as int]),
    ensures
        token_view(r.0) == word_token(input@, pos as int).0,
        r.1 == word_token(input@, pos as int).1,
        pos < r.1 <= input@.len(),
{
    let end = scan_run(input, pos, false);
    let mut w: Vec<char> = Vec::new();
    let mut i = pos;
    while i < end
        invariant
            pos <= i <= end <= input@.len(),
            w@ == input@.subrange(pos as int, i as int),
        decreases end - i,
    {
        proof {
            assert(input@.subrange(pos as int, i + 1) =~= w@.push(input@[i as int]));
        }
        w.push(input[i]);
        i += 1;
    }
    let ghost ws = input@.subrange(pos as int, end as int);
    let is_true = end - pos == 4 && w[0] == 't' && w[1] == 'r' && w[2] == 'u' && w[3] == 'e';
    let is_false = end - pos == 5 && w[0] == 'f' && w[1] == 'a' && w[2] == 'l' && w[3] == 's'
        && w[4] == 'e';
    assert(is_true <==> ws =~= seq!['t', 'r', 'u', 'e']);
    assert(is_false <==> ws =~= seq!['f', 'a', 'l', 's', 'e']);
    let kind = if is_true {
        TokenKind::BOOL(true)
    } else if is_false {
        TokenKind::BOOL(false)
    } else {
        TokenKind::IDENT(string_of_chars(&w))
    };
    ((kind, pos, end), end)
}

fn next_is(input: &[char], i: usize, c: char) -> (r: bool)
    ensures
        r == char_at(input@, i as int, c),
{
    i < input.len() && input[i] == c
}

fn lex_operator(input: &[char], pos: usize) -> (r: Option<(TokenKind, usize)>)
    requires
        pos < input@.len(),
        input@.len() < usize::MAX,
    ensures
        match (r, operator(input@, pos as int)) {
            (Some((k, n)), Some((sk, sn))) => k@ == sk && n == sn,
            (None, None) => true,
            _ => false,
        },
{
    let c = input[pos];
    if c == ':' {
        if next_is(input, pos + 1, '=') {
            Some((TokenKind::ENVOP(EnvUpdateOpKind::ColonEq), 2))
        } else {
            Some((TokenKind::COLON, 1))
        }
    } else if c == '{' {
        Some((TokenKind::LBRACE, 1))
    } else if c == '}' {
        Some((TokenKind::RBRACE, 1))
    } else if c == '[' {
        Some((TokenKind::LBRACKET, 1))
    } else if c == ']' {
        Some((TokenKind::RBRACKET, 1))
    } else if c == '(' {
        Some((TokenKind::LPAR, 1))
    } else if c == ')' {
        Some((TokenKind::RPAR, 1))
    } else if c == '&' {
        Some((TokenKind::AND, 1))
    } else if c == '|' {
        Some((TokenKind::OR, 1))
    } else if c == '?' {
        Some((TokenKind::PFXOP(PfxOpKind::Defined), 1))
    } else if c == '~' {
        Some((TokenKind::RELOP(RelOpKind::Sem), 1))
    } else if c == '!' {
        if next_is(input, pos + 1, '=') {
            Some((TokenKind::RELOP(RelOpKind::Neq), 2))
        } else {
            Some((TokenKind::PFXOP(PfxOpKind::Not), 1))
        }
    } else if c == '>' {
        if next_is(input, pos + 1, '=') {
            Some((TokenKind::RELOP(RelOpKind::Geq), 2))
        } else {
            Some((TokenKind::RELOP(RelOpKind::Gt), 1))
        }
    } else if c == '<' {
        if next_is(input, pos + 1, '=') {
            Some((TokenKind::RELOP(RelOpKind::Leq), 2))
        } else {
            Some((TokenKind::RELOP(RelOpKind::Lt), 1))
        }
    } else if c == '=' {
        if next_is(input, pos + 1, ':') {
            Some((TokenKind::ENVOP(EnvUpdateOpKind::EqColon), 2))
        } else if next_is(input, pos + 1, '+') && pos + 2 < input.len() && input[pos + 2] == '=' {
            Some((TokenKind::ENVOP(EnvUpdateOpKind::EqPlusEq), 3))
        } else if next_is(input, pos + 1, '+') {
            Some((TokenKind::ENVOP(EnvUpdateOpKind::EqPlus), 2))
        } else {
            Some((TokenKind::RELOP(RelOpKind::Eq), 1))
        }
    } else if c == '+' && next_is(input, pos + 1, '=') {
        Some((TokenKind::ENVOP(EnvUpdateOpKind::PlusEq), 2))
    } else {
        None
    }
}

pub open spec fn opt_token_view(t: Option<Token>) -> Option<TokenSpec> {
    match t {
        Some(t) => Some(token_view(t)),
        None => None,
    }
}

fn lex_step(input: &[char], pos: usize) -> (r: Result<(Option<Token>, usize), LexError>)
    requires
        pos < input@.len(),
        input@.len() < usize::MAX,
    ensures
        match (r, step(input@, pos as int)) {
            (Ok((t, n)), Ok((st, sn))) => opt_token_view(t) == st && n == sn && pos < n
                <= input@.len(),
            (Err(e), Err(se)) => error_view(e) == se,
            _ => false,
        },
{
    let c = input[pos];
    if c == ' ' || c == '\n' || c == '\t' || c == '\r' {
        Ok((None, pos + 1))
    } else if c == '#' {
        Ok((None, skip_line(input, pos + 1)))
    } else if c == '(' && next_is(input, pos + 1, '*') {
        Ok((None, skip_comment(input, pos + 2)))
    } else if c == '"' {
        let r = if next_is(input, pos + 1, '"') && next_is(input, pos + 2, '"') {
            lex_triple_body(input, pos + 3, pos)
        } else {
            lex_string_body(input, pos + 1, pos)
        };
        match r {
            Ok((text, end)) => Ok((Some((TokenKind::STRING(string_of_chars(&text)), pos, end)), end)),
            Err(e) => Err(e),
        }
    } else if is_digit_char(c) || (c == '-' && pos + 1 < input.len() && is_digit_char(
        input[pos + 1],
    )) {
        match lex_int(input, pos) {
            Ok((t, end)) => Ok((Some(t), end)),
            Err(e) => Err(e),
        }
    } else if is_alpha_char(c) {
        let (t, end) = lex_word(input, pos);
        Ok((Some(t), end))
    } else {
        match lex_operator(input, pos) {
            Some((k, n)) => Ok((Some((k, pos, pos + n)), pos + n)),
            None => Err((LexErrorKind::InvalidChar(c), pos, pos + 1)),
        }
    }
}

/// The tokens of a sequence of characters, closed by an end marker.
pub fn lex_chars(input: &[char]) -> (r: Result<Vec<Token>, LexError>)
    requires
        input@.len() < usize::MAX,
    ensures
        match (r, lex_spec(input@)) {
            (Ok(ts), Ok(sts)) => tokens_view(ts@) == sts,
            (Err(e), Err(se)) => error_view(e) == se,
            _ => false,
        },
{
    let mut tokens: Vec<Token> = Vec::new();
    let mut pos: usize = 0;
    assert(tokens_view(tokens@) =~= seq![]);
    while pos < input.len()
        invariant
            pos <= input@.len() < usize::MAX,
            lex_from(input@, pos as int, tokens_view(tokens@)) == lex_from(input@, 0, seq![]),
        decreases input@.len() - pos,
    {
        match lex_step(input, pos) {
            Ok((t, next)) => {
                match t {
                    Some(t) => {
                        let ghost before = tokens@;
                        tokens.push(t);
                        proof {
                            assert(tokens_view(tokens@) =~= tokens_view(before).push(
                                token_view(t),
                            ));
                        }
                    },
                    None => {},
                }
                pos = next;
            },
            Err(e) => {
                return Err(e);
            },
        }
    }
    let ghost before = tokens@;
    let n = input.len();
    tokens.push((TokenKind::EOF, n, n + 1));
    proof {
        assert(tokens_view(tokens@) =~= tokens_view(before).push(
            (TokenModel::Eof, n as int, n + 1),
        ));
    }
    Ok(tokens)
}

/// The characters of `input`, in order.
pub(crate) fn chars_of(input: &str) -> (r: Vec<char>)
    ensures
        r@ == input@,
{
    broadcast use vstd::string::axiom_spec_iter, vstd::string::next_postcondition;

    let mut it = input.chars();
    let mut out: Vec<char> = Vec::new();
    loop
        invariant
            it.obeys_prophetic_iter_laws(),
            out@ + it.remaining() == input@,
            it.decrease() is Some,
        decreases it.decrease()->0,
    {
        match it.next() {
            Some(c) => {
                proof {
                    assert(out@.push(c) + it.remaining() =~= input@);
                }
                out.push(c);
            },
            None => {
                assert(out@ =~= input@);
                return out;
            },
        }
    }
}

/// Splits `input` into tokens, closed by an end marker at one past the last
/// character. Offsets count characters, not bytes.
pub fn lex(input: &str) -> (r: Result<Vec<Token>, LexError>)
    requires
        input@.len() < usize::MAX,
    ensures
        match (r, lex_spec(input@)) {
            (Ok(ts), Ok(sts)) => tokens_view(ts@) == sts,
            (Err(e), Err(se)) => error_view(e) == se,
            _ => false,
        },
{
    let cs = chars_of(input);
    lex_chars(cs.as_slice())
}

/// The boolean of a `BOOL` token.
pub fn get_value_bool(kind: TokenKind) -> (r: Option<bool>)
    ensures
        r == match kind {
            TokenKind::BOOL(b) => Some(b),
            _ => None,
        },
{
    match kind {
        TokenKind::BOOL(b) => Some(b),
        _ => None,
    }
}

/// The text of a `STRING` or `IDENT` token.
pub fn get_value_string(kind: TokenKind) -> (r: Option<String>)
    ensures
        r == match kind {
            TokenKind::STRING(s) => Some(s),
            TokenKind::IDENT(s) => Some(s),
            _ => None,
        },
{
    match kind {
        TokenKind::STRING(s) => Some(s),
        TokenKind::IDENT(s) => Some(s),
        _ => None,
    }
}

/// The integer of an `INT` token.
pub fn get_value_isize(kind: TokenKind) -> (r: Option<isize>)
    ensures
        r == match kind {
            TokenKind::INT(i) => Some(i),
            _ => None,
        },
{
    match kind {
        TokenKind::INT(i) => Some(i),
        _ => None,
    }
}

/// The operator of a `PFXOP` token.
pub fn get_value_pfxop(kind: TokenKind) -> (r: Option<PfxOpKind>)
    ensures
        r == match kind {
            TokenKind::PFXOP(p) => Some(p),
            _ => None,
        },
{
    match kind {
        TokenKind::PFXOP(p) => Some(p),
        _ => None,
    }
}

/// The operator of a `RELOP` token.
pub fn get_value_relop(kind: TokenKind) -> (r: Option<RelOpKind>)
    ensures
        r == match kind {
            TokenKind::RELOP(k) => Some(k),
            _ => None,
        },
{
    match kind {
        TokenKind::RELOP(k) => Some(k),
        _ => None,
    }
}

/// The operator of an `ENVOP` token.
pub fn get_value_env(kind: TokenKind) -> (r: Option<EnvUpdateOpKind>)
    ensures
        r == match kind {
            TokenKind::ENVOP(e) => Some(e),
            _ => None,
        },
{
    match kind {
        TokenKind::ENVOP(e) => Some(e),
        _ => None,
    }
}

/// `s` holds no `*)` that starts at or after `pos`.
pub open spec fn no_comment_close_from(s: Seq<char>, pos: int) -> bool {
    forall|k: int| pos <= k < s.len() - 1 ==> !(#[trigger] s[k] == '*' && s[k + 1] == ')')
}

proof fn lemma_comment_runs_to_end(s: Seq<char>, pos: int, depth: nat)
    requires
        0 <= pos,
        no_comment_close_from(s, pos),
    ensures
        comment_end(s, pos, depth) == s.len(),
    decreases s.len() - pos,
{
    if pos < s.len() {
        if s[pos] == '(' && char_at(s, pos + 1, '*') {
            lemma_comment_runs_to_end(s, pos + 2, depth + 1);
        } else {
            lemma_comment_runs_to_end(s, pos + 1, depth);
        }
    }
}

/// A block comment that is never closed, however deeply it nests, swallows
/// the rest of the input without error: only the end marker remains.
pub proof fn unclosed_comment_is_swallowed(s: Seq<char>)
    requires
        s.len() >= 2,
        s[0] == '(',
        s[1] == '*',
        no_comment_close_from(s, 2),
    ensures
        lex_spec(s) == Ok::<Seq<TokenSpec>, LexErrorSpec>(
            seq![(TokenModel::Eof, s.len() as int, s.len() as int + 1)],
        ),
{
    lemma_comment_runs_to_end(s, 2, 1);
    assert(step(s, 0) == Ok::<(Option<TokenSpec>, int), LexErrorSpec>((None, s.len() as int)));
    assert(lex_from(s, s.len() as int, seq![]) == Ok::<Seq<TokenSpec>, LexErrorSpec>(seq![]));
}

proof fn lemma_string_runs_to_end(s: Seq<char>, pos: int, q: int, acc: Seq<char>)
    requires
        0 <= pos,
        forall|k: int| pos <= k < s.len() ==> s[k] != '"' && s[k] != '\\',
    ensures
        scan_string(s, pos, q, acc) == Err::<(Seq<char>, int), LexErrorSpec>(eof_at(q)),
    decreases s.len() - pos,
{
    if pos < s.len() {
        lemma_string_runs_to_end(s, pos + 1, q, acc.push(s[pos]));
    }
}

/// A string literal that is never closed is an end-of-input error at its
/// opening quote.
pub proof fn unterminated_string_is_eof(s: Seq<char>)
    requires
        s.len() >= 1,
        s[0] == '"',
        forall|k: int| 1 <= k < s.len() ==> s[k] != '"' && s[k] != '\\',
    ensures
        lex_spec(s) == Err::<Seq<TokenSpec>, LexErrorSpec>((LexErrorKind::Eof, 0, 1)),
{
    lemma_string_runs_to_end(s, 1, 0, seq![]);
    assert(!char_at(s, 1, '"'));
}

/// Operators match longest first: `=+=` is one token, never `=+` then `=`.
pub proof fn eq_plus_eq_is_one_token(s: Seq<char>, pos: int)
    requires
        0 <= pos,
        pos + 3 <= s.len(),
        s[pos] == '=',
        s[pos + 1] == '+',
        s[pos + 2] == '=',
    ensures
        step(s, pos) == Ok::<(Option<TokenSpec>, int), LexErrorSpec>(
            (Some((TokenModel::EnvOp(EnvUpdateOpKind::EqPlusEq), pos, pos + 3)), pos + 3),
        ),
{
}

} // verus!

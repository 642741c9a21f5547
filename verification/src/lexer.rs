//! Lexical analysis: turning raw schema source text into discrete tokens with
//! position spans.
//!
//! The scanner works on demand: `next_token` skips leading whitespace and
//! comments (iteratively, so a long run of comments costs no stack), then
//! produces the next token. Lexical faults are reported through an explicit
//! error result, never disguised as a token.

use vstd::prelude::*;
use vstd::string::{StrSliceExecFns, StringExecFns};
use crate::error::SchemaError;

verus! {

/// The kinds of token that can appear in schema source text.
#[derive(Debug, Clone, PartialEq)]
pub enum TokenType {
    /// The `plugin` keyword.
    Plugin,
    /// The `use` keyword.
    Use,
    /// The `prop` keyword.
    Prop,
    /// The `enum` keyword.
    Enum,
    /// The `type` keyword.
    Type,
    /// The `model` keyword.
    Model,
    /// A name that is not a reserved word.
    Identifier(String),
    /// A string literal; the payload is the raw text between the quotes.
    Text(String),
    /// A numeric literal; the payload is its decimal source text.
    Number(String),
    /// The `true` or `false` keyword.
    Boolean(bool),
    /// The `null` keyword.
    Null,
    /// `{`
    LeftBrace,
    /// `}`
    RightBrace,
    /// `[`
    LeftBracket,
    /// `]`
    RightBracket,
    /// `(`
    LeftParen,
    /// `)`
    RightParen,
    /// `@`
    At,
    /// `.`
    Dot,
    /// `?`
    Question,
    /// `!`
    Exclamation,
    /// End of input.
    Eof,
}

/// A token with its half-open `[start, end)` character-offset span.
#[derive(Debug, Clone)]
pub struct Token {
    pub token_type: TokenType,
    pub start: usize,
    pub end: usize,
}

impl Token {
    /// Create a token with its span.
    pub fn new(token_type: TokenType, start: usize, end: usize) -> (t: Token)
        ensures
            t.token_type == token_type,
            t.start == start,
            t.end == end,
    {
        Token { token_type, start, end }
    }
}

/// Whitespace between tokens.
pub open spec fn is_space_char(c: char) -> bool {
    c == ' ' || c == '\r' || c == '\t' || c == '\n'
}

/// An ASCII decimal digit.
pub open spec fn is_digit_char(c: char) -> bool {
    '0' <= c && c <= '9'
}

/// A character an identifier may start with: `[A-Za-z_]`.
pub open spec fn is_ident_start_char(c: char) -> bool {
    ('a' <= c && c <= 'z') || ('A' <= c && c <= 'Z') || c == '_'
}

/// A character an identifier may continue with: `[A-Za-z0-9_]`.
pub open spec fn is_ident_char(c: char) -> bool {
    is_ident_start_char(c) || is_digit_char(c)
}

/// Every character of `s` is a decimal digit.
pub open spec fn all_digits(s: Seq<char>) -> bool {
    forall|i: int| 0 <= i < s.len() ==> is_digit_char(s[i])
}

/// The shape of a numeric lexeme: digits, optionally followed by `.` and at
/// least one more digit.
pub open spec fn is_number_lexeme(s: Seq<char>) -> bool {
    ||| (s.len() > 0 && all_digits(s))
    ||| (exists|k: int|
        1 <= k < s.len() - 1 && s[k] == '.' && all_digits(s.subrange(0, k)) && all_digits(
            s.subrange(k + 1, s.len() as int),
        ))
}

/// The shape of an identifier lexeme: `[A-Za-z_][A-Za-z0-9_]*`.
pub open spec fn is_ident_lexeme(s: Seq<char>) -> bool {
    s.len() > 0 && is_ident_start_char(s[0]) && (forall|i: int|
        0 <= i < s.len() ==> is_ident_char(s[i]))
}

/// The reserved words of the language.
pub open spec fn is_reserved_word(s: Seq<char>) -> bool {
    ||| s == "plugin"@
    ||| s == "use"@
    ||| s == "prop"@
    ||| s == "enum"@
    ||| s == "type"@
    ||| s == "model"@
    ||| s == "true"@
    ||| s == "false"@
    ||| s == "null"@
}

/// What token an identifier-shaped lexeme denotes: a reserved word maps to its
/// dedicated kind, anything else to `Identifier` carrying its text.
pub open spec fn ident_token_ok(s: Seq<char>, tt: TokenType) -> bool {
    if s == "plugin"@ {
        tt == TokenType::Plugin
    } else if s == "use"@ {
        tt == TokenType::Use
    } else if s == "prop"@ {
        tt == TokenType::Prop
    } else if s == "enum"@ {
        tt == TokenType::Enum
    } else if s == "type"@ {
        tt == TokenType::Type
    } else if s == "model"@ {
        tt == TokenType::Model
    } else if s == "true"@ {
        tt == TokenType::Boolean(true)
    } else if s == "false"@ {
        tt == TokenType::Boolean(false)
    } else if s == "null"@ {
        tt == TokenType::Null
    } else {
        tt is Identifier && tt->Identifier_0@ == s
    }
}

/// The token `t` faithfully describes the slice of `input` its span covers.
pub open spec fn token_matches(input: Seq<char>, t: Token) -> bool {
    let s = input.subrange(t.start as int, t.end as int);
    &&& t.start <= t.end <= input.len()
    &&& match t.token_type {
        TokenType::LeftBrace => s.len() == 1 && s[0] == '{',
        TokenType::RightBrace => s.len() == 1 && s[0] == '}',
        TokenType::LeftBracket => s.len() == 1 && s[0] == '[',
        TokenType::RightBracket => s.len() == 1 && s[0] == ']',
        TokenType::LeftParen => s.len() == 1 && s[0] == '(',
        TokenType::RightParen => s.len() == 1 && s[0] == ')',
        TokenType::At => s.len() == 1 && s[0] == '@',
        TokenType::Dot => s.len() == 1 && s[0] == '.',
        TokenType::Question => s.len() == 1 && s[0] == '?',
        TokenType::Exclamation => s.len() == 1 && s[0] == '!',
        TokenType::Text(v) => s.len() >= 2 && s[0] == '"' && s[s.len() - 1] == '"' && v@
            == s.subrange(1, s.len() - 1),
        TokenType::Number(v) => v@ == s && is_number_lexeme(s),
        TokenType::Identifier(_) => is_ident_lexeme(s) && !is_reserved_word(s) && ident_token_ok(
            s,
            t.token_type,
        ),
        TokenType::Plugin => s == "plugin"@,
        TokenType::Use => s == "use"@,
        TokenType::Prop => s == "prop"@,
        TokenType::Enum => s == "enum"@,
        TokenType::Type => s == "type"@,
        TokenType::Model => s == "model"@,
        TokenType::Boolean(b) => if b {
            s == "true"@
        } else {
            s == "false"@
        },
        TokenType::Null => s == "null"@,
        TokenType::Eof => t.start == t.end,
    }
}


/// A character that is a single-character structural token.
pub open spec fn is_symbol_char(c: char) -> bool {
    c == '{' || c == '}' || c == '[' || c == ']' || c == '(' || c == ')' || c == '@' || c == '.'
        || c == '?' || c == '!'
}

/// The position after the run of whitespace beginning at `i`.
pub open spec fn spec_skip_ws(input: Seq<char>, i: int) -> int
    decreases input.len() - i,
{
    if 0 <= i < input.len() && is_space_char(input[i]) {
        spec_skip_ws(input, i + 1)
    } else {
        i
    }
}

/// The position of the next newline at or after `i`, or the end of input.
pub open spec fn spec_skip_line(input: Seq<char>, i: int) -> int
    decreases input.len() - i,
{
    if 0 <= i < input.len() && input[i] != '\n' {
        spec_skip_line(input, i + 1)
    } else {
        i
    }
}

/// Where the block comment body beginning at `i` with `depth` open comments
/// ends — the position after the `*/` that closes the outermost one — or
/// nothing when the input ends first.
pub open spec fn spec_skip_block(input: Seq<char>, i: int, depth: int) -> Option<int>
    decreases input.len() - i,
{
    if depth <= 0 {
        Some(i)
    } else if !(0 <= i < input.len()) {
        None
    } else if input[i] == '/' && i + 1 < input.len() && input[i + 1] == '*' {
        spec_skip_block(input, i + 2, depth + 1)
    } else if input[i] == '*' && i + 1 < input.len() && input[i + 1] == '/' {
        spec_skip_block(input, i + 2, depth - 1)
    } else {
        spec_skip_block(input, i + 1, depth)
    }
}

/// The position after the run of digits beginning at `i`.
pub open spec fn spec_digits_end(input: Seq<char>, i: int) -> int
    decreases input.len() - i,
{
    if 0 <= i < input.len() && is_digit_char(input[i]) {
        spec_digits_end(input, i + 1)
    } else {
        i
    }
}

/// The position after the run of identifier characters beginning at `i`.
pub open spec fn spec_ident_end(input: Seq<char>, i: int) -> int
    decreases input.len() - i,
{
    if 0 <= i < input.len() && is_ident_char(input[i]) {
        spec_ident_end(input, i + 1)
    } else {
        i
    }
}

/// The end of the numeric literal whose first digit stands at `start`:
/// the digits, then a fraction only where a dot is directly followed by a
/// digit.
pub open spec fn spec_number_end(input: Seq<char>, start: int) -> int {
    let j = spec_digits_end(input, start + 1);
    if j < input.len() && input[j] == '.' && j + 1 < input.len() && is_digit_char(input[j + 1]) {
        spec_digits_end(input, j + 2)
    } else {
        j
    }
}

/// The position after the closing quote of the string literal whose content
/// begins at `i` (a backslash skips the character after it), or nothing when
/// the input ends first.
pub open spec fn spec_string_end(input: Seq<char>, i: int) -> Option<int>
    decreases input.len() + 2 - i,
{
    if !(0 <= i < input.len()) {
        None
    } else if input[i] == '"' {
        Some(i + 1)
    } else if input[i] == '\\' {
        spec_string_end(input, i + 2)
    } else {
        spec_string_end(input, i + 1)
    }
}

/// The scanner's skip phase from cursor `i`: the start of the next real
/// token, the cursor at the end of input, or the lexical fault met among the
/// whitespace and comments.
pub enum ScanOutcome {
    Next(int),
    End(int),
    Fault(SchemaError),
}

/// Skip whitespace and comments from `i`. A `/` that begins no comment is
/// the unexpected-character fault; a block comment that never closes is the
/// unterminated-comment fault, reported at its `/*`.
pub open spec fn spec_scan(input: Seq<char>, i: int) -> ScanOutcome
    decreases input.len() - i,
        via spec_scan_decreases
{
    let j = spec_skip_ws(input, i);
    if !(j < input.len()) {
        ScanOutcome::End(j)
    } else if input[j] == '/' && j + 1 < input.len() && input[j + 1] == '/' {
        spec_scan(input, spec_skip_line(input, j + 2))
    } else if input[j] == '/' && j + 1 < input.len() && input[j + 1] == '*' {
        match spec_skip_block(input, j + 2, 1) {
            Some(k) => spec_scan(input, k),
            None => ScanOutcome::Fault(SchemaError::UnterminatedComment { offset: j as usize }),
        }
    } else if input[j] == '/' {
        ScanOutcome::Fault(SchemaError::UnexpectedCharacter { offset: j as usize })
    } else {
        ScanOutcome::Next(j)
    }
}

#[via_fn]
proof fn spec_scan_decreases(input: Seq<char>, i: int) {
    lemma_skip_ws_ge(input, i);
    let j = spec_skip_ws(input, i);
    lemma_skip_line_ge(input, j + 2);
    lemma_skip_block_ge(input, j + 2, 1);
}

/// Skipping whitespace never moves the cursor backwards nor past the end.
pub proof fn lemma_skip_ws_ge(input: Seq<char>, i: int)
    ensures
        i <= spec_skip_ws(input, i),
        i <= input.len() ==> spec_skip_ws(input, i) <= input.len(),
    decreases input.len() - i,
{
    if 0 <= i < input.len() && is_space_char(input[i]) {
        lemma_skip_ws_ge(input, i + 1);
    }
}

/// Skipping a line comment never moves the cursor backwards nor past the
/// end.
pub proof fn lemma_skip_line_ge(input: Seq<char>, i: int)
    ensures
        i <= spec_skip_line(input, i),
        i <= input.len() ==> spec_skip_line(input, i) <= input.len(),
    decreases input.len() - i,
{
    if 0 <= i < input.len() && input[i] != '\n' {
        lemma_skip_line_ge(input, i + 1);
    }
}

/// Skipping a block comment never moves the cursor backwards nor past the
/// end.
pub proof fn lemma_skip_block_ge(input: Seq<char>, i: int, depth: int)
    ensures
        spec_skip_block(input, i, depth) matches Some(k) ==> i <= k,
        i <= input.len() ==> (spec_skip_block(input, i, depth) matches Some(k) ==> k
            <= input.len()),
    decreases input.len() - i,
{
    if depth <= 0 {
    } else if !(0 <= i < input.len()) {
    } else if input[i] == '/' && i + 1 < input.len() && input[i + 1] == '*' {
        lemma_skip_block_ge(input, i + 2, depth + 1);
    } else if input[i] == '*' && i + 1 < input.len() && input[i + 1] == '/' {
        lemma_skip_block_ge(input, i + 2, depth - 1);
    } else {
        lemma_skip_block_ge(input, i + 1, depth);
    }
}

/// The span of the token the scanner produces from cursor `i` — the `Eof`
/// token's span is empty and stands at the end — or the lexical fault. This
/// together with `token_matches` determines the token completely: the span
/// fixes the text, and the text fixes the kind and its payload.
pub open spec fn spec_token_span(input: Seq<char>, i: int) -> Result<(int, int), SchemaError> {
    match spec_scan(input, i) {
        ScanOutcome::End(j) => Ok((j, j)),
        ScanOutcome::Fault(e) => Err(e),
        ScanOutcome::Next(s) => {
            let c = input[s];
            if is_symbol_char(c) {
                Ok((s, s + 1))
            } else if c == '"' {
                match spec_string_end(input, s + 1) {
                    Some(e) => Ok((s, e)),
                    None => Err(SchemaError::UnterminatedString { offset: s as usize }),
                }
            } else if is_digit_char(c) {
                Ok((s, spec_number_end(input, s)))
            } else if is_ident_start_char(c) {
                Ok((s, spec_ident_end(input, s + 1)))
            } else {
                Err(SchemaError::UnexpectedCharacter { offset: s as usize })
            }
        },
    }
}

/// A digit run never moves the cursor backwards nor past the end.
pub proof fn lemma_digits_end_bounds(input: Seq<char>, i: int)
    ensures
        i <= spec_digits_end(input, i),
        i <= input.len() ==> spec_digits_end(input, i) <= input.len(),
    decreases input.len() - i,
{
    if 0 <= i < input.len() && is_digit_char(input[i]) {
        lemma_digits_end_bounds(input, i + 1);
    }
}

/// An identifier run never moves the cursor backwards nor past the end.
pub proof fn lemma_ident_end_bounds(input: Seq<char>, i: int)
    ensures
        i <= spec_ident_end(input, i),
        i <= input.len() ==> spec_ident_end(input, i) <= input.len(),
    decreases input.len() - i,
{
    if 0 <= i < input.len() && is_ident_char(input[i]) {
        lemma_ident_end_bounds(input, i + 1);
    }
}

/// A closed string literal ends after where it began and within the input.
pub proof fn lemma_string_end_bounds(input: Seq<char>, i: int)
    ensures
        spec_string_end(input, i) matches Some(k) ==> i < k <= input.len(),
    decreases input.len() + 2 - i,
{
    if !(0 <= i < input.len()) {
    } else if input[i] == '"' {
    } else if input[i] == '\\' {
        lemma_string_end_bounds(input, i + 2);
    } else {
        lemma_string_end_bounds(input, i + 1);
    }
}

/// The skip phase never moves the cursor backwards, and a real token start
/// lies within the input.
pub proof fn lemma_scan_bounds(input: Seq<char>, i: int)
    ensures
        spec_scan(input, i) matches ScanOutcome::Next(s) ==> i <= s < input.len(),
        spec_scan(input, i) matches ScanOutcome::End(j) ==> i <= j,
    decreases input.len() - i,
{
    lemma_skip_ws_ge(input, i);
    let j = spec_skip_ws(input, i);
    if !(j < input.len()) {
    } else if input[j] == '/' && j + 1 < input.len() && input[j + 1] == '/' {
        lemma_skip_line_ge(input, j + 2);
        lemma_scan_bounds(input, spec_skip_line(input, j + 2));
    } else if input[j] == '/' && j + 1 < input.len() && input[j + 1] == '*' {
        lemma_skip_block_ge(input, j + 2, 1);
        match spec_skip_block(input, j + 2, 1) {
            Some(k) => {
                lemma_scan_bounds(input, k);
            },
            None => {},
        }
    }
}

/// A real token's span sits at or after the cursor, is never empty, and
/// stays within the input; only the `Eof` span is empty.
pub proof fn lemma_token_span_progress(input: Seq<char>, i: int)
    ensures
        spec_token_span(input, i) matches Ok(sp) ==> i <= sp.0 <= sp.1,
        spec_token_span(input, i) matches Ok(sp) ==> (sp.0 != sp.1 ==> i < sp.1 <= input.len()),
{
    lemma_scan_bounds(input, i);
    match spec_scan(input, i) {
        ScanOutcome::End(j) => {},
        ScanOutcome::Fault(e) => {},
        ScanOutcome::Next(s) => {
            let c = input[s];
            if is_symbol_char(c) {
            } else if c == '"' {
                lemma_string_end_bounds(input, s + 1);
            } else if is_digit_char(c) {
                lemma_digits_end_bounds(input, s + 1);
                let j = spec_digits_end(input, s + 1);
                if j < input.len() && input[j] == '.' && j + 1 < input.len() && is_digit_char(
                    input[j + 1],
                ) {
                    lemma_digits_end_bounds(input, j + 2);
                }
            } else if is_ident_start_char(c) {
                lemma_ident_end_bounds(input, s + 1);
            }
        },
    }
}

/// The spans of every token the scanner produces from cursor `i` to the end
/// of input, the final empty `Eof` span included, or the first lexical
/// fault.
pub open spec fn spec_spans(input: Seq<char>, i: int) -> Result<Seq<(int, int)>, SchemaError>
    decreases input.len() - i,
        via spec_spans_decreases
{
    match spec_token_span(input, i) {
        Err(e) => Err(e),
        Ok(sp) => if sp.0 == sp.1 {
            Ok(seq![sp])
        } else {
            match spec_spans(input, sp.1) {
                Err(er) => Err(er),
                Ok(rest) => Ok(seq![sp] + rest),
            }
        },
    }
}

#[via_fn]
proof fn spec_spans_decreases(input: Seq<char>, i: int) {
    lemma_token_span_progress(input, i);
}

/// The spans of a token sequence.
pub open spec fn spans_of(ts: Seq<Token>) -> Seq<(int, int)> {
    Seq::new(ts.len(), |k: int| if 0 <= k < ts.len() {
        (ts[k].start as int, ts[k].end as int)
    } else {
        (0int, 0int)
    })
}

/// The scanner: an immutable character sequence and a cursor, producing one
/// token per `next_token` call.
pub struct Lexer {
    /// The source text, as characters.
    pub input: Vec<char>,
    /// The cursor: the next character to look at.
    pub current: usize,
    /// Where the token being scanned began.
    pub start: usize,
}

/// Append the given character; relies on `String::push`, which appends
/// exactly that character at the end.
pub assume_specification[ String::push ](s: &mut String, c: char)
    ensures
        final(s)@ == old(s)@.push(c),
;

/// The characters `v[from..to]`, as a `String`.
fn chars_to_string(v: &Vec<char>, from: usize, to: usize) -> (r: String)
    requires
        from <= to <= v@.len(),
    ensures
        r@ == v@.subrange(from as int, to as int),
{
    let mut s = String::new();
    let mut i: usize = from;
    while i < to
        invariant
            from <= i <= to <= v@.len(),
            s@ == v@.subrange(from as int, i as int),
        decreases to - i,
    {
        s.push(v[i]);
        proof {
            assert(s@ =~= v@.subrange(from as int, i + 1 as int));
        }
        i += 1;
    }
    s
}

/// `ts` is the token sequence of `code`: its spans are exactly what the
/// scanner produces, each token describes its own slice, and the single
/// `Eof` stands at the end. Together with `spec_spans` this determines the
/// sequence completely.
pub open spec fn tokens_of(code: Seq<char>, ts: Seq<Token>) -> bool {
    &&& spec_spans(code, 0) == Ok::<Seq<(int, int)>, SchemaError>(spans_of(ts))
    &&& forall|i: int| 0 <= i < ts.len() ==> token_matches(code, #[trigger] ts[i])
    &&& ts.len() >= 1
    &&& ts[ts.len() - 1].token_type is Eof
    &&& forall|i: int| 0 <= i < ts.len() - 1 ==> !(#[trigger] ts[i].token_type is Eof)
}

/// Scan a whole source text into its token sequence, which always ends with
/// a single `Eof` token. The tokens tile the source: each one's span is
/// exactly what the scanner produces from the previous token's end, and the
/// scan fails if and only if the text holds a lexical fault, with that
/// fault.
pub fn tokenize(code: &str) -> (r: Result<Vec<Token>, SchemaError>)
    ensures
        match r {
            Ok(ts) => {
                &&& ts@.len() >= 1
                &&& ts@[ts@.len() - 1].token_type is Eof
                &&& forall|i: int| 0 <= i < ts@.len() ==> token_matches(code@, #[trigger] ts@[i])
                &&& forall|i: int| 0 <= i < ts@.len() - 1 ==> !(#[trigger] ts@[i].token_type is Eof)
                &&& spec_spans(code@, 0) == Ok::<Seq<(int, int)>, SchemaError>(spans_of(ts@))
            },
            Err(e) => (e is UnterminatedString || e is UnterminatedComment
                || e is UnexpectedCharacter) && spec_spans(code@, 0) == Err::<
                Seq<(int, int)>,
                SchemaError,
            >(e),
        },
{
    let mut lexer = Lexer::new(code);
    let mut out: Vec<Token> = Vec::new();
    proof {
        assert(spans_of(out@) =~= Seq::<(int, int)>::empty());
        if spec_spans(code@, 0) is Ok {
            assert(spans_of(out@) + spec_spans(code@, 0)->Ok_0 =~= spec_spans(code@, 0)->Ok_0);
        }
    }
    loop
        invariant
            lexer.wf(),
            lexer.input@ == code@,
            forall|i: int|
                0 <= i < out@.len() ==> token_matches(code@, #[trigger] out@[i]) && !(out@[i].token_type is Eof),
            spec_spans(code@, 0) == match spec_spans(code@, lexer.current as int) {
                Err(e) => Err::<Seq<(int, int)>, SchemaError>(e),
                Ok(rest) => Ok(spans_of(out@) + rest),
            },
        decreases lexer.input@.len() - lexer.current,
    {
        let ghost c = lexer.current as int;
        let ghost prev = spans_of(out@);
        match lexer.next_token() {
            Ok(t) => {
                let ghost sp = (t.start as int, t.end as int);
                let done = matches!(t.token_type, TokenType::Eof);
                out.push(t);
                proof {
                    assert(spans_of(out@) =~= prev.push(sp));
                    match spec_spans(code@, sp.1) {
                        Err(er) => {},
                        Ok(rest) => {
                            assert(prev + (seq![sp] + rest) =~= prev.push(sp) + rest);
                        },
                    }
                    if done {
                        assert(prev + seq![sp] =~= prev.push(sp));
                    }
                }
                if done {
                    return Ok(out);
                }
            },
            Err(e) => {
                return Err(e);
            },
        }
    }
}

/// Decide `is_digit_char` on a character value.
fn digit_char(c: char) -> (b: bool)
    ensures
        b == is_digit_char(c),
{
    c >= '0' && c <= '9'
}

/// Decide `is_ident_char` on a character value.
fn ident_char(c: char) -> (b: bool)
    ensures
        b == is_ident_char(c),
{
    (c >= 'a' && c <= 'z') || (c >= 'A' && c <= 'Z') || (c >= '0' && c <= '9') || c == '_'
}

impl Lexer {
    /// The cursor stays within the input.
    pub open spec fn wf(self) -> bool {
        self.current <= self.input@.len()
    }

    /// Create a scanner over the given source text, with the cursor at the
    /// beginning.
    pub fn new(input: &str) -> (l: Lexer)
        ensures
            l.input@ == input@,
            l.current == 0,
            l.start == 0,
            l.wf(),
    {
        let mut v: Vec<char> = Vec::new();
        let n = input.unicode_len();
        let mut i: usize = 0;
        while i < n
            invariant
                n == input@.len(),
                i <= n,
                v@ == input@.subrange(0, i as int),
            decreases n - i,
        {
            v.push(input.get_char(i));
            proof {
                assert(v@ =~= input@.subrange(0, i + 1 as int));
            }
            i += 1;
        }
        proof {
            assert(v@ =~= input@);
        }
        Lexer { input: v, current: 0, start: 0 }
    }

    /// Whether the cursor has reached the end of the input.
    pub fn is_at_end(&self) -> (b: bool)
        ensures
            b == (self.current >= self.input@.len()),
    {
        self.current >= self.input.len()
    }

    /// The character under the cursor, without advancing.
    fn peek(&self) -> (r: Option<char>)
        ensures
            r == if self.current < self.input@.len() {
                Some(self.input@[self.current as int])
            } else {
                Option::<char>::None
            },
    {
        if self.current < self.input.len() {
            Some(self.input[self.current])
        } else {
            None
        }
    }

    /// The character after the cursor, without advancing.
    fn peek_next(&self) -> (r: Option<char>)
        ensures
            r == if self.current + 1 < self.input@.len() {
                Some(self.input@[self.current + 1])
            } else {
                Option::<char>::None
            },
    {
        let n = self.input.len();
        if self.current < n && n - self.current > 1 {
            Some(self.input[self.current + 1])
        } else {
            None
        }
    }

    /// Consume and return the character under the cursor.
    fn advance(&mut self) -> (r: Option<char>)
        requires
            old(self).wf(),
        ensures
            final(self).input == old(self).input,
            final(self).start == old(self).start,
            final(self).wf(),
            if old(self).current < old(self).input@.len() {
                r == Some(old(self).input@[old(self).current as int]) && final(self).current
                    == old(self).current + 1
            } else {
                r is None && final(self).current == old(self).current
            },
    {
        if self.current < self.input.len() {
            let c = self.input[self.current];
            self.current += 1;
            Some(c)
        } else {
            None
        }
    }

    /// Consume the character under the cursor when it equals `expected`.
    fn match_char(&mut self, expected: char) -> (b: bool)
        requires
            old(self).wf(),
        ensures
            final(self).input == old(self).input,
            final(self).start == old(self).start,
            final(self).wf(),
            if old(self).current < old(self).input@.len() && old(self).input@[old(
                self,
            ).current as int] == expected {
                b && final(self).current == old(self).current + 1
            } else {
                !b && final(self).current == old(self).current
            },
    {
        if self.current < self.input.len() {
            if self.input[self.current] == expected {
                self.current += 1;
                return true;
            }
        }
        false
    }

    /// Skip whitespace: afterwards the cursor stands at the first character
    /// that is not whitespace, or at the end.
    fn skip_whitespace(&mut self)
        requires
            old(self).wf(),
        ensures
            final(self).input == old(self).input,
            final(self).start == old(self).start,
            final(self).wf(),
            old(self).current <= final(self).current,
            final(self).current == spec_skip_ws(final(self).input@, old(self).current as int),
            forall|i: int|
                old(self).current <= i < final(self).current ==> is_space_char(
                    final(self).input@[i],
                ),
            final(self).current == final(self).input@.len() || !is_space_char(
                final(self).input@[final(self).current as int],
            ),
    {
        loop
            invariant
                self.wf(),
                self.input == old(self).input,
                self.start == old(self).start,
                old(self).current <= self.current,
                spec_skip_ws(self.input@, old(self).current as int) == spec_skip_ws(
                    self.input@,
                    self.current as int,
                ),
                forall|i: int|
                    old(self).current <= i < self.current ==> is_space_char(self.input@[i]),
            decreases self.input@.len() - self.current,
        {
            match self.peek() {
                Some(c) => {
                    if c == ' ' || c == '\r' || c == '\t' || c == '\n' {
                        self.advance();
                    } else {
                        return ;
                    }
                },
                None => {
                    return ;
                },
            }
        }
    }

    /// Skip a line comment: everything up to (not including) the next newline.
    fn skip_line_comment(&mut self)
        requires
            old(self).wf(),
        ensures
            final(self).input == old(self).input,
            final(self).start == old(self).start,
            final(self).wf(),
            old(self).current <= final(self).current,
            final(self).current == spec_skip_line(final(self).input@, old(self).current as int),
    {
        loop
            invariant
                self.wf(),
                self.input == old(self).input,
                self.start == old(self).start,
                old(self).current <= self.current,
                spec_skip_line(self.input@, old(self).current as int) == spec_skip_line(
                    self.input@,
                    self.current as int,
                ),
            decreases self.input@.len() - self.current,
        {
            match self.peek() {
                Some(c) => {
                    if c == '\n' {
                        return ;
                    }
                    self.advance();
                },
                None => {
                    return ;
                },
            }
        }
    }

    /// Skip a block comment body, nesting included: called just after the
    /// opening `/*` was consumed, it consumes through the matching `*/`.
    /// Failing to reach depth zero before end of input is a lexical error.
    fn skip_block_comment(&mut self) -> (r: Result<(), SchemaError>)
        requires
            old(self).wf(),
        ensures
            final(self).input == old(self).input,
            final(self).start == old(self).start,
            final(self).wf(),
            old(self).current <= final(self).current,
            match r {
                Ok(()) => old(self).current < final(self).current && spec_skip_block(
                    final(self).input@,
                    old(self).current as int,
                    1,
                ) == Some(final(self).current as int),
                Err(e) => e == (SchemaError::UnterminatedComment { offset: old(self).start })
                    && final(self).current == final(self).input@.len() && spec_skip_block(
                    final(self).input@,
                    old(self).current as int,
                    1,
                ) is None,
            },
    {
        let mut depth: usize = 1;
        loop
            invariant
                self.wf(),
                self.input == old(self).input,
                self.start == old(self).start,
                old(self).current <= self.current,
                depth >= 1,
                2 * (depth - 1) <= self.current - old(self).current,
                spec_skip_block(self.input@, old(self).current as int, 1) == spec_skip_block(
                    self.input@,
                    self.current as int,
                    depth as int,
                ),
            decreases self.input@.len() - self.current,
        {
            if self.is_at_end() {
                return Err(SchemaError::UnterminatedComment { offset: self.start });
            }
            let c = self.peek();
            let c2 = self.peek_next();
            if c == Some('/') && c2 == Some('*') {
                self.advance();
                self.advance();
                depth += 1;
            } else if c == Some('*') && c2 == Some('/') {
                proof {
                    assert(spec_skip_block(self.input@, self.current as int, depth as int)
                        == spec_skip_block(self.input@, self.current + 2, depth - 1));
                }
                self.advance();
                self.advance();
                depth -= 1;
                if depth == 0 {
                    return Ok(());
                }
            } else {
                self.advance();
            }
        }
    }

    /// Scan a string literal: called just after the opening quote was
    /// consumed. A backslash skips over the character that follows it; the
    /// raw characters, backslashes included, become the token's text. An
    /// unterminated literal is a lexical error.
    fn string(&mut self) -> (r: Result<Token, SchemaError>)
        requires
            old(self).wf(),
            old(self).start + 1 == old(self).current,
            old(self).start < old(self).input@.len(),
            old(self).input@[old(self).start as int] == '"',
        ensures
            final(self).input == old(self).input,
            final(self).wf(),
            match r {
                Ok(t) => token_matches(final(self).input@, t) && t.token_type is Text && t.start
                    == old(self).start && t.end == final(self).current && old(self).current
                    < final(self).current && spec_string_end(
                    final(self).input@,
                    old(self).current as int,
                ) == Some(t.end as int),
                Err(e) => e == (SchemaError::UnterminatedString { offset: old(self).start })
                    && final(self).current == final(self).input@.len() && spec_string_end(
                    final(self).input@,
                    old(self).current as int,
                ) is None,
            },
    {
        let n = self.input.len();
        while self.current < n && self.input[self.current] != '"'
            invariant
                n == self.input@.len(),
                self.wf(),
                self.input == old(self).input,
                self.start == old(self).start,
                old(self).current <= self.current,
                spec_string_end(self.input@, old(self).current as int) == spec_string_end(
                    self.input@,
                    self.current as int,
                ),
            decreases self.input@.len() - self.current,
        {
            if self.input[self.current] == '\\' {
                proof {
                    assert(spec_string_end(self.input@, self.current as int) == spec_string_end(
                        self.input@,
                        self.current + 2,
                    ));
                    if self.current + 1 == self.input@.len() {
                        assert(spec_string_end(self.input@, self.current + 2)
                            == spec_string_end(self.input@, self.current + 1));
                    }
                }
                self.advance();
                self.advance();
            } else {
                self.advance();
            }
        }
        if self.is_at_end() {
            return Err(SchemaError::UnterminatedString { offset: self.start });
        }
        // The closing quote.
        self.advance();
        let value = chars_to_string(&self.input, self.start + 1, self.current - 1);
        proof {
            let s = self.input@.subrange(self.start as int, self.current as int);
            assert(s[0] == '"');
            assert(s[s.len() - 1] == '"');
            assert(value@ =~= s.subrange(1, s.len() - 1));
        }
        Ok(Token::new(TokenType::Text(value), self.start, self.current))
    }

    /// Scan a numeric literal: called just after its first digit was
    /// consumed. A dot is consumed only when a digit follows it.
    fn number(&mut self) -> (t: Token)
        requires
            old(self).wf(),
            old(self).start + 1 == old(self).current,
            old(self).start < old(self).input@.len(),
            is_digit_char(old(self).input@[old(self).start as int]),
        ensures
            final(self).input == old(self).input,
            final(self).wf(),
            token_matches(final(self).input@, t),
            t.token_type is Number,
            t.start == old(self).start,
            t.end == final(self).current,
            old(self).current <= final(self).current,
            final(self).current == final(self).input@.len() || !is_digit_char(
                final(self).input@[final(self).current as int],
            ),
            t.end == spec_number_end(final(self).input@, old(self).start as int),
    {
        let ghost start = self.start as int;
        let n = self.input.len();
        while self.current < n && digit_char(self.input[self.current])
            invariant
                n == self.input@.len(),
                self.wf(),
                self.input == old(self).input,
                self.start == old(self).start,
                old(self).current <= self.current,
                spec_digits_end(self.input@, old(self).current as int) == spec_digits_end(
                    self.input@,
                    self.current as int,
                ),
                forall|i: int| start <= i < self.current ==> is_digit_char(self.input@[i]),
            decreases self.input@.len() - self.current,
        {
            self.advance();
        }
        proof {
            assert(self.current == spec_digits_end(self.input@, start + 1));
        }
        let ghost int_end = self.current as int;
        let mut fraction = false;
        let ghost dot_at = self.current as int;
        if self.peek() == Some('.') {
            match self.peek_next() {
                Some(next_ch) => {
                    if next_ch >= '0' && next_ch <= '9' {
                        proof {
                            assert(spec_number_end(self.input@, start) == spec_digits_end(
                                self.input@,
                                dot_at + 2,
                            ));
                        }
                        // The dot, then the digit that justified consuming it.
                        self.advance();
                        self.advance();
                        fraction = true;
                        while self.current < n && digit_char(self.input[self.current])
                            invariant
                                n == self.input@.len(),
                                self.wf(),
                                self.input == old(self).input,
                                self.start == old(self).start,
                                dot_at + 2 <= self.current,
                                spec_digits_end(self.input@, dot_at + 2) == spec_digits_end(
                                    self.input@,
                                    self.current as int,
                                ),
                                spec_number_end(self.input@, start) == spec_digits_end(
                                    self.input@,
                                    dot_at + 2,
                                ),
                                forall|i: int|
                                    dot_at < i < self.current ==> is_digit_char(self.input@[i]),
                            decreases self.input@.len() - self.current,
                        {
                            self.advance();
                        }
                        proof {
                            assert(self.current == spec_number_end(self.input@, start));
                        }
                    } else {
                        proof {
                            assert(spec_number_end(self.input@, start) == dot_at);
                        }
                    }
                },
                None => {
                    proof {
                        assert(spec_number_end(self.input@, start) == dot_at);
                    }
                },
            }
        } else {
            proof {
                assert(spec_number_end(self.input@, start) == dot_at);
            }
        }
        let value = chars_to_string(&self.input, self.start, self.current);
        proof {
            let s = self.input@.subrange(start, self.current as int);
            if fraction {
                let k = dot_at - start;
                assert(s[k] == '.');
                assert(all_digits(s.subrange(0, k))) by {
                    assert forall|i: int| 0 <= i < k implies is_digit_char(
                        s.subrange(0, k)[i],
                    ) by {
                        assert(s.subrange(0, k)[i] == self.input@[start + i]);
                    }
                }
                assert(all_digits(s.subrange(k + 1, s.len() as int))) by {
                    let tail = s.subrange(k + 1, s.len() as int);
                    assert forall|i: int| 0 <= i < tail.len() implies is_digit_char(
                        #[trigger] tail[i],
                    ) by {
                        assert(tail[i] == self.input@[dot_at + 1 + i]);
                    }
                }
                assert(1 <= k < s.len() - 1);
                assert(is_number_lexeme(s));
            } else {
                assert(all_digits(s)) by {
                    assert forall|i: int| 0 <= i < s.len() implies is_digit_char(s[i]) by {
                        assert(s[i] == self.input@[start + i]);
                    }
                }
                assert(s.len() > 0);
            }
        }
        Token::new(TokenType::Number(value), self.start, self.current)
    }

    /// Scan an identifier or keyword: called just after its first character
    /// was consumed. A reserved word becomes its dedicated token kind.
    fn identifier(&mut self) -> (t: Token)
        requires
            old(self).wf(),
            old(self).start + 1 == old(self).current,
            old(self).start < old(self).input@.len(),
            is_ident_start_char(old(self).input@[old(self).start as int]),
        ensures
            final(self).input == old(self).input,
            final(self).wf(),
            token_matches(final(self).input@, t),
            !(t.token_type is Eof),
            t.start == old(self).start,
            t.end == final(self).current,
            old(self).current <= final(self).current,
            final(self).current == final(self).input@.len() || !is_ident_char(
                final(self).input@[final(self).current as int],
            ),
            t.end == spec_ident_end(final(self).input@, old(self).current as int),
    {
        let ghost start = self.start as int;
        let n = self.input.len();
        while self.current < n && ident_char(self.input[self.current])
            invariant
                n == self.input@.len(),
                self.wf(),
                self.input == old(self).input,
                self.start == old(self).start,
                old(self).current <= self.current,
                spec_ident_end(self.input@, old(self).current as int) == spec_ident_end(
                    self.input@,
                    self.current as int,
                ),
                forall|i: int| start < i < self.current ==> is_ident_char(self.input@[i]),
            decreases self.input@.len() - self.current,
        {
            self.advance();
        }
        let text = chars_to_string(&self.input, self.start, self.current);
        proof {
            let s = self.input@.subrange(start, self.current as int);
            assert(is_ident_lexeme(s)) by {
                assert(s[0] == self.input@[start]);
                assert forall|i: int| 0 <= i < s.len() implies is_ident_char(s[i]) by {
                    assert(s[i] == self.input@[start + i]);
                    if i == 0 {
                        assert(is_ident_start_char(s[0]));
                    }
                }
            }
        }
        let token_type = if text == String::from_str("plugin") {
            TokenType::Plugin
        } else if text == String::from_str("use") {
            TokenType::Use
        } else if text == String::from_str("prop") {
            TokenType::Prop
        } else if text == String::from_str("enum") {
            TokenType::Enum
        } else if text == String::from_str("type") {
            TokenType::Type
        } else if text == String::from_str("model") {
            TokenType::Model
        } else if text == String::from_str("true") {
            TokenType::Boolean(true)
        } else if text == String::from_str("false") {
            TokenType::Boolean(false)
        } else if text == String::from_str("null") {
            TokenType::Null
        } else {
            TokenType::Identifier(text)
        };
        Token::new(token_type, self.start, self.current)
    }

    /// Produce the next token: skip whitespace and comments, then scan one
    /// token and advance past it. At the end of input the token is `Eof` and
    /// the cursor no longer moves.
    pub fn next_token(&mut self) -> (r: Result<Token, SchemaError>)
        requires
            old(self).wf(),
        ensures
            final(self).input == old(self).input,
            final(self).wf(),
            old(self).current <= final(self).current,
            match r {
                Ok(t) => token_matches(final(self).input@, t) && old(self).current <= t.start
                    && t.end == final(self).current && (t.token_type is Eof ==> final(self).current
                    == final(self).input@.len()) && (!(t.token_type is Eof) ==> old(self).current
                    < final(self).current) && (t.token_type is Eof <==> t.start == t.end)
                    && spec_token_span(final(self).input@, old(self).current as int) == Ok::<
                    (int, int),
                    SchemaError,
                >((t.start as int, t.end as int)),
                Err(e) => (e is UnterminatedString || e is UnterminatedComment
                    || e is UnexpectedCharacter) && spec_token_span(
                    final(self).input@,
                    old(self).current as int,
                ) == Err::<(int, int), SchemaError>(e),
            },
    {
        loop
            invariant
                self.wf(),
                self.input == old(self).input,
                old(self).current <= self.current,
                spec_scan(self.input@, old(self).current as int) == spec_scan(
                    self.input@,
                    self.current as int,
                ),
            decreases self.input@.len() - self.current,
        {
            let ghost c_t = self.current as int;
            self.skip_whitespace();
            self.start = self.current;
            let ghost j = self.current as int;
            proof {
                assert(j == spec_skip_ws(self.input@, c_t));
            }
            if self.is_at_end() {
                proof {
                    assert(spec_scan(self.input@, c_t) == ScanOutcome::End(j));
                    assert(spec_token_span(self.input@, old(self).current as int) == Ok::<
                        (int, int),
                        SchemaError,
                    >((j, j)));
                }
                return Ok(Token::new(TokenType::Eof, self.start, self.current));
            }
            let copt = self.advance();
            let c = match copt {
                Some(c) => c,
                None => {
                    // The cursor was not at the end, so a character is there.
                    return Ok(Token::new(TokenType::Eof, self.start, self.current));
                },
            };
            proof {
                assert(c == self.input@[j]);
                if c != '/' {
                    assert(spec_scan(self.input@, c_t) == ScanOutcome::Next(j));
                }
            }
            if c == '{' {
                return Ok(Token::new(TokenType::LeftBrace, self.start, self.current));
            } else if c == '}' {
                return Ok(Token::new(TokenType::RightBrace, self.start, self.current));
            } else if c == '[' {
                return Ok(Token::new(TokenType::LeftBracket, self.start, self.current));
            } else if c == ']' {
                return Ok(Token::new(TokenType::RightBracket, self.start, self.current));
            } else if c == '(' {
                return Ok(Token::new(TokenType::LeftParen, self.start, self.current));
            } else if c == ')' {
                return Ok(Token::new(TokenType::RightParen, self.start, self.current));
            } else if c == '@' {
                return Ok(Token::new(TokenType::At, self.start, self.current));
            } else if c == '.' {
                return Ok(Token::new(TokenType::Dot, self.start, self.current));
            } else if c == '?' {
                return Ok(Token::new(TokenType::Question, self.start, self.current));
            } else if c == '!' {
                return Ok(Token::new(TokenType::Exclamation, self.start, self.current));
            } else if c == '"' {
                match self.string() {
                    Ok(t) => {
                        proof {
                            assert(spec_token_span(self.input@, old(self).current as int) == Ok::<
                                (int, int),
                                SchemaError,
                            >((t.start as int, t.end as int)));
                        }
                        return Ok(t);
                    },
                    Err(e) => {
                        proof {
                            assert(spec_token_span(self.input@, old(self).current as int) == Err::<
                                (int, int),
                                SchemaError,
                            >(e));
                        }
                        return Err(e);
                    },
                }
            } else if c == '/' {
                if self.match_char('/') {
                    self.skip_line_comment();
                    proof {
                        assert(spec_scan(self.input@, c_t) == spec_scan(
                            self.input@,
                            self.current as int,
                        ));
                    }
                    // Scan again after the comment.
                } else if self.match_char('*') {
                    match self.skip_block_comment() {
                        Ok(()) => {
                            proof {
                                assert(spec_scan(self.input@, c_t) == spec_scan(
                                    self.input@,
                                    self.current as int,
                                ));
                            }
                            // Scan again after the comment.
                        },
                        Err(e) => {
                            proof {
                                assert(spec_scan(self.input@, c_t) == ScanOutcome::Fault(e));
                            }
                            return Err(e);
                        },
                    }
                } else {
                    proof {
                        assert(spec_scan(self.input@, c_t) == ScanOutcome::Fault(
                            SchemaError::UnexpectedCharacter { offset: j as usize },
                        ));
                    }
                    return Err(SchemaError::UnexpectedCharacter { offset: self.start });
                }
            } else if c >= '0' && c <= '9' {
                let t = self.number();
                proof {
                    assert(spec_token_span(self.input@, old(self).current as int) == Ok::<
                        (int, int),
                        SchemaError,
                    >((t.start as int, t.end as int)));
                }
                return Ok(t);
            } else if (c >= 'a' && c <= 'z') || (c >= 'A' && c <= 'Z') || c == '_' {
                let t = self.identifier();
                proof {
                    assert(spec_token_span(self.input@, old(self).current as int) == Ok::<
                        (int, int),
                        SchemaError,
                    >((t.start as int, t.end as int)));
                }
                return Ok(t);
            } else {
                proof {
                    assert(!is_symbol_char(c));
                    assert(spec_token_span(self.input@, old(self).current as int) == Err::<
                        (int, int),
                        SchemaError,
                    >(SchemaError::UnexpectedCharacter { offset: j as usize }));
                }
                return Err(SchemaError::UnexpectedCharacter { offset: self.start });
            }
        }
    }
}

} // verus!

use super::chars::{
    char_escape_debug, char_is_alphabetic, char_is_alphanumeric, escape_debug, is_alphabetic,
    is_alphanumeric, push_char, string_of,
};
use super::token::{SpecToken, SpecTokenType, Token, TokenType};
use crate::error::{error_at, spec_error, Error, ErrorType, SpecError, SpecErrorType};
use crate::located::{Located, Location};
use crate::text::{digit, digits};
use vstd::prelude::*;

verus! {

// ---------------------------------------------------------------------------
// Character classes
// ---------------------------------------------------------------------------

/// The characters operator symbols are made of: `+-*/=<>!|.$&@#?~^:%`.
pub open spec fn is_symbol_char(c: char) -> bool {
    c == '+' || c == '-' || c == '*' || c == '/' || c == '=' || c == '<' || c == '>' || c == '!'
        || c == '|' || c == '.' || c == '$' || c == '&' || c == '@' || c == '#' || c == '?'
        || c == '~' || c == '^' || c == ':' || c == '%'
}

pub open spec fn is_ascii_digit(c: char) -> bool {
    '0' <= c && c <= '9'
}

/// Characters that may continue an identifier.
pub open spec fn is_ident_char(c: char) -> bool {
    char_is_alphanumeric(c) || c == '_'
}

pub open spec fn is_whitespace(c: char) -> bool {
    c == ' ' || c == '\t' || c == '\n'
}

/// The single-character tokens.
pub open spec fn special_token(c: char) -> Option<SpecTokenType> {
    if c == '(' {
        Some(SpecTokenType::LParen)
    } else if c == ')' {
        Some(SpecTokenType::RParen)
    } else if c == '[' {
        Some(SpecTokenType::LBracket)
    } else if c == ']' {
        Some(SpecTokenType::RBracket)
    } else if c == '{' {
        Some(SpecTokenType::LBrace)
    } else if c == '}' {
        Some(SpecTokenType::RBrace)
    } else if c == ';' {
        Some(SpecTokenType::Semicolon)
    } else if c == ',' {
        Some(SpecTokenType::Comma)
    } else {
        None
    }
}

/// The keywords and the tokens they stand for.
pub open spec fn keyword(w: Seq<char>) -> Option<SpecTokenType> {
    if w == seq!['l', 'e', 't'] {
        Some(SpecTokenType::Let)
    } else if w == seq!['f', 'u', 'n'] {
        Some(SpecTokenType::Fun)
    } else if w == seq!['t', 'r', 'u', 'e'] {
        Some(SpecTokenType::True)
    } else if w == seq!['f', 'a', 'l', 's', 'e'] {
        Some(SpecTokenType::False)
    } else if w == seq!['i', 'f'] {
        Some(SpecTokenType::If)
    } else if w == seq!['e', 'l', 's', 'e'] {
        Some(SpecTokenType::Else)
    } else if w == seq!['w', 'h', 'i', 'l', 'e'] {
        Some(SpecTokenType::While)
    } else if w == seq!['r', 'e', 't', 'u', 'r', 'n'] {
        Some(SpecTokenType::Return)
    } else if w == seq!['b', 'r', 'e', 'a', 'k'] {
        Some(SpecTokenType::Break)
    } else if w == seq!['c', 'o', 'n', 't', 'i', 'n', 'u', 'e'] {
        Some(SpecTokenType::Continue)
    } else if w == seq!['i', 'n', 'f', 'i', 'x', 'r'] {
        Some(SpecTokenType::Infixr)
    } else if w == seq!['i', 'n', 'f', 'i', 'x', 'l'] {
        Some(SpecTokenType::Infixl)
    } else if w == seq!['s', 't', 'r', 'u', 'c', 't'] {
        Some(SpecTokenType::Struct)
    } else if w == seq!['i', 'm', 'p', 'l'] {
        Some(SpecTokenType::Impl)
    } else {
        None
    }
}

// ---------------------------------------------------------------------------
// Scanning
// ---------------------------------------------------------------------------

/// Where the run of symbol characters starting at `i` ends.
pub open spec fn symbol_end(code: Seq<char>, i: int) -> int
    decreases code.len() - i,
{
    if 0 <= i < code.len() && is_symbol_char(code[i]) {
        symbol_end(code, i + 1)
    } else {
        i
    }
}

/// Where the run of identifier characters starting at `i` ends.
pub open spec fn ident_end(code: Seq<char>, i: int) -> int
    decreases code.len() - i,
{
    if 0 <= i < code.len() && is_ident_char(code[i]) {
        ident_end(code, i + 1)
    } else {
        i
    }
}

/// Where a line comment whose text starts at `i` ends: at the next newline (kept) or the end.
pub open spec fn line_comment_end(code: Seq<char>, i: int) -> int
    decreases code.len() - i,
{
    if 0 <= i < code.len() && code[i] != '\n' {
        line_comment_end(code, i + 1)
    } else {
        i
    }
}

/// The value of a string of decimal digits.
pub open spec fn digits_value(s: Seq<char>) -> int
    decreases s.len(),
{
    if s.len() == 0 {
        0
    } else {
        digits_value(s.drop_last()) * 10 + (s.last() as int - '0' as int)
    }
}

/// The outcome of scanning a literal: its value and where scanning stopped,
/// or an error and the position the error's span ends at.
pub enum Scan<T> {
    Done(T, int),
    Fail(SpecErrorType, int),
}

/// Scans the rest of a number literal from `i`, `num` being the text so far and `is_float`
/// telling whether it already has a decimal point. A point starts the fraction only when the
/// next character is no symbol character; a letter right after the digits is an error.
pub open spec fn scan_number(code: Seq<char>, i: int, num: Seq<char>, is_float: bool) -> Scan<(Seq<char>, bool)>
    decreases code.len() - i,
{
    if i < 0 || i >= code.len() {
        Scan::Done((num, is_float), i)
    } else {
        let c = code[i];
        if is_ascii_digit(c) {
            scan_number(code, i + 1, num.push(c), is_float)
        } else if char_is_alphabetic(c) {
            Scan::Fail(SpecErrorType::InvalidDigit(c), i)
        } else if c == '.' && i < code.len() - 1 && !is_symbol_char(code[i + 1]) {
            if is_float {
                Scan::Fail(SpecErrorType::TwoDecimalPoints, i)
            } else {
                scan_number(code, i + 1, num.push('.'), true)
            }
        } else {
            Scan::Done((num, is_float), i)
        }
    }
}

/// The character an escape sequence `\c` stands for.
pub open spec fn escaped(c: char) -> Option<char> {
    if c == 'n' {
        Some('\n')
    } else if c == 't' {
        Some('\t')
    } else if c == '"' {
        Some('"')
    } else if c == '\'' {
        Some('\'')
    } else if c == '\\' {
        Some('\\')
    } else {
        None
    }
}

/// Scans the rest of a string literal from `i` (after the opening quote), `s` being the text so far.
pub open spec fn scan_string(code: Seq<char>, i: int, s: Seq<char>) -> Scan<Seq<char>>
    decreases code.len() - i,
{
    if i < 0 {
        Scan::Fail(SpecErrorType::StringEof, i)
    } else if i >= code.len() {
        Scan::Fail(SpecErrorType::StringEof, code.len() as int)
    } else {
        let c = code[i];
        if c == '"' {
            Scan::Done(s, i + 1)
        } else if c == '\n' {
            Scan::Fail(SpecErrorType::StringEol, i)
        } else if c == '\\' {
            if i + 1 >= code.len() {
                Scan::Fail(SpecErrorType::StringEof, i + 1)
            } else {
                match escaped(code[i + 1]) {
                    Some(e) => scan_string(code, i + 2, s.push(e)),
                    None => Scan::Fail(SpecErrorType::InvalidEscapeChar(char_escape_debug(code[i + 1])), i + 1),
                }
            }
        } else {
            scan_string(code, i + 1, s.push(c))
        }
    }
}

/// Scans a block comment from `i` in the given state (0: inside, 1: after a star that may end it,
/// 2: after its closing star and slash, 5: after a symbol character, whose following star cannot
/// end it). The comment ends at the first character after `*/` that is no symbol character,
/// or at the end of the code; `None` when the code ends inside it.
pub open spec fn scan_block_comment(code: Seq<char>, i: int, state: int) -> Option<int>
    decreases code.len() - i,
{
    if i < 0 || i >= code.len() {
        if state == 2 {
            Some(code.len() as int)
        } else {
            None
        }
    } else {
        let c = code[i];
        if c == '*' && state <= 1 {
            scan_block_comment(code, i + 1, 1)
        } else if state == 1 && c == '/' {
            scan_block_comment(code, i + 1, 2)
        } else if state == 2 && !is_symbol_char(c) {
            Some(i + 1)
        } else if state > 0 {
            scan_block_comment(code, i + 1, 0)
        } else if is_symbol_char(c) {
            scan_block_comment(code, i + 1, 5)
        } else {
            scan_block_comment(code, i + 1, state)
        }
    }
}

/// `sym` is some stars followed by `*/`, which would read as the end of a block comment.
pub open spec fn is_comment_end_symbol(sym: Seq<char>) -> bool {
    &&& sym.len() >= 2
    &&& sym[sym.len() - 2] == '*'
    &&& sym[sym.len() - 1] == '/'
    &&& forall|j: int| 0 <= j < sym.len() - 2 ==> sym[j] == '*'
}

/// `sym` is `/*` followed by stars only: the start of a block comment.
pub open spec fn is_comment_start_symbol(sym: Seq<char>) -> bool {
    &&& sym.len() >= 2
    &&& sym[0] == '/'
    &&& sym[1] == '*'
    &&& forall|j: int| 2 <= j < sym.len() ==> sym[j] == '*'
}

/// `sym` is two or more slashes: the start of a line comment.
pub open spec fn is_line_comment_symbol(sym: Seq<char>) -> bool {
    &&& sym.len() >= 2
    &&& forall|j: int| 0 <= j < sym.len() ==> sym[j] == '/'
}

/// What lexing does at one position: possibly a token, possibly an error with the position its
/// span ends at, and the position lexing continues from.
pub struct Step {
    pub token: Option<SpecTokenType>,
    pub error: Option<(SpecErrorType, int)>,
    pub next: int,
}

pub open spec fn skip_to(next: int) -> Step {
    Step { token: None, error: None, next }
}

pub open spec fn token_to(t: SpecTokenType, next: int) -> Step {
    Step { token: Some(t), error: None, next }
}

pub open spec fn error_to(e: SpecErrorType, end: int, next: int) -> Step {
    Step { token: None, error: Some((e, end)), next }
}

/// Lexing a number literal starting at `i`.
pub open spec fn number_step(code: Seq<char>, i: int) -> Step {
    match scan_number(code, i, Seq::empty(), false) {
        Scan::Fail(e, end) => error_to(e, end, end),
        Scan::Done((num, is_float), end) => if is_float {
            token_to(SpecTokenType::Float(num), end)
        } else if digits_value(num) <= i32::MAX {
            token_to(SpecTokenType::Int(digits_value(num) as i32), end)
        } else {
            error_to(SpecErrorType::IntegerOverflow, end, end)
        },
    }
}

/// Lexing a string literal whose opening quote is at `i`.
pub open spec fn string_step(code: Seq<char>, i: int) -> Step {
    match scan_string(code, i + 1, Seq::empty()) {
        Scan::Done(s, next) => token_to(SpecTokenType::String(s), next),
        Scan::Fail(e, end) => error_to(e, end, end),
    }
}

/// Lexing an identifier or keyword starting at `i`.
pub open spec fn word_step(code: Seq<char>, i: int) -> Step {
    let end = ident_end(code, i);
    let w = code.subrange(i, end);
    match keyword(w) {
        Some(k) => token_to(k, end),
        None => token_to(SpecTokenType::Identifier(w), end),
    }
}

/// Lexing a run of symbol characters starting at `i`: an operator, a punctuation token,
/// or a comment.
pub open spec fn symbol_step(code: Seq<char>, i: int) -> Step {
    let end = symbol_end(code, i);
    let sym = code.subrange(i, end);
    if sym == seq!['='] {
        token_to(SpecTokenType::Equals, end)
    } else if sym == seq!['?'] {
        token_to(SpecTokenType::QuestionMark, end)
    } else if sym == seq!['.'] {
        token_to(SpecTokenType::Dot, end)
    } else if sym == seq!['|'] {
        token_to(SpecTokenType::Pipe, end)
    } else if is_comment_end_symbol(sym) {
        error_to(SpecErrorType::CommentSymbol, end - 1, end)
    } else if is_comment_start_symbol(sym) {
        match scan_block_comment(code, end, 0) {
            Some(next) => skip_to(next),
            None => error_to(SpecErrorType::CommentEof, code.len() as int, code.len() as int),
        }
    } else if is_line_comment_symbol(sym) {
        skip_to(line_comment_end(code, end))
    } else {
        token_to(SpecTokenType::Symbol(sym), end)
    }
}

/// What lexing does at position `i` of the code.
pub open spec fn step(code: Seq<char>, i: int) -> Step {
    let c = code[i];
    if is_whitespace(c) {
        skip_to(i + 1)
    } else if c == '"' {
        string_step(code, i)
    } else if is_ascii_digit(c) {
        number_step(code, i)
    } else if char_is_alphabetic(c) || c == '_' {
        word_step(code, i)
    } else if special_token(c) is Some {
        token_to(special_token(c).unwrap(), i + 1)
    } else if is_symbol_char(c) {
        symbol_step(code, i)
    } else {
        error_to(SpecErrorType::UnknownCharacter(c), i, i + 1)
    }
}

/// The tokens and the errors found from position `i` to the end of the code, in order.
/// A token spans from where its step began to just before where the next one begins;
/// an error spans from where its step began to the position its step gives.
pub open spec fn lex_from(code: Seq<char>, i: int) -> (Seq<SpecToken>, Seq<SpecError>)
    decreases code.len() - i,
{
    if i < 0 || i >= code.len() {
        (Seq::empty(), Seq::empty())
    } else {
        let st = step(code, i);
        proof {
            lemma_step_progress(code, i);
        }
        let rest = lex_from(code, st.next);
        let tokens = match st.token {
            Some(t) => seq![Located { val: t, loc: Location { start: i as usize, end: (st.next - 1) as usize } }]
                + rest.0,
            None => rest.0,
        };
        let errors = match st.error {
            Some((e, end)) => seq![spec_error(e, i, end)] + rest.1,
            None => rest.1,
        };
        (tokens, errors)
    }
}

/// The result of lexing `code`: its tokens followed by an end-of-file token at the code's end,
/// or, when anything went wrong, all the errors.
pub open spec fn spec_lex(code: Seq<char>) -> Result<Seq<SpecToken>, Seq<SpecError>> {
    let (tokens, errors) = lex_from(code, 0);
    if errors.len() == 0 {
        Ok(tokens.push(
            Located {
                val: SpecTokenType::Eof,
                loc: Location { start: code.len() as usize, end: code.len() as usize },
            },
        ))
    } else {
        Err(errors)
    }
}

pub open spec fn tokens_view(ts: Seq<Token>) -> Seq<SpecToken> {
    ts.map_values(|t: Token| t@)
}

pub open spec fn errors_view(es: Seq<Error>) -> Seq<SpecError> {
    es.map_values(|e: Error| e@)
}


/// How a character is written inside a string literal: a newline as `\n`, a tab as `\t`, a
/// quote, an apostrophe and a backslash after a backslash, any other character as itself.
pub open spec fn written_in_string(c: char) -> Seq<char> {
    if c == '\n' {
        seq!['\\', 'n']
    } else if c == '\t' {
        seq!['\\', 't']
    } else if c == '"' {
        seq!['\\', '"']
    } else if c == '\'' {
        seq!['\\', '\'']
    } else if c == '\\' {
        seq!['\\', '\\']
    } else {
        seq![c]
    }
}

/// A text written as the inside of a string literal.
pub open spec fn quoted(u: Seq<char>) -> Seq<char>
    decreases u.len(),
{
    if u.len() == 0 {
        Seq::empty()
    } else {
        written_in_string(u[0]) + quoted(u.subrange(1, u.len() as int))
    }
}

proof fn lemma_scan_quoted(code: Seq<char>, i: int, acc: Seq<char>, u: Seq<char>)
    requires
        0 <= i,
        i + quoted(u).len() < code.len(),
        code.subrange(i, i + quoted(u).len()) == quoted(u),
        code[i + quoted(u).len()] == '"',
    ensures
        scan_string(code, i, acc) == Scan::Done(acc + u, i + quoted(u).len() + 1),
    decreases u.len(),
{
    if u.len() == 0 {
        assert(acc + u =~= acc);
    } else {
        let c = u[0];
        let w = written_in_string(c);
        let rest = u.subrange(1, u.len() as int);
        assert(quoted(u) == w + quoted(rest));
        assert(code.subrange(i + w.len(), i + w.len() + quoted(rest).len()) =~= quoted(rest)) by {
            assert forall|k: int| 0 <= k < quoted(rest).len() implies code[i + w.len() + k] == quoted(rest)[k] by {
                assert(code.subrange(i, i + quoted(u).len())[w.len() + k] == quoted(u)[w.len() + k]);
            }
        }
        assert(code[i] == quoted(u)[0]) by {
            assert(code.subrange(i, i + quoted(u).len())[0] == quoted(u)[0]);
        }
        if w.len() == 2 {
            assert(code[i + 1] == quoted(u)[1]) by {
                assert(code.subrange(i, i + quoted(u).len())[1] == quoted(u)[1]);
            }
        }
        lemma_scan_quoted(code, i + w.len(), acc.push(c), rest);
        assert(acc.push(c) + rest =~= acc + u);
    }
}

/// A string literal reads back as the text it was written from: lexing the text `u` written
/// inside quotes gives the one string token `u`, then the end of the code.
pub proof fn law_string_literal_reads_back(u: Seq<char>)
    requires
        quoted(u).len() + 2 <= usize::MAX,
    ensures
        ({
            let code = seq!['"'] + quoted(u) + seq!['"'];
            spec_lex(code) == Ok::<Seq<SpecToken>, Seq<SpecError>>(
                seq![
                    Located { val: SpecTokenType::String(u), loc: Location { start: 0, end: (code.len() - 1) as usize } },
                    Located { val: SpecTokenType::Eof, loc: Location { start: code.len() as usize, end: code.len() as usize } },
                ],
            )
        }),
{
    let q = quoted(u);
    let code = seq!['"'] + q + seq!['"'];
    assert(code.subrange(1, 1 + q.len() as int) =~= q);
    assert(code[1 + q.len() as int] == '"');
    lemma_scan_quoted(code, 1, Seq::empty(), u);
    assert(Seq::<char>::empty() + u =~= u);
    assert(code[0] == '"');
    let st = step(code, 0);
    assert(st == token_to(SpecTokenType::String(u), code.len() as int));
    let lf = lex_from(code, 0);
    assert(lex_from(code, code.len() as int) == (Seq::<SpecToken>::empty(), Seq::<SpecError>::empty()));
    assert(lf.0 =~= seq![Located { val: SpecTokenType::String(u), loc: Location { start: 0, end: (code.len() - 1) as usize } }]);
    assert(lf.1 =~= Seq::<SpecError>::empty());
    let eof = Located { val: SpecTokenType::Eof, loc: Location { start: code.len() as usize, end: code.len() as usize } };
    assert(lf.0.push(eof) =~= seq![
        Located { val: SpecTokenType::String(u), loc: Location { start: 0, end: (code.len() - 1) as usize } },
        eof,
    ]);
}


proof fn lemma_digit(d: int)
    requires
        0 <= d <= 9,
    ensures
        is_ascii_digit(digit(d)),
        digit(d) as int - '0' as int == d,
{
}

proof fn lemma_digits(n: nat)
    ensures
        digits(n).len() > 0,
        forall|k: int| 0 <= k < digits(n).len() ==> is_ascii_digit(#[trigger] digits(n)[k]),
        digits_value(digits(n)) == n,
    decreases n,
{
    if n < 10 {
        lemma_digit(n as int);
        assert(digits(n).drop_last() =~= Seq::<char>::empty());
        assert(digits_value(digits(n)) == digits_value(Seq::<char>::empty()) * 10 + (digit(n as int) as int - '0' as int));
    } else {
        lemma_digits(n / 10);
        lemma_digit((n % 10) as int);
        let d = digits(n);
        assert(d.drop_last() =~= digits(n / 10));
        assert(forall|k: int| 0 <= k < d.len() - 1 ==> d[k] == digits(n / 10)[k]);
        assert(d.last() == digit((n % 10) as int));
        assert(digits_value(d) == digits_value(digits(n / 10)) * 10 + (n % 10));
        assert((n / 10) * 10 + n % 10 == n) by (nonlinear_arith);
    }
}

proof fn lemma_scan_digits(code: Seq<char>, i: int, num: Seq<char>)
    requires
        0 <= i <= code.len(),
        forall|k: int| i <= k < code.len() ==> is_ascii_digit(#[trigger] code[k]),
    ensures
        scan_number(code, i, num, false) == Scan::Done((num + code.subrange(i, code.len() as int), false), code.len() as int),
    decreases code.len() - i,
{
    if i < code.len() {
        lemma_scan_digits(code, i + 1, num.push(code[i]));
        assert(num.push(code[i]) + code.subrange(i + 1, code.len() as int) =~= num + code.subrange(i, code.len() as int));
    } else {
        assert(num + code.subrange(i, code.len() as int) =~= num);
    }
}

/// A number reads back as itself: lexing the decimal digits of an integer that fits in 32 bits
/// gives the one integer token of that value, then the end of the code.
pub proof fn law_integer_literal_reads_back(n: nat)
    requires
        n <= i32::MAX,
    ensures
        ({
            let code = digits(n);
            spec_lex(code) == Ok::<Seq<SpecToken>, Seq<SpecError>>(
                seq![
                    Located { val: SpecTokenType::Int(n as i32), loc: Location { start: 0, end: (code.len() - 1) as usize } },
                    Located { val: SpecTokenType::Eof, loc: Location { start: code.len() as usize, end: code.len() as usize } },
                ],
            )
        }),
{
    let code = digits(n);
    lemma_digits(n);
    lemma_scan_digits(code, 0, Seq::empty());
    assert(Seq::<char>::empty() + code.subrange(0, code.len() as int) =~= code);
    assert(is_ascii_digit(code[0]));
    assert(step(code, 0) == token_to(SpecTokenType::Int(n as i32), code.len() as int));
    let lf = lex_from(code, 0);
    assert(lex_from(code, code.len() as int) == (Seq::<SpecToken>::empty(), Seq::<SpecError>::empty()));
    assert(lf.1 =~= Seq::<SpecError>::empty());
    let eof = Located { val: SpecTokenType::Eof, loc: Location { start: code.len() as usize, end: code.len() as usize } };
    assert(lf.0.push(eof) =~= seq![
        Located { val: SpecTokenType::Int(n as i32), loc: Location { start: 0, end: (code.len() - 1) as usize } },
        eof,
    ]);
}

// ---------------------------------------------------------------------------
// Progress lemmas
// ---------------------------------------------------------------------------

proof fn lemma_symbol_end(code: Seq<char>, i: int)
    requires
        0 <= i <= code.len(),
    ensures
        i <= symbol_end(code, i) <= code.len(),
        forall|j: int| i <= j < symbol_end(code, i) ==> is_symbol_char(#[trigger] code[j]),
        symbol_end(code, i) < code.len() ==> !is_symbol_char(code[symbol_end(code, i)]),
    decreases code.len() - i,
{
    if i < code.len() && is_symbol_char(code[i]) {
        lemma_symbol_end(code, i + 1);
    }
}

proof fn lemma_ident_end(code: Seq<char>, i: int)
    requires
        0 <= i <= code.len(),
    ensures
        i <= ident_end(code, i) <= code.len(),
        forall|j: int| i <= j < ident_end(code, i) ==> is_ident_char(#[trigger] code[j]),
        ident_end(code, i) < code.len() ==> !is_ident_char(code[ident_end(code, i)]),
    decreases code.len() - i,
{
    if i < code.len() && is_ident_char(code[i]) {
        lemma_ident_end(code, i + 1);
    }
}

proof fn lemma_line_comment_end(code: Seq<char>, i: int)
    requires
        0 <= i <= code.len(),
    ensures
        i <= line_comment_end(code, i) <= code.len(),
    decreases code.len() - i,
{
    if i < code.len() && code[i] != '\n' {
        lemma_line_comment_end(code, i + 1);
    }
}

proof fn lemma_scan_number(code: Seq<char>, i: int, num: Seq<char>, is_float: bool)
    requires
        0 <= i <= code.len(),
    ensures
        match scan_number(code, i, num, is_float) {
            Scan::Done(_, end) => i <= end <= code.len(),
            Scan::Fail(_, end) => i <= end <= code.len(),
        },
    decreases code.len() - i,
{
    if i < code.len() {
        let c = code[i];
        if is_ascii_digit(c) {
            lemma_scan_number(code, i + 1, num.push(c), is_float);
        } else if c == '.' && i < code.len() - 1 && !is_symbol_char(code[i + 1]) && !is_float
            && !char_is_alphabetic(c) {
            lemma_scan_number(code, i + 1, num.push('.'), true);
        }
    }
}

proof fn lemma_scan_string(code: Seq<char>, i: int, s: Seq<char>)
    requires
        0 <= i <= code.len(),
    ensures
        match scan_string(code, i, s) {
            Scan::Done(_, end) => i < end <= code.len(),
            Scan::Fail(_, end) => i <= end <= code.len(),
        },
    decreases code.len() - i,
{
    if i < code.len() {
        let c = code[i];
        if c == '\\' && i + 1 < code.len() {
            if let Some(e) = escaped(code[i + 1]) {
                lemma_scan_string(code, i + 2, s.push(e));
            }
        } else if c != '"' && c != '\n' && c != '\\' {
            lemma_scan_string(code, i + 1, s.push(c));
        }
    }
}

proof fn lemma_scan_block_comment(code: Seq<char>, i: int, state: int)
    requires
        0 <= i <= code.len(),
    ensures
        scan_block_comment(code, i, state) matches Some(n) ==> i <= n <= code.len(),
    decreases code.len() - i,
{
    if i < code.len() {
        let c = code[i];
        if c == '*' && state <= 1 {
            lemma_scan_block_comment(code, i + 1, 1);
        } else if state == 1 && c == '/' {
            lemma_scan_block_comment(code, i + 1, 2);
        } else if state == 2 && !is_symbol_char(c) {
        } else if state > 0 {
            lemma_scan_block_comment(code, i + 1, 0);
        } else if is_symbol_char(c) {
            lemma_scan_block_comment(code, i + 1, 5);
        } else {
            lemma_scan_block_comment(code, i + 1, state);
        }
    }
}

/// Every step moves forward and stays within the code.
pub proof fn lemma_step_progress(code: Seq<char>, i: int)
    requires
        0 <= i < code.len(),
    ensures
        i < step(code, i).next <= code.len(),
        step(code, i).error matches Some((_, end)) ==> i <= end <= code.len(),
{
    let c = code[i];
    if is_whitespace(c) {
    } else if c == '"' {
        lemma_scan_string(code, i + 1, Seq::empty());
    } else if is_ascii_digit(c) {
        lemma_scan_number(code, i + 1, seq![c], false);
        assert(Seq::<char>::empty().push(c) == seq![c]);
    } else if char_is_alphabetic(c) || c == '_' {
        lemma_ident_end(code, i + 1);
    } else if special_token(c) is Some {
    } else if is_symbol_char(c) {
        lemma_symbol_end(code, i + 1);
        let end = symbol_end(code, i);
        lemma_scan_block_comment(code, end, 0);
        lemma_line_comment_end(code, end);
    }
}

/// No step of lexing gives an end-of-file token.
pub proof fn lemma_step_not_eof(code: Seq<char>, i: int)
    requires
        0 <= i < code.len(),
    ensures
        !(step(code, i).token matches Some(SpecTokenType::Eof)),
{
    let c = code[i];
    if !is_whitespace(c) && c != '"' && !is_ascii_digit(c) && (char_is_alphabetic(c) || c == '_') {
        let end = ident_end(code, i);
        let w = code.subrange(i, end);
        assert(!(keyword(w) matches Some(SpecTokenType::Eof)));
    }
}

/// The tokens lexed from position `i` on lie within the code from `i`, each starting after the
/// one before it ends, and none of them marks the end of the code.
pub proof fn lemma_lex_from_in_order(code: Seq<char>, i: int)
    requires
        0 <= i,
        code.len() <= usize::MAX,
    ensures
        forall|k: int|
            0 <= k < lex_from(code, i).0.len() ==> {
                let t = #[trigger] lex_from(code, i).0[k];
                &&& i <= t.loc.start <= t.loc.end < code.len()
                &&& !(t.val is Eof)
            },
        forall|k: int, m: int|
            0 <= k < m < lex_from(code, i).0.len() ==> (#[trigger] lex_from(code, i).0[k]).loc.end < (
            #[trigger] lex_from(code, i).0[m]).loc.start,
    decreases code.len() - i,
{
    if i < code.len() {
        let st = step(code, i);
        lemma_step_progress(code, i);
        lemma_step_not_eof(code, i);
        lemma_lex_from_in_order(code, st.next);
        let rest = lex_from(code, st.next).0;
        let toks = lex_from(code, i).0;
        match st.token {
            Some(t) => {
                let first = Located { val: t, loc: Location { start: i as usize, end: (st.next - 1) as usize } };
                assert(toks == seq![first] + rest);
                assert forall|k: int| 0 <= k < toks.len() implies {
                    let t = #[trigger] toks[k];
                    &&& i <= t.loc.start <= t.loc.end < code.len()
                    &&& !(t.val is Eof)
                } by {
                    if k > 0 {
                        assert(toks[k] == rest[k - 1]);
                    }
                }
                assert forall|k: int, m: int| 0 <= k < m < toks.len() implies (#[trigger] toks[k]).loc.end < (
                #[trigger] toks[m]).loc.start by {
                    assert(toks[m] == rest[m - 1]);
                    if k > 0 {
                        assert(toks[k] == rest[k - 1]);
                    }
                }
            },
            None => {
                assert(toks == rest);
            },
        }
    }
}

/// Lexing that succeeds gives the tokens in the order of the code, each within the code and
/// starting after the one before it ends, and ends them with the one end-of-file token, at the
/// end of the code.
pub proof fn law_lex_tokens_in_order(code: Seq<char>)
    requires
        code.len() <= usize::MAX,
        spec_lex(code) is Ok,
    ensures
        ({
            let ts = spec_lex(code)->Ok_0;
            &&& ts.len() > 0
            &&& ts.last().val is Eof
            &&& ts.last().loc == Location { start: code.len() as usize, end: code.len() as usize }
            &&& forall|k: int|
                0 <= k < ts.len() - 1 ==> {
                    let t = #[trigger] ts[k];
                    &&& t.loc.start <= t.loc.end < code.len()
                    &&& !(t.val is Eof)
                }
            &&& forall|k: int, m: int| 0 <= k < m < ts.len() - 1 ==> (#[trigger] ts[k]).loc.end < (#[trigger] ts[m]).loc.start
        }),
{
    lemma_lex_from_in_order(code, 0);
    let toks = lex_from(code, 0).0;
    let ts = spec_lex(code)->Ok_0;
    assert forall|k: int| 0 <= k < ts.len() - 1 implies ts[k] == toks[k] by {}
}

// ---------------------------------------------------------------------------
// Implementation
// ---------------------------------------------------------------------------

pub fn is_symbol(c: char) -> (r: bool)
    ensures
        r == is_symbol_char(c),
{
    c == '+' || c == '-' || c == '*' || c == '/' || c == '=' || c == '<' || c == '>' || c == '!'
        || c == '|' || c == '.' || c == '$' || c == '&' || c == '@' || c == '#' || c == '?'
        || c == '~' || c == '^' || c == ':' || c == '%'
}

fn word_is(w: &Vec<char>, k: &[char]) -> (r: bool)
    ensures
        r == (w@ == k@),
{
    if w.len() != k.len() {
        return false;
    }
    let mut i: usize = 0;
    while i < w.len()
        invariant
            w@.len() == k@.len(),
            i <= w@.len(),
            forall|j: int| 0 <= j < i ==> w@[j] == k@[j],
        decreases w@.len() - i,
    {
        if w[i] != k[i] {
            return false;
        }
        i = i + 1;
    }
    assert(w@ =~= k@);
    true
}

fn is_single(w: &Vec<char>, c: char) -> (r: bool)
    ensures
        r == (w@ == seq![c]),
{
    if w.len() == 1 && w[0] == c {
        assert(w@ =~= seq![c]);
        true
    } else {
        false
    }
}

fn keyword_token(w: &Vec<char>) -> (r: Option<TokenType>)
    ensures
        match r {
            Some(t) => keyword(w@) == Some(t@),
            None => keyword(w@) is None,
        },
{
    if word_is(w, &['l', 'e', 't']) {
        Some(TokenType::Let)
    } else if word_is(w, &['f', 'u', 'n']) {
        Some(TokenType::Fun)
    } else if word_is(w, &['t', 'r', 'u', 'e']) {
        Some(TokenType::True)
    } else if word_is(w, &['f', 'a', 'l', 's', 'e']) {
        Some(TokenType::False)
    } else if word_is(w, &['i', 'f']) {
        Some(TokenType::If)
    } else if word_is(w, &['e', 'l', 's', 'e']) {
        Some(TokenType::Else)
    } else if word_is(w, &['w', 'h', 'i', 'l', 'e']) {
        Some(TokenType::While)
    } else if word_is(w, &['r', 'e', 't', 'u', 'r', 'n']) {
        Some(TokenType::Return)
    } else if word_is(w, &['b', 'r', 'e', 'a', 'k']) {
        Some(TokenType::Break)
    } else if word_is(w, &['c', 'o', 'n', 't', 'i', 'n', 'u', 'e']) {
        Some(TokenType::Continue)
    } else if word_is(w, &['i', 'n', 'f', 'i', 'x', 'r']) {
        Some(TokenType::Infixr)
    } else if word_is(w, &['i', 'n', 'f', 'i', 'x', 'l']) {
        Some(TokenType::Infixl)
    } else if word_is(w, &['s', 't', 'r', 'u', 'c', 't']) {
        Some(TokenType::Struct)
    } else if word_is(w, &['i', 'm', 'p', 'l']) {
        Some(TokenType::Impl)
    } else {
        None
    }
}

fn special_token_of(c: char) -> (r: Option<TokenType>)
    ensures
        match r {
            Some(t) => special_token(c) == Some(t@),
            None => special_token(c) is None,
        },
{
    if c == '(' {
        Some(TokenType::LParen)
    } else if c == ')' {
        Some(TokenType::RParen)
    } else if c == '[' {
        Some(TokenType::LBracket)
    } else if c == ']' {
        Some(TokenType::RBracket)
    } else if c == '{' {
        Some(TokenType::LBrace)
    } else if c == '}' {
        Some(TokenType::RBrace)
    } else if c == ';' {
        Some(TokenType::Semicolon)
    } else if c == ',' {
        Some(TokenType::Comma)
    } else {
        None
    }
}

fn is_comment_end(sym: &Vec<char>) -> (r: bool)
    ensures
        r == is_comment_end_symbol(sym@),
{
    let n = sym.len();
    if n < 2 || sym[n - 2] != '*' || sym[n - 1] != '/' {
        return false;
    }
    let mut j: usize = 0;
    while j < n - 2
        invariant
            n == sym@.len(),
            n >= 2,
            j <= n - 2,
            forall|k: int| 0 <= k < j ==> sym@[k] == '*',
        decreases n - 2 - j,
    {
        if sym[j] != '*' {
            return false;
        }
        j = j + 1;
    }
    true
}

fn is_comment_start(sym: &Vec<char>) -> (r: bool)
    ensures
        r == is_comment_start_symbol(sym@),
{
    let n = sym.len();
    if n < 2 || sym[0] != '/' || sym[1] != '*' {
        return false;
    }
    let mut j: usize = 2;
    while j < n
        invariant
            n == sym@.len(),
            2 <= j <= n,
            forall|k: int| 2 <= k < j ==> sym@[k] == '*',
        decreases n - j,
    {
        if sym[j] != '*' {
            return false;
        }
        j = j + 1;
    }
    true
}

fn is_line_comment(sym: &Vec<char>) -> (r: bool)
    ensures
        r == is_line_comment_symbol(sym@),
{
    let n = sym.len();
    if n < 2 {
        return false;
    }
    let mut j: usize = 0;
    while j < n
        invariant
            n == sym@.len(),
            j <= n,
            forall|k: int| 0 <= k < j ==> sym@[k] == '/',
        decreases n - j,
    {
        if sym[j] != '/' {
            return false;
        }
        j = j + 1;
    }
    true
}

proof fn lemma_digits_value_nonneg(s: Seq<char>)
    requires
        forall|j: int| 0 <= j < s.len() ==> is_ascii_digit(#[trigger] s[j]),
    ensures
        digits_value(s) >= 0,
    decreases s.len(),
{
    if s.len() > 0 {
        lemma_digits_value_nonneg(s.drop_last());
    }
}

/// The value of a string of decimal digits, if it fits an `i32`.
fn parse_i32(num: &Vec<char>) -> (r: Option<i32>)
    requires
        forall|j: int| 0 <= j < num@.len() ==> is_ascii_digit(#[trigger] num@[j]),
    ensures
        r == if digits_value(num@) <= i32::MAX { Some(digits_value(num@) as i32) } else { None::<i32> },
{
    // the value so far, or i32::MAX + 1 once it is known not to fit
    let mut acc: u64 = 0;
    let mut i: usize = 0;
    while i < num.len()
        invariant
            i <= num@.len(),
            forall|j: int| 0 <= j < num@.len() ==> is_ascii_digit(#[trigger] num@[j]),
            acc == if digits_value(num@.take(i as int)) <= i32::MAX {
                digits_value(num@.take(i as int))
            } else {
                i32::MAX + 1
            },
        decreases num@.len() - i,
    {
        let d = num[i] as u64 - '0' as u64;
        proof {
            assert(num@.take(i + 1).drop_last() =~= num@.take(i as int));
            lemma_digits_value_nonneg(num@.take(i as int));
        }
        if acc > i32::MAX as u64 {
            acc = i32::MAX as u64 + 1;
        } else {
            acc = acc * 10 + d;
            if acc > i32::MAX as u64 {
                acc = i32::MAX as u64 + 1;
            }
        }
        i = i + 1;
    }
    assert(num@.take(num@.len() as int) =~= num@);
    if acc > i32::MAX as u64 {
        None
    } else {
        Some(acc as i32)
    }
}

/// The state of lexing one piece of code.
pub struct Lexer {
    code: Vec<char>,
    start_idx: usize,
    idx: usize,
    errs: Vec<Error>,
}

impl Lexer {
    pub closed spec fn code(&self) -> Seq<char> {
        self.code@
    }

    pub closed spec fn position(&self) -> int {
        self.idx as int
    }

    pub closed spec fn errors(&self) -> Seq<SpecError> {
        errors_view(self.errs@)
    }

    /// A lexer at the start of `code`, with no errors yet.
    pub fn new(code: &str) -> (l: Self)
        ensures
            l.code() == code@,
            l.position() == 0,
            l.errors() == Seq::<SpecError>::empty(),
    {
        let l = Lexer { code: chars_of_code(code), start_idx: 0, idx: 0, errs: Vec::new() };
        assert(l.errors() =~= Seq::<SpecError>::empty());
        l
    }

    fn is_at_end(&self) -> (r: bool)
        ensures
            r == (self.idx >= self.code@.len()),
    {
        self.idx >= self.code.len()
    }

    fn get_current(&self) -> (c: char)
        requires
            self.idx < self.code@.len(),
        ensures
            c == self.code@[self.idx as int],
    {
        self.code[self.idx]
    }

    fn advance(&mut self)
        requires
            old(self).idx < old(self).code@.len(),
        ensures
            final(self).idx == old(self).idx + 1,
            final(self).code == old(self).code,
            final(self).start_idx == old(self).start_idx,
            final(self).errs == old(self).errs,
    {
        assert(self.code.len() == self.code@.len());
        self.idx = self.idx + 1;
    }

    fn is_char(&self, character: char) -> (r: bool)
        ensures
            r == (self.idx < self.code@.len() && self.code@[self.idx as int] == character),
    {
        if self.is_at_end() {
            false
        } else {
            self.get_current() == character
        }
    }

    fn error(&self, msg: ErrorType) -> (e: Error)
        ensures
            e@ == spec_error(msg@, self.start_idx as int, self.idx as int),
    {
        error_at(msg, self.start_idx, self.idx)
    }
}

/// `r` (the token or error a lexing function gave, and where it left off) is what `st` says.
pub open spec fn step_matches(st: Step, start: int, r: Result<SpecTokenType, SpecError>, idx: int) -> bool {
    &&& idx == st.next
    &&& match r {
        Ok(t) => st.token == Some(t) && st.error is None,
        Err(e) => st.token is None && (st.error matches Some((m, end)) && e == spec_error(m, start, end)),
    }
}

/// The errors after a step that began at `start`.
pub open spec fn errors_after(errs: Seq<SpecError>, st: Step, start: int) -> Seq<SpecError> {
    match st.error {
        Some((e, end)) => errs.push(spec_error(e, start, end)),
        None => errs,
    }
}

impl Lexer {
    spec fn same_input(&self, other: &Lexer) -> bool {
        &&& self.code@ == other.code@
        &&& self.start_idx == other.start_idx
        &&& self.errs@ == other.errs@
    }

    fn lex_number(&mut self) -> (r: Result<TokenType, Error>)
        requires
            old(self).start_idx == old(self).idx,
            old(self).idx < old(self).code@.len(),
            is_ascii_digit(old(self).code@[old(self).idx as int]),
        ensures
            final(self).same_input(old(self)),
            step_matches(
                number_step(old(self).code@, old(self).idx as int),
                old(self).idx as int,
                match r {
                    Ok(t) => Ok(t@),
                    Err(e) => Err(e@),
                },
                final(self).idx as int,
            ),
    {
        let ghost start = self.idx as int;
        let ghost code = self.code@;
        let mut num: Vec<char> = Vec::new();
        let mut is_float = false;
        while !self.is_at_end()
            invariant
                self.same_input(old(self)),
                code == self.code@,
                start == old(self).idx,
                self.start_idx == start,
                start <= self.idx <= code.len(),
                scan_number(code, start, Seq::empty(), false) == scan_number(code, self.idx as int, num@, is_float),
                !is_float ==> forall|j: int| 0 <= j < num@.len() ==> is_ascii_digit(#[trigger] num@[j]),
            decreases code.len() - self.idx,
        {
            let cur = self.get_current();
            if '0' <= cur && cur <= '9' {
                num.push(cur);
            } else if is_alphabetic(cur) {
                return Err(self.error(ErrorType::InvalidDigit(cur)));
            } else if cur == '.' && self.idx < self.code.len() - 1 && !is_symbol(self.code[self.idx + 1]) {
                if is_float {
                    // the span of the error ends at the second point
                    return Err(self.error(ErrorType::TwoDecimalPoints));
                }
                is_float = true;
                num.push('.');
            } else {
                return self.finish_number(&num, is_float);
            }
            self.advance();
        }
        self.finish_number(&num, is_float)
    }

    fn finish_number(&self, num: &Vec<char>, is_float: bool) -> (r: Result<TokenType, Error>)
        requires
            !is_float ==> forall|j: int| 0 <= j < num@.len() ==> is_ascii_digit(#[trigger] num@[j]),
        ensures
            match r {
                Ok(t) => if is_float {
                    t@ == SpecTokenType::Float(num@)
                } else {
                    digits_value(num@) <= i32::MAX && t@ == SpecTokenType::Int(digits_value(num@) as i32)
                },
                Err(e) => !is_float && digits_value(num@) > i32::MAX
                    && e@ == spec_error(SpecErrorType::IntegerOverflow, self.start_idx as int, self.idx as int),
            },
    {
        if is_float {
            Ok(TokenType::Float(string_of(num)))
        } else {
            match parse_i32(num) {
                Some(n) => Ok(TokenType::Int(n)),
                None => Err(self.error(ErrorType::IntegerOverflow)),
            }
        }
    }

    fn lex_identifier(&mut self) -> (s: Vec<char>)
        requires
            old(self).idx <= old(self).code@.len(),
        ensures
            final(self).same_input(old(self)),
            final(self).idx == ident_end(old(self).code@, old(self).idx as int),
            s@ == old(self).code@.subrange(old(self).idx as int, final(self).idx as int),
    {
        let ghost start = self.idx as int;
        let mut s: Vec<char> = Vec::new();
        while !self.is_at_end() && (is_alphanumeric(self.get_current()) || self.get_current() == '_')
            invariant
                self.same_input(old(self)),
                start == old(self).idx,
                start <= self.idx <= self.code@.len(),
                ident_end(self.code@, start) == ident_end(self.code@, self.idx as int),
                s@ == self.code@.subrange(start, self.idx as int),
            decreases self.code@.len() - self.idx,
        {
            s.push(self.get_current());
            self.advance();
            assert(s@ =~= self.code@.subrange(start, self.idx as int));
        }
        s
    }

    fn lex_symbol(&mut self) -> (s: Vec<char>)
        requires
            old(self).idx <= old(self).code@.len(),
        ensures
            final(self).same_input(old(self)),
            final(self).idx == symbol_end(old(self).code@, old(self).idx as int),
            s@ == old(self).code@.subrange(old(self).idx as int, final(self).idx as int),
    {
        let ghost start = self.idx as int;
        let mut s: Vec<char> = Vec::new();
        while !self.is_at_end() && is_symbol(self.get_current())
            invariant
                self.same_input(old(self)),
                start == old(self).idx,
                start <= self.idx <= self.code@.len(),
                symbol_end(self.code@, start) == symbol_end(self.code@, self.idx as int),
                s@ == self.code@.subrange(start, self.idx as int),
            decreases self.code@.len() - self.idx,
        {
            s.push(self.get_current());
            self.advance();
            assert(s@ =~= self.code@.subrange(start, self.idx as int));
        }
        s
    }

    fn lex_string(&mut self) -> (r: Result<String, Error>)
        requires
            old(self).start_idx == old(self).idx,
            old(self).idx < old(self).code@.len(),
            old(self).code@[old(self).idx as int] == '"',
        ensures
            final(self).same_input(old(self)),
            step_matches(
                string_step(old(self).code@, old(self).idx as int),
                old(self).idx as int,
                match r {
                    Ok(s) => Ok(SpecTokenType::String(s@)),
                    Err(e) => Err(e@),
                },
                final(self).idx as int,
            ),
    {
        let ghost start = self.idx as int;
        let ghost code = self.code@;
        let mut s = String::new();
        // move behind the opening quote
        self.advance();
        while !self.is_at_end()
            invariant
                self.same_input(old(self)),
                code == self.code@,
                start == old(self).idx,
                self.start_idx == start,
                start + 1 <= self.idx <= code.len(),
                scan_string(code, start + 1, Seq::empty()) == scan_string(code, self.idx as int, s@),
            decreases code.len() - self.idx,
        {
            let c = self.get_current();
            if c == '"' {
                // move behind the closing quote
                self.advance();
                return Ok(s);
            } else if c == '\n' {
                return Err(self.error(ErrorType::StringEol));
            } else if c == '\\' {
                self.advance();
                if self.is_at_end() {
                    return Err(self.error(ErrorType::StringEof));
                }
                let e = self.get_current();
                let esc = if e == 'n' {
                    '\n'
                } else if e == 't' {
                    '\t'
                } else if e == '"' {
                    '"'
                } else if e == '\'' {
                    '\''
                } else if e == '\\' {
                    '\\'
                } else {
                    return Err(self.error(ErrorType::InvalidEscapeChar(escape_debug(e))));
                };
                push_char(&mut s, esc);
            } else {
                push_char(&mut s, c);
            }
            self.advance();
        }
        Err(self.error(ErrorType::StringEof))
    }

    fn lex_line_comment(&mut self)
        requires
            old(self).idx <= old(self).code@.len(),
        ensures
            final(self).same_input(old(self)),
            final(self).idx == line_comment_end(old(self).code@, old(self).idx as int),
    {
        let ghost start = self.idx as int;
        while !self.is_at_end() && !self.is_char('\n')
            invariant
                self.same_input(old(self)),
                start <= self.idx <= self.code@.len(),
                line_comment_end(self.code@, start) == line_comment_end(self.code@, self.idx as int),
            decreases self.code@.len() - self.idx,
        {
            self.advance();
        }
    }

    fn lex_block_comment(&mut self) -> (r: Result<(), Error>)
        requires
            old(self).idx <= old(self).code@.len(),
        ensures
            final(self).same_input(old(self)),
            match scan_block_comment(old(self).code@, old(self).idx as int, 0) {
                Some(n) => r is Ok && final(self).idx == n,
                None => final(self).idx == old(self).code@.len() && (r matches Err(e) && e@ == spec_error(
                    SpecErrorType::CommentEof,
                    old(self).start_idx as int,
                    old(self).code@.len() as int,
                )),
            },
    {
        let ghost start = self.idx as int;
        let ghost code = self.code@;
        let mut state: u8 = 0;
        while !self.is_at_end()
            invariant
                self.same_input(old(self)),
                code == self.code@,
                start == old(self).idx,
                start <= self.idx <= code.len(),
                scan_block_comment(code, start, 0) == scan_block_comment(code, self.idx as int, state as int),
            decreases code.len() - self.idx,
        {
            let c = self.get_current();
            // could be the end of the comment
            if c == '*' && state <= 1 {
                state = 1;
            } else if state == 1 && c == '/' {
                state = 2;
            } else if state == 2 && !is_symbol(c) {
                // the end of the comment
                self.advance();
                return Ok(());
            } else if state > 0 {
                // not the end of the comment after all
                state = 0;
            } else if is_symbol(c) {
                // a star right after another symbol character does not start the end
                state = 5;
            }
            self.advance();
        }
        // the end of the comment may be the last thing in the code
        if state == 2 {
            return Ok(());
        }
        Err(self.error(ErrorType::CommentEof))
    }
}

impl Lexer {
    /// Lexes what begins at the current position: gives its token, if any, records its error,
    /// if any, and moves to where the next one begins.
    fn lex_step(&mut self) -> (r: Option<TokenType>)
        requires
            old(self).idx < old(self).code@.len(),
        ensures
            final(self).code@ == old(self).code@,
            final(self).start_idx == old(self).idx,
            final(self).idx == step(old(self).code@, old(self).idx as int).next,
            errors_view(final(self).errs@) == errors_after(
                errors_view(old(self).errs@),
                step(old(self).code@, old(self).idx as int),
                old(self).idx as int,
            ),
            match r {
                Some(t) => step(old(self).code@, old(self).idx as int).token == Some(t@),
                None => step(old(self).code@, old(self).idx as int).token is None,
            },
    {
        let ghost code = self.code@;
        let ghost start = self.idx as int;
        let ghost old_errs = errors_view(self.errs@);
        self.start_idx = self.idx;
        let c = self.get_current();
        if c == ' ' || c == '\t' || c == '\n' {
            self.advance();
            return None;
        }
        if c == '"' {
            match self.lex_string() {
                Ok(s) => {
                    return Some(TokenType::String(s));
                },
                Err(err) => {
                    self.errs.push(err);
                    assert(errors_view(self.errs@) =~= old_errs.push(err@));
                    return None;
                },
            }
        }
        if '0' <= c && c <= '9' {
            match self.lex_number() {
                Ok(n) => {
                    return Some(n);
                },
                Err(err) => {
                    self.errs.push(err);
                    assert(errors_view(self.errs@) =~= old_errs.push(err@));
                    return None;
                },
            }
        }
        if is_alphabetic(c) || c == '_' {
            let ident = self.lex_identifier();
            return match keyword_token(&ident) {
                Some(k) => Some(k),
                None => Some(TokenType::Identifier(string_of(&ident))),
            };
        }
        match special_token_of(c) {
            Some(t) => {
                self.advance();
                return Some(t);
            },
            None => {},
        }
        if is_symbol(c) {
            let sym = self.lex_symbol();
            proof {
                lemma_symbol_end(code, start);
            }
            if is_single(&sym, '=') {
                return Some(TokenType::Equals);
            } else if is_single(&sym, '?') {
                return Some(TokenType::QuestionMark);
            } else if is_single(&sym, '.') {
                return Some(TokenType::Dot);
            } else if is_single(&sym, '|') {
                return Some(TokenType::Pipe);
            } else if is_comment_end(&sym) {
                // the span of the error ends at the symbol's last character
                let err = error_at(ErrorType::CommentSymbol, self.start_idx, self.idx - 1);
                self.errs.push(err);
                assert(errors_view(self.errs@) =~= old_errs.push(err@));
                return None;
            } else if is_comment_start(&sym) {
                // a block comment: `/*` followed by stars only
                match self.lex_block_comment() {
                    Ok(()) => {},
                    Err(err) => {
                        self.errs.push(err);
                        assert(errors_view(self.errs@) =~= old_errs.push(err@));
                    },
                }
                return None;
            } else if is_line_comment(&sym) {
                // a line comment; "//-" and the like are operators
                self.lex_line_comment();
                return None;
            } else {
                return Some(TokenType::Symbol(string_of(&sym)));
            }
        }
        let err = self.error(ErrorType::UnknownCharacter(c));
        self.errs.push(err);
        assert(errors_view(self.errs@) =~= old_errs.push(err@));
        self.advance();
        None
    }

    /// Lexes the rest of the code: its tokens followed by an end-of-file token, or `Err(())` when
    /// any error was found, the errors being left in the lexer.
    pub fn lex(&mut self) -> (r: Result<Vec<Token>, ()>)
        requires
            old(self).position() <= old(self).code().len(),
        ensures
            final(self).code() == old(self).code(),
            final(self).errors() == old(self).errors() + lex_from(old(self).code(), old(self).position()).1,
            match r {
                Ok(t) => final(self).errors().len() == 0 && tokens_view(t@) == lex_from(
                    old(self).code(),
                    old(self).position(),
                ).0.push(
                    Located {
                        val: SpecTokenType::Eof,
                        loc: Location {
                            start: old(self).code().len() as usize,
                            end: old(self).code().len() as usize,
                        },
                    },
                ),
                Err(()) => final(self).errors().len() > 0,
            },
    {
        let ghost code = self.code@;
        let ghost start = self.idx as int;
        let ghost old_errs = errors_view(self.errs@);
        let mut tokens: Vec<Token> = Vec::new();
        while !self.is_at_end()
            invariant
                code == self.code@,
                start <= self.idx <= code.len(),
                lex_from(code, start).0 == tokens_view(tokens@) + lex_from(code, self.idx as int).0,
                old_errs + lex_from(code, start).1 == errors_view(self.errs@) + lex_from(code, self.idx as int).1,
            decreases code.len() - self.idx,
        {
            let ghost i = self.idx as int;
            let ghost pre_tokens = tokens_view(tokens@);
            let ghost pre_errs = errors_view(self.errs@);
            proof {
                lemma_step_progress(code, i);
            }
            let t = self.lex_step();
            match t {
                Some(typ) => {
                    let tok = Located { val: typ, loc: Location { start: self.start_idx, end: self.idx - 1 } };
                    tokens.push(tok);
                    assert(tokens_view(tokens@) =~= pre_tokens.push(tok@));
                },
                None => {},
            }
            proof {
                let st = step(code, i);
                let rest = lex_from(code, st.next);
                match st.token {
                    Some(tk) => {
                        assert(pre_tokens.push(Located { val: tk, loc: Location { start: i as usize, end: (st.next - 1) as usize } }) + rest.0
                            =~= pre_tokens + (seq![Located { val: tk, loc: Location { start: i as usize, end: (st.next - 1) as usize } }] + rest.0));
                    },
                    None => {},
                }
                match st.error {
                    Some((e, end)) => {
                        assert(pre_errs.push(spec_error(e, i, end)) + rest.1 =~= pre_errs + (seq![spec_error(e, i, end)] + rest.1));
                    },
                    None => {},
                }
            }
        }
        let end = self.idx;
        tokens.push(Located { val: TokenType::Eof, loc: Location { start: end, end } });
        proof {
            assert(lex_from(code, self.idx as int).0 =~= Seq::<SpecToken>::empty());
            assert(lex_from(code, self.idx as int).1 =~= Seq::<SpecError>::empty());
            assert(tokens_view(tokens@) =~= lex_from(code, start).0.push(
                Located { val: SpecTokenType::Eof, loc: Location { start: code.len() as usize, end: code.len() as usize } },
            ));
        }
        if self.errs.len() == 0 {
            Ok(tokens)
        } else {
            // the errors stay in the lexer, for the caller to take out
            Err(())
        }
    }
}

/// Lexes `code` into its tokens, the last one marking the end of the code, or gives all the
/// errors found.
pub fn lex(code: &str) -> (r: Result<Vec<Token>, Vec<Error>>)
    ensures
        match r {
            Ok(t) => spec_lex(code@) == Ok::<Seq<SpecToken>, Seq<SpecError>>(tokens_view(t@)),
            Err(e) => spec_lex(code@) == Err::<Seq<SpecToken>, Seq<SpecError>>(errors_view(e@)),
        },
{
    let mut lexer = Lexer::new(code);
    match lexer.lex() {
        Ok(tok) => {
            assert(lex_from(code@, 0).1 =~= lexer.errors());
            Ok(tok)
        },
        Err(()) => {
            assert(lex_from(code@, 0).1 =~= lexer.errors());
            Err(lexer.errs)
        },
    }
}

/// The characters of the code.
fn chars_of_code(code: &str) -> (v: Vec<char>)
    ensures
        v@ == code@,
{
    super::chars::chars_of(code)
}

} // verus!

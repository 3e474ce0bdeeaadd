//! The lexer as functions of its state: what each step reads, what it produces and where
//! it leaves the reader.
use vstd::prelude::*;
use crate::int_parse::{char_codes, int_error_message, spec_parse_int};
use crate::lex::{IndentationLevel, LevelOrdering, LexicalErrorType};
use crate::text_range::TextRange;
use crate::text_size::{utf8_len, TextSize};
use crate::token::{
    prefix_error_message, spec_keyword, spec_kind_of_prefix, spec_kind_of_prefix_pair,
    spec_prefix_len, StringKind, Token, TokenView,
};
use crate::unicode::{emoji_presentation, xid_continue, xid_start};

verus! {

/// The character at index `i`, if there is one.
pub open spec fn ch(s: Seq<char>, i: int) -> Option<char> {
    if 0 <= i < s.len() {
        Some(s[i])
    } else {
        None
    }
}

/// The position after one step of the reader: one character on, and past a `\r` that
/// stands before a `\n`.
pub open spec fn adv(s: Seq<char>, p: nat) -> nat {
    let p1: nat = if p < s.len() { p + 1 } else { p };
    if ch(s, p1 as int) == Some('\r') && ch(s, p1 as int + 1) == Some('\n') {
        p1 + 1
    } else {
        p1
    }
}

/// The position after `n` steps of the reader.
pub open spec fn adv_n(s: Seq<char>, p: nat, n: nat) -> nat
    decreases n,
{
    if n == 0 {
        p
    } else {
        adv_n(s, adv(s, p), (n - 1) as nat)
    }
}

/// The reader's byte cursor at position `p`: the UTF-8 length of everything up to the end
/// of its three-character window.
pub open spec fn cursor_at(s: Seq<char>, p: nat) -> nat {
    if p + 3 <= s.len() {
        utf8_len(s.take(p as int + 3))
    } else {
        utf8_len(s)
    }
}

/// The characters a Python identifier may start with.
pub open spec fn is_ident_start(c: char) -> bool {
    ('a' <= c <= 'z') || ('A' <= c <= 'Z') || c == '_' || xid_start(c)
}

/// The characters a Python identifier may continue with.
pub open spec fn is_ident_continue(c: char) -> bool {
    ('a' <= c <= 'z') || ('A' <= c <= 'Z') || c == '_' || ('0' <= c <= '9') || xid_continue(c)
}

/// The digits the lexer accepts for each radix.
pub open spec fn spec_is_digit_of_radix(c: char, radix: u32) -> bool {
    if radix == 2 {
        '0' <= c <= '1'
    } else if radix == 8 {
        '0' <= c <= '8'
    } else if radix == 10 {
        '0' <= c <= '9'
    } else {
        ('0' <= c <= '9') || ('a' <= c <= 'f') || ('A' <= c <= 'F')
    }
}

pub open spec fn supported_radix(radix: u32) -> bool {
    radix == 2 || radix == 8 || radix == 10 || radix == 16
}

/// An error of a lexer, with its text as a character sequence.
pub enum ErrorKindView {
    Other(Seq<char>),
    DuplicateArgument(Seq<char>),
    DuplicateKeywordArgument(Seq<char>),
    /// An error without text.
    Plain(LexicalErrorType),
}

pub struct ErrorView {
    pub error: ErrorKindView,
    pub location: nat,
}

pub type SpanView = (TokenView, TextRange);

pub type ResultView = Result<SpanView, ErrorView>;

/// The range between the cursors at `p` and `q`.
pub open spec fn range_between(s: Seq<char>, p: nat, q: nat) -> TextRange {
    TextRange {
        start: TextSize { raw: cursor_at(s, p) as u32 },
        end: TextSize { raw: cursor_at(s, q) as u32 },
    }
}

/// The empty range at the cursor at `p`.
pub open spec fn range_at(s: Seq<char>, p: nat) -> TextRange {
    range_between(s, p, p)
}

pub open spec fn span(t: TokenView, s: Seq<char>, p: nat, q: nat) -> SpanView {
    (t, range_between(s, p, q))
}

pub open spec fn other_error(msg: Seq<char>, s: Seq<char>, p: nat) -> ErrorView {
    ErrorView { error: ErrorKindView::Other(msg), location: cursor_at(s, p) }
}

pub open spec fn plain_error(e: LexicalErrorType, s: Seq<char>, p: nat) -> ErrorView {
    ErrorView { error: ErrorKindView::Plain(e), location: cursor_at(s, p) }
}

/* Comments */

/// The text of a comment from `p` to the end of its line, and where the line ends.
pub open spec fn comment_scan(s: Seq<char>, p: nat) -> (Seq<char>, nat)
    decreases s.len() - p,
{
    if p >= s.len() || s[p as int] == '\n' || s[p as int] == '\r' {
        (Seq::empty(), p)
    } else {
        let rest = comment_scan(s, adv(s, p));
        (seq![s[p as int]] + rest.0, rest.1)
    }
}

pub proof fn lemma_comment_scan_bounds(s: Seq<char>, p: nat)
    requires
        p <= s.len(),
    ensures
        p <= comment_scan(s, p).1 <= s.len(),
    decreases s.len() - p,
{
    if !(p >= s.len() || s[p as int] == '\n' || s[p as int] == '\r') {
        lemma_comment_scan_bounds(s, adv(s, p));
    }
}

/// A comment that starts with the `#` at `p`: its text, `#` included, up to the end of
/// its line.
pub open spec fn spec_lex_comment(s: Seq<char>, p: nat) -> (SpanView, nat) {
    let (text, e) = comment_scan(s, p);
    (span(TokenView::Comment(text), s, p, e), e)
}

/* Identifiers */

/// The name read from `p`: characters are taken while a next one follows, until one that
/// cannot continue a name has been seen.
pub open spec fn ident_scan(s: Seq<char>, p: nat) -> (Seq<char>, nat)
    decreases s.len() - p,
{
    if p + 1 < s.len() {
        let q = adv(s, p);
        if !is_ident_continue(s[p as int + 1]) {
            (seq![s[p as int]], q)
        } else {
            let rest = ident_scan(s, q);
            (seq![s[p as int]] + rest.0, rest.1)
        }
    } else {
        (Seq::empty(), p)
    }
}

/// An identifier or keyword from `p`.
pub open spec fn spec_lex_ident(s: Seq<char>, p: nat) -> (SpanView, nat) {
    let (name, e) = ident_scan(s, p);
    let t = match spec_keyword(name) {
        Some(k) => TokenView::Plain(k),
        None => TokenView::Name(name),
    };
    (span(t, s, p, e), e)
}

/* Numbers */

/// The digits of a run from `p` (underscores between digits dropped) and where it ends,
/// or the position of an underscore that no digit follows.
pub open spec fn radix_run(s: Seq<char>, p: nat, radix: u32) -> Result<(Seq<char>, nat), nat>
    decreases s.len() - p,
{
    if p < s.len() && spec_is_digit_of_radix(s[p as int], radix) {
        let q = adv(s, p);
        if p + 1 < s.len() {
            let c2 = s[p as int + 1];
            if !spec_is_digit_of_radix(c2, radix) && c2 != '_' {
                Ok((seq![s[p as int]], q))
            } else {
                match radix_run(s, q, radix) {
                    Ok((t, e)) => Ok((seq![s[p as int]] + t, e)),
                    Err(e) => Err(e),
                }
            }
        } else {
            Ok((seq![s[p as int]], q))
        }
    } else if p < s.len() && s[p as int] == '_' {
        if p + 1 < s.len() && spec_is_digit_of_radix(s[p as int + 1], radix) {
            radix_run(s, adv(s, p), radix)
        } else {
            Err(p)
        }
    } else {
        Ok((Seq::empty(), p))
    }
}

pub open spec fn numeric_end_error(s: Seq<char>, p: nat) -> ErrorView {
    other_error("Numeric can't end with _"@, s, p)
}

pub open spec fn exponent_message() -> Seq<char> {
    "exponential numeric literal must be followed by an integer"@
}

/// An integer in radix 16, 8 or 2 whose prefix starts at `p`.
pub open spec fn number_radix(s: Seq<char>, p: nat, radix: u32) -> (ResultView, nat) {
    match radix_run(s, adv_n(s, p, 2), radix) {
        Err(e) => (Err(numeric_end_error(s, e)), e),
        Ok((text, q)) => match spec_parse_int(char_codes(text), radix as nat, i64::MIN as int, i64::MAX as int) {
            Ok(v) => (Ok(span(TokenView::Int(v as i64), s, p, q)), q),
            Err(k) => (Err(other_error(int_error_message(k), s, q)), q),
        },
    }
}

/// The token of a decimal number whose text is `text`, from `p` to `q`.
pub open spec fn number_finish(s: Seq<char>, p: nat, text: Seq<char>, q: nat, is_float: bool) -> (
    ResultView,
    nat,
) {
    if ch(s, q as int) == Some('j') || ch(s, q as int) == Some('J') {
        let e = adv(s, q);
        (Ok(span(TokenView::Complex(text), s, p, e)), e)
    } else if is_float {
        (Ok(span(TokenView::Float(text), s, p, q)), q)
    } else if ch(s, p as int) == Some('0') && text.len() > 1 {
        (Err(other_error("An integer can't have a leading 0"@, s, q)), q)
    } else {
        match spec_parse_int(char_codes(text), 10, i64::MIN as int, i64::MAX as int) {
            Ok(v) => (Ok(span(TokenView::Int(v as i64), s, p, q)), q),
            Err(k) => (
                Err(other_error("Could not parse integer: "@ + int_error_message(k), s, q)),
                q,
            ),
        }
    }
}

/// The exponent part of a decimal number at `q`, after the text `text`; `None` where the
/// location of its error does not fit a `u32`.
pub open spec fn number_exponent(s: Seq<char>, p: nat, text: Seq<char>, q: nat, is_float: bool) -> Option<
    (ResultView, nat),
> {
    let w0 = ch(s, q as int);
    let w1 = ch(s, q as int + 1);
    let is_e = w0 == Some('e') || w0 == Some('E');
    if is_e && w1 is None {
        Some((Err(other_error("Invalid underscore"@, s, q)), q))
    } else if is_e && (w1 == Some('+') || w1 == Some('-')) {
        let qa = adv(s, q);
        let qb = adv(s, qa);
        let t = text.push(w0->0).push(w1->0);
        match ch(s, qb as int) {
            None => Some((Err(other_error(exponent_message(), s, qb)), qb)),
            Some(c) => if !spec_is_digit_of_radix(c, 10) {
                Some((Err(other_error(exponent_message(), s, qb)), qb))
            } else {
                match radix_run(s, qb, 10) {
                    Err(e) => Some((Err(numeric_end_error(s, e)), e)),
                    Ok((t3, q3)) => Some(number_finish(s, p, t + t3, q3, true)),
                }
            },
        }
    } else if is_e {
        if !spec_is_digit_of_radix(w1->0, 10) {
            if cursor_at(s, q) + 2 > u32::MAX {
                None
            } else {
                Some(
                    (
                        Err(
                            ErrorView {
                                error: ErrorKindView::Other(exponent_message()),
                                location: cursor_at(s, q) + 2,
                            },
                        ),
                        q,
                    ),
                )
            }
        } else {
            match radix_run(s, adv(s, q), 10) {
                Err(e) => Some((Err(numeric_end_error(s, e)), e)),
                Ok((t3, q3)) => Some(number_finish(s, p, text.push('e') + t3, q3, true)),
            }
        }
    } else {
        Some(number_finish(s, p, text, q, is_float))
    }
}

/// A decimal number from `p`: digits, an optional fraction, an optional exponent and an
/// optional imaginary suffix.
pub open spec fn number_decimal(s: Seq<char>, p: nat) -> Option<(ResultView, nat)> {
    match radix_run(s, p, 10) {
        Err(e) => Some((Err(numeric_end_error(s, e)), e)),
        Ok((t1, q1)) => {
            if ch(s, q1 as int) == Some('.') && ch(s, q1 as int + 1) == Some('_') {
                Some((Err(other_error("Invalid underscore"@, s, q1)), q1))
            } else if ch(s, q1 as int) == Some('.') && ch(s, q1 as int + 1) is Some
                && spec_is_digit_of_radix(ch(s, q1 as int + 1)->0, 10) {
                match radix_run(s, adv(s, q1), 10) {
                    Err(e) => Some((Err(numeric_end_error(s, e)), e)),
                    Ok((t2, q2)) => number_exponent(s, p, t1.push('.') + t2, q2, true),
                }
            } else if ch(s, q1 as int) == Some('.') {
                number_exponent(s, p, t1.push('.'), adv(s, q1), true)
            } else {
                number_exponent(s, p, t1, q1, false)
            }
        },
    }
}

/// A number from the digit at `p`; `None` where the location of an exponent error would
/// not fit a `u32`.
pub open spec fn spec_lex_number(s: Seq<char>, p: nat) -> Option<(ResultView, nat)> {
    let w0 = ch(s, p as int);
    let w1 = ch(s, p as int + 1);
    if w0 == Some('0') && (w1 == Some('x') || w1 == Some('X')) {
        Some(number_radix(s, p, 16))
    } else if w0 == Some('0') && (w1 == Some('o') || w1 == Some('O')) {
        Some(number_radix(s, p, 8))
    } else if w0 == Some('0') && (w1 == Some('b') || w1 == Some('B')) {
        Some(number_radix(s, p, 2))
    } else {
        number_decimal(s, p)
    }
}

/* Strings */

/// The content of a string from `q` up to its closing quote, and the position after the
/// closing quote, or the error that ends the string first.
/// - The quote closes the string (a triple-quoted one too, whose closing reads on over three
///   characters).
/// - A line break ends a one-quote string with an error.
/// - A backslash is kept with the character after it, and that character is then looked at
///   again where it is a quote, a backslash or a line break that ends the string; another
///   character is read past. Where no character follows a backslash, the string ends there:
///   closed if the backslash is its quote, an error otherwise.
/// - Any other character is content.
pub open spec fn string_scan(s: Seq<char>, q: nat, quote: char, triple: bool) -> (
    Result<Seq<char>, ErrorView>,
    nat,
)
    decreases s.len() - q,
{
    if q >= s.len() {
        (
            Err(
                plain_error(
                    if triple {
                        LexicalErrorType::Eof
                    } else {
                        LexicalErrorType::StringError
                    },
                    s,
                    q,
                ),
            ),
            q,
        )
    } else {
        let c = s[q as int];
        let q1 = adv(s, q);
        if c == '\\' {
            match ch(s, q1 as int) {
                Some(nc) => {
                    let again = nc == '\\' || nc == quote || (nc == '\n' && !triple);
                    let (r, e) = string_scan(s, if again { q1 } else { adv(s, q1) }, quote, triple);
                    (
                        match r {
                            Ok(v) => Ok(seq!['\\', nc] + v),
                            Err(x) => Err(x),
                        },
                        e,
                    )
                },
                None => if quote == '\\' {
                    (Ok(Seq::empty()), adv_n(s, q1, if triple { 3 } else { 1 }))
                } else {
                    string_scan(s, q1, quote, triple)
                },
            }
        } else if c == '\n' && !triple {
            (Err(other_error("EOL while scanning string literal"@, s, q)), q)
        } else if c == quote {
            (Ok(Seq::empty()), adv_n(s, q, if triple { 3 } else { 1 }))
        } else {
            let (r, e) = string_scan(s, q1, quote, triple);
            (
                match r {
                    Ok(v) => Ok(seq![c] + v),
                    Err(x) => Err(x),
                },
                e,
            )
        }
    }
}

/// A string of kind `kind` whose prefix starts at `p`; `None` where no character follows
/// the prefix to open it.
pub open spec fn spec_lex_string(s: Seq<char>, p: nat, kind: StringKind) -> Option<(ResultView, nat)> {
    let p0 = adv_n(s, p, spec_prefix_len(kind));
    match ch(s, p0 as int) {
        None => None,
        Some(quote) => {
            let triple = ch(s, p0 as int + 1) == Some(quote) && ch(s, p0 as int + 2) == Some(quote);
            let q = adv_n(s, p0, if triple { 3 } else { 1 });
            match string_scan(s, q, quote, triple) {
                (Err(e), e_pos) => Some((Err(e), e_pos)),
                (Ok(v), e) => Some((Ok(span(TokenView::Str(v, kind, triple), s, p, e)), e)),
            }
        },
    }
}

pub open spec fn is_quote(c: Option<char>) -> bool {
    c == Some('"') || c == Some('\'')
}

/// A string with a one- or two-character prefix at `p`: `Some(None)` where no quote follows
/// such a prefix; `None` where no character follows the prefix (which a quote always does
/// here).
pub open spec fn spec_try_lex_tagged_string(s: Seq<char>, p: nat) -> Option<Option<(ResultView, nat)>> {
    let w0 = ch(s, p as int);
    let w1 = ch(s, p as int + 1);
    let w2 = ch(s, p as int + 2);
    if w0 is Some && is_quote(w1) {
        match spec_kind_of_prefix(w0->0) {
            Some(k) => match spec_lex_string(s, p, k) {
                None => None,
                Some(r) => Some(Some(r)),
            },
            None => Some(Some((Err(other_error(prefix_error_message(seq![w0->0]), s, p)), p))),
        }
    } else if w0 is Some && w1 is Some && is_quote(w2) {
        match spec_kind_of_prefix_pair(w0->0, w1->0) {
            Some(k) => match spec_lex_string(s, p, k) {
                None => None,
                Some(r) => Some(Some(r)),
            },
            None => Some(
                Some((Err(other_error(prefix_error_message(seq![w0->0, w1->0]), s, p)), p)),
            ),
        }
    } else {
        Some(None)
    }
}

/* Operators and the rest of the characters */

/// The operator tokens that need no state, with the number of characters each takes.
pub open spec fn spec_operator(w0: Option<char>, w1: Option<char>, w2: Option<char>) -> Option<(Token, nat)> {
    match (w0, w1, w2) {
        (Some('='), Some('='), _) => Some((Token::EqEqual, 2)),
        (Some('='), _, _) => Some((Token::Equal, 1)),
        (Some('+'), Some('='), _) => Some((Token::PlusEqual, 2)),
        (Some('+'), _, _) => Some((Token::Plus, 1)),
        (Some('*'), Some('*'), Some('=')) => Some((Token::DoubleStarEqual, 3)),
        (Some('*'), Some('*'), _) => Some((Token::DoubleStar, 2)),
        (Some('*'), Some('='), _) => Some((Token::StarEqual, 2)),
        (Some('*'), _, _) => Some((Token::Star, 1)),
        (Some('/'), Some('/'), Some('=')) => Some((Token::DoubleSlashEqual, 3)),
        (Some('/'), Some('/'), _) => Some((Token::DoubleSlash, 2)),
        (Some('/'), Some('='), _) => Some((Token::SlashEqual, 2)),
        (Some('/'), _, _) => Some((Token::Slash, 1)),
        (Some('%'), Some('='), _) => Some((Token::PercentEqual, 2)),
        (Some('%'), _, _) => Some((Token::Percent, 1)),
        (Some('|'), Some('='), _) => Some((Token::VbarEqual, 2)),
        (Some('|'), _, _) => Some((Token::Vbar, 1)),
        (Some('^'), Some('='), _) => Some((Token::CircumflexEqual, 2)),
        (Some('^'), _, _) => Some((Token::CircumFlex, 1)),
        (Some('&'), Some('='), _) => Some((Token::AmperEqual, 2)),
        (Some('&'), _, _) => Some((Token::Amper, 1)),
        (Some('-'), Some('='), _) => Some((Token::MinusEqual, 2)),
        (Some('-'), Some('>'), _) => Some((Token::Rarrow, 2)),
        (Some('-'), _, _) => Some((Token::Minus, 1)),
        (Some('@'), Some('='), _) => Some((Token::AtEqual, 2)),
        (Some('@'), _, _) => Some((Token::At, 1)),
        (Some('!'), Some('='), _) => Some((Token::NotEqual, 2)),
        (Some('~'), _, _) => Some((Token::Tilde, 1)),
        (Some(':'), Some('='), _) => Some((Token::ColonEqual, 2)),
        (Some(':'), _, _) => Some((Token::Colon, 1)),
        (Some(';'), _, _) => Some((Token::Semi, 1)),
        (Some('<'), Some('<'), Some('=')) => Some((Token::LeftShiftEqual, 3)),
        (Some('<'), Some('<'), _) => Some((Token::LeftShift, 2)),
        (Some('<'), Some('='), _) => Some((Token::LessEqual, 2)),
        (Some('<'), _, _) => Some((Token::Less, 1)),
        (Some('>'), Some('>'), Some('=')) => Some((Token::RightShiftEqual, 3)),
        (Some('>'), Some('>'), _) => Some((Token::RightShift, 2)),
        (Some('>'), Some('='), _) => Some((Token::GreaterEqual, 2)),
        (Some('>'), _, _) => Some((Token::Greater, 1)),
        (Some(','), _, _) => Some((Token::Comma, 1)),
        (Some('.'), Some('.'), Some('.')) => Some((Token::Ellipsis, 3)),
        (Some('.'), _, _) => Some((Token::Dot, 1)),
        _ => None,
    }
}

/// The end of a run of blanks (spaces, tabs and form feeds) from `p`.
pub open spec fn blank_scan(s: Seq<char>, p: nat) -> nat
    decreases s.len() - p,
{
    if p < s.len() && (s[p as int] == ' ' || s[p as int] == '\t' || s[p as int] == '\x0c') {
        blank_scan(s, adv(s, p))
    } else {
        p
    }
}

/// The abstract state of a lexer.
pub struct LexerView {
    pub src: Seq<char>,
    pub pos: nat,
    pub at_begin_of_line: bool,
    pub nesting: nat,
    pub indents: Seq<IndentationLevel>,
    pub queue: Seq<SpanView>,
}

impl LexerView {
    pub open spec fn at(self, p: nat) -> LexerView {
        LexerView { pos: p, ..self }
    }

    pub open spec fn push(self, t: SpanView) -> LexerView {
        LexerView { queue: self.queue.push(t), ..self }
    }

    pub open spec fn cursor(self) -> nat {
        cursor_at(self.src, self.pos)
    }

    pub open spec fn window(self, k: int) -> Option<char> {
        ch(self.src, self.pos as int + k)
    }
}

/// The token after a single character at `p`, one character long.
pub open spec fn single(v: LexerView, t: Token) -> (ResultView, LexerView) {
    let e = adv(v.src, v.pos);
    (Ok(span(TokenView::Plain(t), v.src, v.pos, e)), v.at(e))
}

/// One token from a character that starts no name; `None` at the end of the source and
/// where a number is not defined.
pub open spec fn spec_lex_next(v: LexerView) -> Option<(ResultView, LexerView)> {
    let s = v.src;
    let p = v.pos;
    let w0 = v.window(0);
    let w1 = v.window(1);
    let w2 = v.window(2);
    match w0 {
        None => None,
        Some(c) => if '0' <= c <= '9' {
            match spec_lex_number(s, p) {
                None => None,
                Some((r, e)) => Some((r, v.at(e))),
            }
        } else if c == '#' {
            let (t, e) = spec_lex_comment(s, p);
            Some((Ok(t), v.at(e)))
        } else if c == '"' || c == '\'' {
            match spec_lex_string(s, p, StringKind::String) {
                None => None,
                Some((r, e)) => Some((r, v.at(e))),
            }
        } else if spec_operator(w0, w1, w2) is Some {
            let (t, n) = spec_operator(w0, w1, w2)->0;
            let e = adv_n(s, p, n);
            Some((Ok(span(TokenView::Plain(t), s, p, e)), v.at(e)))
        } else if c == '!' {
            Some((Err(plain_error(LexicalErrorType::UnrecognizedToken { tok: '!' }, s, p)), v))
        } else if c == '(' || c == '[' || c == '{' {
            let t = if c == '(' {
                Token::Lpar
            } else if c == '[' {
                Token::Lsqb
            } else {
                Token::Lbrace
            };
            Some(single(LexerView { nesting: v.nesting + 1, ..v }, t))
        } else if c == ')' || c == ']' || c == '}' {
            if v.nesting == 0 {
                Some((Err(plain_error(LexicalErrorType::NestingError, s, p)), v))
            } else {
                let t = if c == ')' {
                    Token::Rpar
                } else if c == ']' {
                    Token::Rsqb
                } else {
                    Token::Rbrace
                };
                Some(single(LexerView { nesting: (v.nesting - 1) as nat, ..v }, t))
            }
        } else if c == '\n' || c == '\r' {
            if v.nesting == 0 {
                Some(single(LexerView { at_begin_of_line: true, ..v }, Token::Newline))
            } else {
                Some(single(v, Token::NonLogicalNewline))
            }
        } else if c == ' ' || c == '\t' || c == '\x0c' {
            let e = blank_scan(s, p);
            Some((Ok(span(TokenView::Plain(Token::WhiteSpace), s, p, e)), v.at(e)))
        } else if c == '\\' && (w1 == Some('\n') || w1 == Some('\r')) {
            Some((Err(plain_error(LexicalErrorType::LineContinuationError, s, p)), v))
        } else if c == '\\' && w1 is None {
            Some((Err(plain_error(LexicalErrorType::Eof, s, p)), v))
        } else if emoji_presentation(c) {
            let e = adv(s, p);
            Some((Ok(span(TokenView::Name(seq![c]), s, p, e)), v.at(e)))
        } else {
            Some((Err(plain_error(LexicalErrorType::UnrecognizedToken { tok: c }, s, p)), v))
        },
    }
}

/// `n` dedent tokens at the cursor at `p`.
pub open spec fn dedents(s: Seq<char>, p: nat, n: nat) -> Seq<SpanView> {
    Seq::new(n, |i: int| (TokenView::Plain(Token::Dedent), range_at(s, p)))
}

/// One step of filling the queue: a name, a tagged string or another token, or at the end
/// of the source the closing tokens; `None` where a number is not defined.
pub open spec fn spec_populate(v: LexerView) -> Option<(Result<(), ErrorView>, LexerView)> {
    let s = v.src;
    let p = v.pos;
    match v.window(0) {
        Some(c) => if is_ident_start(c) {
            match spec_try_lex_tagged_string(s, p) {
                None => None,
                Some(Some((Err(e), q))) => Some((Err(e), v.at(q))),
                Some(Some((Ok(t), q))) => Some((Ok(()), v.at(q).push(t))),
                Some(None) => {
                    let (t, q) = spec_lex_ident(s, p);
                    Some((Ok(()), v.at(q).push(t)))
                },
            }
        } else {
            match spec_lex_next(v) {
                None => None,
                Some((Err(e), v2)) => Some((Err(e), v2)),
                Some((Ok(t), v2)) => if t.0 == TokenView::Plain(Token::WhiteSpace) {
                    Some((Ok(()), v2))
                } else {
                    Some((Ok(()), v2.push(t)))
                },
            }
        },
        None => if v.nesting > 0 {
            Some((Err(plain_error(LexicalErrorType::Eof, s, p)), v))
        } else {
            let v1 = if !v.at_begin_of_line {
                LexerView { at_begin_of_line: true, ..v }.push(
                    (TokenView::Plain(Token::Newline), range_at(s, p)),
                )
            } else {
                v
            };
            let v2 = LexerView {
                indents: v1.indents.take(1),
                queue: v1.queue + dedents(s, p, (v1.indents.len() - 1) as nat),
                ..v1
            };
            Some((Ok(()), v2.push((TokenView::Plain(Token::EndOfFile), range_at(s, p)))))
        },
    }
}

/* Indentation */

pub open spec fn zero_level() -> IndentationLevel {
    IndentationLevel { tabs: 0, spaces: 0 }
}

/// Compares two indentations by tabs, then spaces; `None` where the two orders disagree.
pub open spec fn compare_levels(a: IndentationLevel, b: IndentationLevel) -> Option<LevelOrdering> {
    if a.tabs < b.tabs {
        if a.spaces <= b.spaces {
            Some(LevelOrdering::Less)
        } else {
            None
        }
    } else if a.tabs > b.tabs {
        if a.spaces >= b.spaces {
            Some(LevelOrdering::Greater)
        } else {
            None
        }
    } else if a.spaces < b.spaces {
        Some(LevelOrdering::Less)
    } else if a.spaces > b.spaces {
        Some(LevelOrdering::Greater)
    } else {
        Some(LevelOrdering::Equal)
    }
}

/// The blanks at the start of a line, from the reader's position: the indentation they make
/// (or an error), with the lexer after them.
pub open spec fn indent_scan(v: LexerView, level: IndentationLevel) -> (
    Result<IndentationLevel, ErrorView>,
    LexerView,
)
    decreases v.src.len() - v.pos,
{
    let s = v.src;
    let q = v.pos;
    if q >= s.len() {
        (Ok(zero_level()), v)
    } else {
        let c = s[q as int];
        if c == ' ' {
            indent_scan(
                v.at(adv(s, q)),
                IndentationLevel { spaces: (level.spaces + 1) as u32, ..level },
            )
        } else if c == '\t' {
            if level.spaces != 0 {
                (Err(plain_error(LexicalErrorType::TabsAfterSpaces, s, q)), v)
            } else {
                indent_scan(v.at(adv(s, q)), IndentationLevel { tabs: (level.tabs + 1) as u32, ..level })
            }
        } else if c == '#' {
            let (_, e) = spec_lex_comment(s, q);
            proof {
                lemma_comment_scan_bounds(s, adv(s, q));
                assert(comment_scan(s, q).1 == comment_scan(s, adv(s, q)).1);
            }
            indent_scan(v.at(e), zero_level())
        } else if c == '\x0c' {
            indent_scan(v.at(adv(s, q)), zero_level())
        } else if c == '\n' || c == '\r' {
            let e = adv(s, q);
            indent_scan(
                v.at(e).push((TokenView::Plain(Token::NonLogicalNewline), range_between(s, q, e))),
                zero_level(),
            )
        } else {
            (Ok(level), LexerView { at_begin_of_line: false, ..v })
        }
    }
}

/// Pops indentation levels above `level`, one dedent token each, until an equal level.
pub open spec fn dedent_loop(v: LexerView, level: IndentationLevel) -> (Result<(), ErrorView>, LexerView)
    decreases v.indents.len(),
{
    match compare_levels(level, v.indents.last()) {
        None => (Err(plain_error(LexicalErrorType::TabError, v.src, v.pos)), v),
        Some(LevelOrdering::Equal) => (Ok(()), v),
        Some(LevelOrdering::Greater) => (Err(plain_error(LexicalErrorType::IndentationError, v.src, v.pos)), v),
        Some(LevelOrdering::Less) => if v.indents.len() > 1 {
            dedent_loop(
                LexerView { indents: v.indents.drop_last(), ..v }.push(
                    (TokenView::Plain(Token::Dedent), range_at(v.src, v.pos)),
                ),
                level,
            )
        } else {
            (Ok(()), v)
        },
    }
}

/// The tokens that the indentation `level` of a new line makes against the innermost
/// open level: an indent where it is deeper, dedents where it is shallower.
pub open spec fn indent_finish(v1: LexerView, level: IndentationLevel) -> (Result<(), ErrorView>, LexerView) {
    match compare_levels(level, v1.indents.last()) {
        None => (Err(plain_error(LexicalErrorType::TabError, v1.src, v1.pos)), v1),
        Some(LevelOrdering::Equal) => (Ok(()), v1),
        Some(LevelOrdering::Greater) => {
            let c = v1.cursor();
            (
                Ok(()),
                LexerView { indents: v1.indents.push(level), ..v1 }.push(
                    (
                        TokenView::Plain(Token::Indent),
                        TextRange {
                            start: TextSize { raw: (c - level.spaces - level.tabs) as u32 },
                            end: TextSize { raw: c as u32 },
                        },
                    ),
                ),
            )
        },
        Some(LevelOrdering::Less) => dedent_loop(v1, level),
    }
}

/// The indentation at the start of a line, and the indent or dedent tokens it makes.
pub open spec fn spec_handle_indentations(v: LexerView) -> (Result<(), ErrorView>, LexerView) {
    let (r, v1) = indent_scan(v, zero_level());
    match r {
        Err(e) => (Err(e), v1),
        Ok(level) => indent_finish(v1, level),
    }
}

/* Whole steps */

/// Fills the empty queue: indentation at the start of a line, then one populating step,
/// repeated until a token is queued or an error comes; `None` where a populating step is
/// not defined or queues nothing without moving on.
pub open spec fn spec_fill(v: LexerView) -> Option<(Result<(), ErrorView>, LexerView)>
    decreases v.src.len() - v.pos,
{
    if v.queue.len() > 0 {
        Some((Ok(()), v))
    } else {
        let (r1, v1) = if v.at_begin_of_line {
            spec_handle_indentations(v)
        } else {
            (Ok(()), v)
        };
        match r1 {
            Err(e) => Some((Err(e), v1)),
            Ok(()) => match spec_populate(v1) {
                None => None,
                Some((Err(e), v2)) => Some((Err(e), v2)),
                Some((Ok(()), v2)) => if v2.queue.len() > 0 {
                    Some((Ok(()), v2))
                } else if v2.pos > v.pos && v2.pos <= v2.src.len() && v2.src == v.src {
                    spec_fill(v2)
                } else {
                    None
                },
            },
        }
    }
}

/// The next token or error of the lexer, and the lexer after it; `None` where filling the
/// queue is not defined.
pub open spec fn spec_inner_next(v: LexerView) -> Option<(ResultView, LexerView)> {
    match spec_fill(v) {
        None => None,
        Some((Err(e), v1)) => Some((Err(e), v1)),
        Some((Ok(()), v1)) => Some((Ok(v1.queue[0]), LexerView { queue: v1.queue.drop_first(), ..v1 })),
    }
}

/// What the lexer's `next` returns: `None` at the end of the source.
pub open spec fn spec_next(v: LexerView) -> Option<(Option<ResultView>, LexerView)> {
    match spec_inner_next(v) {
        None => None,
        Some((Ok(t), v1)) => if t.0 == TokenView::Plain(Token::EndOfFile) {
            Some((None, v1))
        } else {
            Some((Some(Ok(t)), v1))
        },
        Some((r, v1)) => Some((Some(r), v1)),
    }
}

} // verus!

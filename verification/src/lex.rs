use vstd::prelude::*;
use crate::lex_spec::{
    adv, adv_n, blank_scan, ch, comment_scan, compare_levels, cursor_at, dedent_loop, dedents, indent_finish,
    ident_scan, indent_scan, is_ident_continue, is_ident_start, is_quote, lemma_comment_scan_bounds,
    number_decimal, number_exponent, number_finish, number_radix, numeric_end_error, other_error,
    plain_error, radix_run, range_at, range_between, single, span, spec_fill,
    spec_handle_indentations, spec_inner_next, spec_is_digit_of_radix, spec_lex_comment,
    spec_lex_ident, spec_lex_next, spec_lex_number, spec_lex_string, spec_next, spec_operator,
    spec_populate, spec_try_lex_tagged_string, string_scan, supported_radix, zero_level,
    ErrorKindView, ErrorView, LexerView, ResultView, SpanView,
};
use crate::text_range::TextRange;
use crate::text_size::{char_byte_len, char_len, utf8_len, TextSize};
use crate::token::{Token, TokenView};

verus! {

/// The kinds of lexical error.
#[derive(Debug, PartialEq)]
pub enum LexicalErrorType {
    StringError,
    /// Decoding of a unicode escape sequence in a string literal failed.
    UnicodeError,
    /// The nesting of brackets/braces/parentheses is not balanced.
    NestingError,
    /// The indentation is not consistent.
    IndentationError,
    /// Inconsistent use of tabs and spaces.
    TabError,
    /// Encountered a tab after a space.
    TabsAfterSpaces,
    /// A non-default argument follows a default argument.
    DefaultArgumentError,
    /// A duplicate argument was found in a function definition.
    DuplicateArgumentError(String),
    /// A positional argument follows a keyword argument.
    PositionalArgumentError,
    /// An iterable argument unpacking `*args` follows keyword argument unpacking `**kwargs`.
    UnpackedArgumentError,
    /// A keyword argument was repeated.
    DuplicateKeywordArgumentError(String),
    /// An unrecognized token was encountered.
    UnrecognizedToken { tok: char },
    /// An f-string error.
    FStringError,
    /// An unexpected character was encountered after a line continuation.
    LineContinuationError,
    /// An unexpected end of file was encountered.
    Eof,
    /// An unexpected error occurred.
    OtherError(String),
}

/// A lexical error and the byte cursor where it was found.
#[derive(Debug, PartialEq)]
pub struct LexicalError {
    pub error: LexicalErrorType,
    pub location: TextSize,
}

impl View for LexicalError {
    type V = ErrorView;

    open spec fn view(&self) -> ErrorView {
        ErrorView {
            error: match &self.error {
                LexicalErrorType::OtherError(m) => ErrorKindView::Other(m@),
                LexicalErrorType::DuplicateArgumentError(m) => ErrorKindView::DuplicateArgument(m@),
                LexicalErrorType::DuplicateKeywordArgumentError(m) => ErrorKindView::DuplicateKeywordArgument(m@),
                e => ErrorKindView::Plain(*e),
            },
            location: self.location.raw as nat,
        }
    }
}

pub type TokenSpan = (Token, TextRange);

pub type LexResult = Result<TokenSpan, LexicalError>;

pub open spec fn span_view(t: TokenSpan) -> SpanView {
    (t.0@, t.1)
}

pub open spec fn result_view(r: LexResult) -> ResultView {
    match r {
        Ok(t) => Ok(span_view(t)),
        Err(e) => Err(e@),
    }
}

/// How one indentation compares with another.
#[derive(Clone, Copy, PartialEq, Eq, Structural, Debug)]
pub enum LevelOrdering {
    Less,
    Equal,
    Greater,
}

/// The tabs and spaces that indent a line.
#[derive(Clone, Copy, PartialEq, Eq, Structural, Debug)]
pub struct IndentationLevel {
    pub tabs: u32,
    pub spaces: u32,
}

/// The UTF-8 length of a prefix grows by each character's length.
pub proof fn lemma_utf8_len_take_step(s: Seq<char>, k: int)
    requires
        0 <= k < s.len(),
    ensures
        utf8_len(s.take(k + 1)) == utf8_len(s.take(k)) + char_len(s[k]),
{
    assert(s.take(k + 1).drop_last() =~= s.take(k));
}

/// Longer prefixes are no shorter in UTF-8, and every character takes at least one byte.
pub proof fn lemma_utf8_len_take_mono(s: Seq<char>, a: int, b: int)
    requires
        0 <= a <= b <= s.len(),
    ensures
        utf8_len(s.take(a)) + (b - a) <= utf8_len(s.take(b)),
    decreases b - a,
{
    if a < b {
        lemma_utf8_len_take_mono(s, a, b - 1);
        lemma_utf8_len_take_step(s, b - 1);
    }
}

pub proof fn lemma_utf8_len_whole(s: Seq<char>)
    ensures
        s.take(s.len() as int) == s,
{
    assert(s.take(s.len() as int) =~= s);
}

/// The reader's cursor never goes back, never passes the UTF-8 length of the source, and
/// is at least the position.
pub proof fn lemma_cursor_mono(s: Seq<char>, p: nat, q: nat)
    requires
        p <= q <= s.len(),
    ensures
        cursor_at(s, p) <= cursor_at(s, q),
        cursor_at(s, q) <= utf8_len(s),
        p <= cursor_at(s, p),
{
    lemma_utf8_len_whole(s);
    let a: int = if p + 3 <= s.len() { p as int + 3 } else { s.len() as int };
    let b: int = if q + 3 <= s.len() { q as int + 3 } else { s.len() as int };
    lemma_utf8_len_take_mono(s, a, b);
    lemma_utf8_len_take_mono(s, b, s.len() as int);
    lemma_utf8_len_take_mono(s, 0, a);
    assert(s.take(0) =~= Seq::<char>::empty());
}

/// A step of the reader moves forward, but not past the end.
pub proof fn lemma_adv(s: Seq<char>, p: nat)
    requires
        p <= s.len(),
    ensures
        p <= adv(s, p) <= s.len(),
        p < s.len() ==> p < adv(s, p),
        p == s.len() ==> adv(s, p) == p,
{
}

pub proof fn lemma_adv_n(s: Seq<char>, p: nat, n: nat)
    requires
        p <= s.len(),
    ensures
        p <= adv_n(s, p, n) <= s.len(),
    decreases n,
{
    if n > 0 {
        lemma_adv(s, p);
        lemma_adv_n(s, adv(s, p), (n - 1) as nat);
    }
}

/// Reads the characters of a source three at a time: `window` holds the current character
/// and the two after it, and `cursor` is the UTF-8 length of everything read into the
/// window so far.
pub struct CharReader {
    source: Vec<char>,
    pos: usize,
    cursor: TextSize,
}

impl CharReader {
    pub closed spec fn src(&self) -> Seq<char> {
        self.source@
    }

    pub closed spec fn pos(&self) -> nat {
        self.pos as nat
    }

    pub closed spec fn cursor(&self) -> nat {
        self.cursor.raw as nat
    }

    pub closed spec fn wf(&self) -> bool {
        &&& self.pos <= self.source@.len()
        &&& utf8_len(self.source@) <= u32::MAX
        &&& self.cursor.raw == cursor_at(self.source@, self.pos as nat)
    }

    /// A reader at the start of `source`, its window filled.
    fn new(source: Vec<char>) -> (r: CharReader)
        requires
            utf8_len(source@) <= u32::MAX,
        ensures
            r.wf(),
            r.src() == source@,
            r.pos() == 0,
    {
        let mut cursor: u32 = 0;
        let mut k: usize = 0;
        let n = source.len();
        proof {
            lemma_utf8_len_whole(source@);
            assert(source@.take(0) =~= Seq::<char>::empty());
        }
        while k < 3 && k < n
            invariant
                n == source@.len(),
                k <= 3,
                k <= n,
                utf8_len(source@) <= u32::MAX,
                cursor == utf8_len(source@.take(k as int)),
            decreases 3 - k,
        {
            proof {
                lemma_utf8_len_take_step(source@, k as int);
                lemma_utf8_len_take_mono(source@, k + 1, n as int);
                lemma_utf8_len_whole(source@);
            }
            cursor = cursor + char_byte_len(source[k]);
            k = k + 1;
        }
        proof {
            lemma_utf8_len_whole(source@);
        }
        CharReader { source, pos: 0, cursor: TextSize::new(cursor) }
    }

    /// The character at index `i`, if there is one.
    fn char_at(&self, i: usize) -> (r: Option<char>)
        ensures
            r == ch(self.src(), i as int),
    {
        if i < self.source.len() {
            Some(self.source[i])
        } else {
            None
        }
    }

    /// The character `k` places after the current one, if there is one.
    fn char_ahead(&self, k: usize) -> (r: Option<char>)
        requires
            self.wf(),
        ensures
            r == ch(self.src(), self.pos() + k),
    {
        let n = self.source.len();
        if k < n - self.pos {
            Some(self.source[self.pos + k])
        } else {
            None
        }
    }

    /// Moves the window one character on and returns the character now first in it.
    fn next(&mut self) -> (r: Option<char>)
        requires
            old(self).wf(),
        ensures
            final(self).wf(),
            final(self).src() == old(self).src(),
            final(self).pos() == if old(self).pos() < old(self).src().len() {
                old(self).pos() + 1
            } else {
                old(self).pos()
            },
            r == ch(final(self).src(), final(self).pos() as int),
    {
        let n = self.source.len();
        if self.pos < n {
            self.pos = self.pos + 1;
            if n >= 3 && self.pos < n - 2 {
                proof {
                    lemma_utf8_len_take_step(self.source@, self.pos + 2);
                    lemma_utf8_len_take_mono(self.source@, self.pos + 3, n as int);
                    lemma_utf8_len_whole(self.source@);
                }
                self.cursor = TextSize::new(self.cursor.raw + char_byte_len(self.source[self.pos + 2]));
            } else {
                proof {
                    if self.pos + 2 >= n {
                        lemma_utf8_len_whole(self.source@);
                    }
                }
            }
        }
        self.char_at(self.pos)
    }
}

} // verus!

verus! {

impl IndentationLevel {
    fn reset(&mut self)
        ensures
            *final(self) == zero_level(),
    {
        self.tabs = 0;
        self.spaces = 0;
    }

    /// Compares by tabs, then by spaces; a `TabError` at `location` where the two disagree.
    fn compare_strict(&self, other: &IndentationLevel, location: TextSize) -> (r: Result<
        LevelOrdering,
        LexicalError,
    >)
        ensures
            match compare_levels(*self, *other) {
                Some(o) => r == Ok::<LevelOrdering, LexicalError>(o),
                None => r matches Err(e) && e.error == LexicalErrorType::TabError && e.location
                    == location,
            },
    {
        if self.tabs < other.tabs {
            if self.spaces <= other.spaces {
                return Ok(LevelOrdering::Less);
            }
            Err(LexicalError { error: LexicalErrorType::TabError, location })
        } else if self.tabs > other.tabs {
            if self.spaces >= other.spaces {
                return Ok(LevelOrdering::Greater);
            }
            Err(LexicalError { error: LexicalErrorType::TabError, location })
        } else if self.spaces < other.spaces {
            Ok(LevelOrdering::Less)
        } else if self.spaces > other.spaces {
            Ok(LevelOrdering::Greater)
        } else {
            Ok(LevelOrdering::Equal)
        }
    }
}

impl Default for IndentationLevel {
    fn default() -> (r: IndentationLevel)
        ensures
            r == zero_level(),
    {
        IndentationLevel { tabs: 0, spaces: 0 }
    }
}

/// The stack of indentation levels of the enclosing blocks.
struct Indentations {
    indent_stack: Vec<IndentationLevel>,
}

impl Indentations {
    /// Only the outermost level is left.
    fn is_empty(&self) -> (r: bool)
        ensures
            r == (self.indent_stack@.len() == 1),
    {
        self.indent_stack.len() == 1
    }

    fn push(&mut self, indent: IndentationLevel)
        ensures
            final(self).indent_stack@ == old(self).indent_stack@.push(indent),
    {
        self.indent_stack.push(indent)
    }

    fn pop(&mut self) -> (r: Option<IndentationLevel>)
        ensures
            old(self).indent_stack@.len() == 1 ==> r is None && final(self).indent_stack@
                == old(self).indent_stack@,
            old(self).indent_stack@.len() > 1 ==> r == Some(old(self).indent_stack@.last())
                && final(self).indent_stack@ == old(self).indent_stack@.drop_last(),
            old(self).indent_stack@.len() == 0 ==> r is None && final(self).indent_stack@
                == old(self).indent_stack@,
    {
        if self.is_empty() {
            return None;
        }
        self.indent_stack.pop()
    }

    fn current(&self) -> (r: &IndentationLevel)
        requires
            self.indent_stack@.len() >= 1,
        ensures
            *r == self.indent_stack@.last(),
    {
        let n = self.indent_stack.len();
        &self.indent_stack[n - 1]
    }
}

impl Indentations {
    /// The stack with just the outermost level.
    fn outermost() -> (r: Indentations)
        ensures
            r.indent_stack@ == seq![zero_level()],
    {
        let v = vec![IndentationLevel::default()];
        assert(v@ =~= seq![zero_level()]);
        Indentations { indent_stack: v }
    }
}

/// A lexer for Python source: it reads the source through a three-character window and
/// hands out tokens with their byte ranges, one at a time.
pub struct Lexer {
    char_reader: CharReader,
    at_begin_of_line: bool,
    nesting: usize,
    indentations: Indentations,
    queue: Vec<TokenSpan>,
}

/// A lexer state that the lexer can be in.
pub open spec fn view_wf(v: LexerView) -> bool {
    &&& v.pos <= v.src.len()
    &&& utf8_len(v.src) <= u32::MAX
    &&& v.nesting <= v.pos
    &&& v.indents.len() >= 1
    &&& v.indents[0] == zero_level()
}

/// The lexer at the start of `src`: past a leading byte-order mark, at the beginning of a
/// line, with no brackets open, one indentation level and nothing queued.
pub open spec fn initial_view(src: Seq<char>) -> LexerView {
    LexerView {
        src,
        pos: if ch(src, 0) == Some('\u{feff}') { adv(src, 0) } else { 0 },
        at_begin_of_line: true,
        nesting: 0,
        indents: seq![zero_level()],
        queue: Seq::empty(),
    }
}

impl View for Lexer {
    type V = LexerView;

    closed spec fn view(&self) -> LexerView {
        LexerView {
            src: self.char_reader.src(),
            pos: self.char_reader.pos(),
            at_begin_of_line: self.at_begin_of_line,
            nesting: self.nesting as nat,
            indents: self.indentations.indent_stack@,
            queue: self.queue@.map_values(|t: TokenSpan| span_view(t)),
        }
    }
}

impl Lexer {
    pub closed spec fn wf(&self) -> bool {
        &&& self.char_reader.wf()
        &&& view_wf(self@)
    }

    pub proof fn lemma_wf(&self)
        requires
            self.wf(),
        ensures
            view_wf(self@),
            self@.pos <= self@.src.len(),
            self@.src.len() <= u32::MAX,
    {
        lemma_utf8_len_take_mono(self@.src, 0, self@.src.len() as int);
        lemma_utf8_len_whole(self@.src);
    }

    pub fn new(input: Vec<char>) -> (r: Lexer)
        requires
            utf8_len(input@) <= u32::MAX,
        ensures
            r.wf(),
            r@ == initial_view(input@),
    {
        let mut lexer = Lexer {
            char_reader: CharReader::new(input),
            at_begin_of_line: true,
            nesting: 0,
            indentations: Indentations::outermost(),
            queue: Vec::new(),
        };
        proof {
            assert(lexer@.queue =~= Seq::<SpanView>::empty());
        }
        if let Some('\u{feff}') = lexer.char_reader.char_at(0) {
            lexer.next_char();
        }
        lexer
    }

    /// The character at `k` places after the current one, if there is one.
    fn ch_at(&self, k: usize) -> (r: Option<char>)
        requires
            self.wf(),
            k <= 3,
        ensures
            r == self@.window(k as int),
    {
        proof {
            self.lemma_wf();
        }
        self.char_reader.char_ahead(k)
    }

    /// The current character and the two after it.
    pub fn window(&self) -> (r: [Option<char>; 3])
        requires
            self.wf(),
        ensures
            r@ == seq![self@.window(0), self@.window(1), self@.window(2)],
    {
        let r = [self.ch_at(0), self.ch_at(1), self.ch_at(2)];
        assert(r@ =~= seq![self@.window(0), self@.window(1), self@.window(2)]);
        r
    }

    pub fn current_char(&mut self) -> (r: Option<char>)
        requires
            old(self).wf(),
        ensures
            *final(self) == *old(self),
            r == old(self)@.window(0),
    {
        self.ch_at(0)
    }

    /// Moves one character on (past a `\r` that stands before a `\n`) and returns the new
    /// current character.
    pub fn next_char(&mut self) -> (r: Option<char>)
        requires
            old(self).wf(),
        ensures
            final(self).wf(),
            final(self)@.src == old(self)@.src,
            old(self)@.pos <= final(self)@.pos,
            final(self)@ == old(self)@.at(adv(old(self)@.src, old(self)@.pos)),
            r == ch(old(self)@.src, adv(old(self)@.src, old(self)@.pos) as int),
    {
        let c = self.char_reader.next();
        if self.ch_at(0) == Some('\r') && self.ch_at(1) == Some('\n') {
            self.char_reader.next()
        } else {
            c
        }
    }

    /// Moves `num` characters on and returns the cursor there.
    pub fn jump_forward_n_chars(&mut self, num: u32) -> (r: TextSize)
        requires
            old(self).wf(),
        ensures
            final(self).wf(),
            final(self)@.src == old(self)@.src,
            old(self)@.pos <= final(self)@.pos,
            final(self)@ == old(self)@.at(adv_n(old(self)@.src, old(self)@.pos, num as nat)),
            r.raw == final(self)@.cursor(),
    {
        let mut i: u32 = 0;
        while i < num
            invariant
                self.wf(),
                i <= num,
                self@ == old(self)@.at(adv_n(old(self)@.src, old(self)@.pos, i as nat)),
            decreases num - i,
        {
            proof {
                lemma_adv_n_step(old(self)@.src, old(self)@.pos, i as nat);
            }
            self.next_char();
            i = i + 1;
        }
        proof {
            self.lemma_wf();
            lemma_adv_n(old(self)@.src, old(self)@.pos, num as nat);
        }
        self.char_cursor()
    }

    pub fn char_cursor(&self) -> (r: TextSize)
        requires
            self.wf(),
        ensures
            r.raw == self@.cursor(),
    {
        self.char_reader.cursor
    }
}

/// `n + 1` steps are `n` steps and one more.
pub proof fn lemma_adv_n_step(s: Seq<char>, p: nat, n: nat)
    ensures
        adv_n(s, p, n + 1) == adv(s, adv_n(s, p, n)),
    decreases n,
{
    if n > 0 {
        let m = (n - 1) as nat;
        lemma_adv_n_step(s, adv(s, p), m);
        assert(adv_n(s, p, n) == adv_n(s, adv(s, p), m));
        assert(m + 1 == n);
        assert(adv_n(s, p, n + 1) == adv_n(s, adv(s, p), n));
    } else {
        assert(adv_n(s, p, 1) == adv_n(s, adv(s, p), 0));
    }
}

} // verus!

verus! {

/// Whether `c` can start a name: an ASCII letter, an underscore, or an XID_Start character.
pub fn is_identifier_or_keywords_start(c: char) -> (r: bool)
    ensures
        r == is_ident_start(c),
{
    match c {
        'a'..='z' | 'A'..='Z' | '_' => true,
        _ => crate::unicode::is_xid_start(c),
    }
}

/// Whether `c` can continue a name: an ASCII letter or digit, an underscore, or an
/// XID_Continue character.
pub fn is_identifier_or_keyword_continuation(c: char) -> (r: bool)
    ensures
        r == is_ident_continue(c),
{
    match c {
        'a'..='z' | 'A'..='Z' | '_' | '0'..='9' => true,
        _ => crate::unicode::is_xid_continue(c),
    }
}

/// Whether `c` is a digit of `radix` (2, 8, 10 or 16); in radix 8 the lexer also takes `8`.
pub fn is_digit_of_radix(c: char, radix: u32) -> (r: bool)
    requires
        supported_radix(radix),
    ensures
        r == spec_is_digit_of_radix(c, radix),
{
    match radix {
        2 => matches!(c, '0'..='1'),
        8 => matches!(c, '0'..='8'),
        10 => matches!(c, '0'..='9'),
        _ => matches!(c, '0'..='9' | 'a'..='f' | 'A'..='F'),
    }
}

pub proof fn lemma_adv_n_one(s: Seq<char>, p: nat)
    ensures
        adv_n(s, p, 1) == adv(s, p),
{
    assert(adv_n(s, p, 1) == adv_n(s, adv(s, p), 0));
}

impl Lexer {
    /// A comment from the `#` at the current character to the end of its line.
    pub fn lex_single_line_comment(&mut self) -> (r: LexResult)
        requires
            old(self).wf(),
            old(self)@.window(0) == Some('#'),
        ensures
            final(self).wf(),
            final(self)@.src == old(self)@.src,
            old(self)@.pos < final(self)@.pos,
            ({
                let (t, e) = spec_lex_comment(old(self)@.src, old(self)@.pos);
                &&& result_view(r) == Ok::<SpanView, ErrorView>(t)
                &&& final(self)@ == old(self)@.at(e)
            }),
    {
        let ghost s = self@.src;
        let ghost p0 = self@.pos;
        proof {
            self.lemma_wf();
            lemma_adv_n_one(s, p0);
            lemma_adv(s, p0);
        }
        let start_pos = self.char_cursor();
        self.jump_forward_n_chars(1);
        let ghost p1 = self@.pos;
        let mut value: Vec<char> = Vec::new();
        value.push('#');
        proof {
            assert(comment_scan(s, p0) == (seq!['#'] + comment_scan(s, p1).0, comment_scan(s, p1).1));
            assert(value@ =~= seq!['#']);
        }
        loop
            invariant
                self.wf(),
                self@ == old(self)@.at(self@.pos),
                s == self@.src,
                p0 == old(self)@.pos,
                p0 < p1 <= self@.pos <= s.len(),
                p1 == adv(s, p0),
                start_pos.raw == cursor_at(s, p0),
                comment_scan(s, p0) == (value@ + comment_scan(s, self@.pos).0, comment_scan(s, self@.pos).1),
            decreases s.len() - self@.pos,
        {
            proof {
                lemma_adv_n_one(s, self@.pos);
                lemma_adv(s, self@.pos);
            }
            match self.ch_at(0) {
                None | Some('\n') | Some('\r') => {
                    let end_pos = self.char_cursor();
                    proof {
                        lemma_cursor_mono(s, p0, self@.pos);
                        assert(value@ + Seq::<char>::empty() =~= value@);
                        assert(comment_scan(s, self@.pos) == (Seq::<char>::empty(), self@.pos));
                        assert(comment_scan(s, p0) == (value@, self@.pos));
                    }
                    let text = crate::token::chars_to_string(value.as_slice());
                    let range = TextRange::new(start_pos, end_pos);
                    assert(range == range_between(s, p0, self@.pos));
                    let tok = Token::Comment(text);
                    assert(tok@ == TokenView::Comment(value@));
                    return Ok((tok, range));
                },
                Some(c) => {
                    let ghost q = self@.pos;
                    value.push(c);
                    self.jump_forward_n_chars(1);
                    proof {
                        assert(value@ + comment_scan(s, self@.pos).0 =~= value@.drop_last() + (seq![c] + comment_scan(s, self@.pos).0));
                    }
                },
            }
        }
    }

    /// A name from the current character: characters are taken while a next one follows,
    /// until one that cannot continue a name has been seen; keywords become their tokens.
    pub fn lex_identifier_or_keyword(&mut self) -> (r: LexResult)
        requires
            old(self).wf(),
        ensures
            final(self).wf(),
            final(self)@.src == old(self)@.src,
            old(self)@.pos <= final(self)@.pos,
            ({
                let (t, e) = spec_lex_ident(old(self)@.src, old(self)@.pos);
                &&& result_view(r) == Ok::<SpanView, ErrorView>(t)
                &&& final(self)@ == old(self)@.at(e)
            }),
    {
        let ghost s = self@.src;
        let ghost p0 = self@.pos;
        proof {
            self.lemma_wf();
        }
        let start_pos = self.char_cursor();
        let mut name: Vec<char> = Vec::new();
        loop
            invariant
                self.wf(),
                self@ == old(self)@.at(self@.pos),
                s == self@.src,
                p0 == old(self)@.pos,
                p0 <= self@.pos <= s.len(),
                start_pos.raw == cursor_at(s, p0),
                ident_scan(s, p0) == (name@ + ident_scan(s, self@.pos).0, ident_scan(s, self@.pos).1),
            decreases s.len() - self@.pos,
        {
            proof {
                lemma_adv(s, self@.pos);
            }
            let w0 = self.ch_at(0);
            let w1 = self.ch_at(1);
            let ghost q = self@.pos;
            let ghost old_name = name@;
            if let (Some(c1), Some(c2)) = (w0, w1) {
                name.push(c1);
                self.next_char();
                if !is_identifier_or_keyword_continuation(c2) {
                    proof {
                        assert(ident_scan(s, q) == (seq![c1], adv(s, q)));
                        assert(name@ =~= old_name + seq![c1]);
                    }
                    return self.finish_name(name, start_pos, Ghost(p0));
                }
                proof {
                    assert(ident_scan(s, q) == (seq![c1] + ident_scan(s, adv(s, q)).0, ident_scan(s, adv(s, q)).1));
                    assert(name@ + ident_scan(s, self@.pos).0 =~= old_name + (seq![c1] + ident_scan(s, self@.pos).0));
                }
            } else {
                proof {
                    assert(ident_scan(s, q) == (Seq::<char>::empty(), q));
                    assert(name@ + Seq::<char>::empty() =~= name@);
                }
                return self.finish_name(name, start_pos, Ghost(p0));
            }
        }
    }

    fn finish_name(&self, name: Vec<char>, start_pos: TextSize, Ghost(p0): Ghost<nat>) -> (r: LexResult)
        requires
            self.wf(),
            p0 <= self@.pos,
            start_pos.raw == cursor_at(self@.src, p0),
        ensures
            ({
                let t = match crate::token::spec_keyword(name@) {
                    Some(k) => TokenView::Plain(k),
                    None => TokenView::Name(name@),
                };
                result_view(r) == Ok::<SpanView, ErrorView>(span(t, self@.src, p0, self@.pos))
            }),
    {
        proof {
            self.lemma_wf();
            lemma_cursor_mono(self@.src, p0, self@.pos);
        }
        let end_pos = self.char_cursor();
        if let Some(token) = Token::try_get_keyword(name.as_slice()) {
            return Ok((token, TextRange::new(start_pos, end_pos)));
        }
        Ok((Token::Name { name: crate::token::chars_to_string(name.as_slice()) }, TextRange::new(start_pos, end_pos)))
    }
}

} // verus!

verus! {

fn append_chars(v: &mut Vec<char>, w: Vec<char>)
    ensures
        final(v)@ == old(v)@ + w@,
{
    let ghost a = v@;
    let mut i: usize = 0;
    while i < w.len()
        invariant
            i <= w@.len(),
            v@ == a + w@.take(i as int),
        decreases w@.len() - i,
    {
        v.push(w[i]);
        assert(w@.take(i + 1) =~= w@.take(i as int).push(w@[i as int]));
        i = i + 1;
    }
    assert(w@.take(i as int) =~= w@);
}

impl Lexer {
    /// The error `error` at the cursor.
    fn error_here(&self, error: LexicalErrorType) -> (r: LexicalError)
        requires
            self.wf(),
        ensures
            r.error == error,
            r.location.raw == self@.cursor(),
    {
        LexicalError { error, location: self.char_cursor() }
    }

    /// The run of digits of `radix` from the current character; an underscore may stand
    /// between two digits and is dropped.
    fn radix_run(&mut self, radix: u32) -> (r: Result<Vec<char>, LexicalError>)
        requires
            old(self).wf(),
            supported_radix(radix),
        ensures
            final(self).wf(),
            match radix_run(old(self)@.src, old(self)@.pos, radix) {
                Ok((t, e)) => r matches Ok(v) && v@ == t && final(self)@ == old(self)@.at(e),
                Err(e) => r matches Err(err) && err@ == numeric_end_error(old(self)@.src, e)
                    && final(self)@ == old(self)@.at(e),
            },
    {
        let ghost s = self@.src;
        let ghost p0 = self@.pos;
        proof {
            self.lemma_wf();
        }
        let mut value_text: Vec<char> = Vec::new();
        loop
            invariant
                self.wf(),
                self@ == old(self)@.at(self@.pos),
                s == self@.src,
                p0 == old(self)@.pos,
                p0 <= self@.pos <= s.len(),
                supported_radix(radix),
                match radix_run(s, p0, radix) {
                    Ok((t, e)) => radix_run(s, self@.pos, radix) matches Ok((t2, e2)) && t
                        == value_text@ + t2 && e == e2,
                    Err(e) => radix_run(s, self@.pos, radix) == Err::<(Seq<char>, nat), nat>(e),
                },
            decreases s.len() - self@.pos,
        {
            let ghost q = self@.pos;
            let ghost old_text = value_text@;
            proof {
                lemma_adv(s, q);
                lemma_adv_n_one(s, q);
            }
            let w0 = self.ch_at(0);
            let w1 = self.ch_at(1);
            match (w0, w1) {
                (Some(c1), Some(c2)) if is_digit_of_radix(c1, radix) => {
                    value_text.push(c1);
                    self.jump_forward_n_chars(1);
                    if !is_digit_of_radix(c2, radix) && c2 != '_' {
                        proof {
                            assert(radix_run(s, q, radix) == Ok::<(Seq<char>, nat), nat>((seq![c1], adv(s, q))));
                            assert(value_text@ =~= old_text + seq![c1]);
                        }
                        return Ok(value_text);
                    }
                    proof {
                        match radix_run(s, adv(s, q), radix) {
                            Ok((t3, e3)) => {
                                assert(value_text@ + t3 =~= old_text + (seq![c1] + t3));
                            },
                            Err(_) => {},
                        }
                    }
                },
                (Some(c1), None) if is_digit_of_radix(c1, radix) => {
                    value_text.push(c1);
                    self.jump_forward_n_chars(1);
                    proof {
                        assert(radix_run(s, q, radix) == Ok::<(Seq<char>, nat), nat>((seq![c1], adv(s, q))));
                        assert(value_text@ =~= old_text + seq![c1]);
                    }
                    return Ok(value_text);
                },
                (Some('_'), Some(c2)) => {
                    if !is_digit_of_radix(c2, radix) {
                        return Err(self.error_here(LexicalErrorType::OtherError("Numeric can't end with _".to_owned())));
                    }
                    self.jump_forward_n_chars(1);
                },
                (Some('_'), None) => {
                    return Err(self.error_here(LexicalErrorType::OtherError("Numeric can't end with _".to_owned())));
                },
                _ => {
                    proof {
                        assert(radix_run(s, q, radix) == Ok::<(Seq<char>, nat), nat>((Seq::<char>::empty(), q)));
                        assert(value_text@ + Seq::<char>::empty() =~= value_text@);
                    }
                    return Ok(value_text);
                },
            }
        }
    }

    /// An integer in radix 16, 8 or 2 whose two-character prefix is at the current character.
    fn lex_number_radix(&mut self, radix: u32) -> (r: LexResult)
        requires
            old(self).wf(),
            radix == 2 || radix == 8 || radix == 16,
        ensures
            final(self).wf(),
            ({
                let (v, e) = number_radix(old(self)@.src, old(self)@.pos, radix);
                &&& result_view(r) == v
                &&& final(self)@ == old(self)@.at(e)
                &&& old(self)@.pos <= e
            }),
            !(r matches Ok((t, _)) && t is WhiteSpace),
    {
        let ghost s = self@.src;
        let ghost p0 = self@.pos;
        proof {
            self.lemma_wf();
            lemma_adv_n(s, p0, 2);
        }
        let start_pos = self.char_cursor();
        self.jump_forward_n_chars(2);
        proof {
            lemma_radix_run_bounds(s, adv_n(s, p0, 2), radix);
        }
        let value_text = match self.radix_run(radix) {
            Ok(t) => t,
            Err(e) => return Err(e),
        };
        proof {
            lemma_cursor_mono(s, p0, self@.pos);
        }
        match crate::int_parse::parse_i64_radix(value_text.as_slice(), radix) {
            Ok(value) => {
                let end_pos = self.char_cursor();
                Ok((Token::Int { value }, TextRange::new(start_pos, end_pos)))
            },
            Err(k) => Err(self.error_here(LexicalErrorType::OtherError(k.message()))),
        }
    }

    /// The token of a decimal number whose text has been read: imaginary with a `j`,
    /// floating-point when it has a fraction or an exponent, else an integer.
    fn lex_number_finish(
        &mut self,
        start_pos: TextSize,
        Ghost(p0): Ghost<nat>,
        value_text: Vec<char>,
        is_float: bool,
        is_start_zero: bool,
    ) -> (r: LexResult)
        requires
            old(self).wf(),
            p0 <= old(self)@.pos,
            start_pos.raw == cursor_at(old(self)@.src, p0),
            is_start_zero == (ch(old(self)@.src, p0 as int) == Some('0')),
        ensures
            final(self).wf(),
            ({
                let (v, e) = number_finish(old(self)@.src, p0, value_text@, old(self)@.pos, is_float);
                &&& result_view(r) == v
                &&& final(self)@ == old(self)@.at(e)
                &&& old(self)@.pos <= e
            }),
            !(r matches Ok((t, _)) && t is WhiteSpace),
    {
        let ghost s = self@.src;
        proof {
            self.lemma_wf();
            lemma_adv_n_one(s, self@.pos);
            lemma_adv(s, self@.pos);
            lemma_cursor_mono(s, p0, self@.pos);
            lemma_cursor_mono(s, p0, adv(s, self@.pos));
        }
        let w0 = self.ch_at(0);
        if let Some('j' | 'J') = w0 {
            let end_pos = self.jump_forward_n_chars(1);
            return Ok((Token::Complex { imag: crate::token::chars_to_string(value_text.as_slice()) }, TextRange::new(start_pos, end_pos)));
        }
        if is_float {
            let end_pos = self.char_cursor();
            return Ok((Token::Float { value: crate::token::chars_to_string(value_text.as_slice()) }, TextRange::new(start_pos, end_pos)));
        }
        if is_start_zero && value_text.len() > 1 {
            return Err(self.error_here(LexicalErrorType::OtherError("An integer can't have a leading 0".to_owned())));
        }
        match crate::int_parse::parse_i64_radix(value_text.as_slice(), 10) {
            Ok(value) => {
                let end_pos = self.char_cursor();
                Ok((Token::Int { value }, TextRange::new(start_pos, end_pos)))
            },
            Err(k) => {
                let mut msg = "Could not parse integer: ".to_owned();
                let detail = k.message();
                msg.append(detail.as_str());
                Err(self.error_here(LexicalErrorType::OtherError(msg)))
            },
        }
    }
}

} // verus!

verus! {

pub proof fn lemma_radix_run_bounds(s: Seq<char>, p: nat, radix: u32)
    requires
        p <= s.len(),
    ensures
        match radix_run(s, p, radix) {
            Ok((t, e)) => p <= e <= s.len(),
            Err(e) => p <= e <= s.len(),
        },
    decreases s.len() - p,
{
    lemma_adv(s, p);
    if p < s.len() && spec_is_digit_of_radix(s[p as int], radix) {
        if p + 1 < s.len() {
            let c2 = s[p as int + 1];
            if !(!spec_is_digit_of_radix(c2, radix) && c2 != '_') {
                lemma_radix_run_bounds(s, adv(s, p), radix);
            }
        }
    } else if p < s.len() && s[p as int] == '_' {
        if p + 1 < s.len() && spec_is_digit_of_radix(s[p as int + 1], radix) {
            lemma_radix_run_bounds(s, adv(s, p), radix);
        }
    }
}

} // verus!

verus! {

impl Lexer {
    /// The exponent of a decimal number, if any, then its token.
    fn lex_number_exponent(
        &mut self,
        start_pos: TextSize,
        Ghost(p0): Ghost<nat>,
        value_text: Vec<char>,
        is_float: bool,
        is_start_zero: bool,
    ) -> (r: Option<LexResult>)
        requires
            old(self).wf(),
            p0 <= old(self)@.pos,
            start_pos.raw == cursor_at(old(self)@.src, p0),
            is_start_zero == (ch(old(self)@.src, p0 as int) == Some('0')),
        ensures
            final(self).wf(),
            final(self)@.src == old(self)@.src,
            old(self)@.pos <= final(self)@.pos,
            match number_exponent(old(self)@.src, p0, value_text@, old(self)@.pos, is_float) {
                None => r is None,
                Some((v, e)) => r matches Some(x) && result_view(x) == v && final(self)@ == old(self)@.at(e)
                    && !(x matches Ok((t, _)) && t is WhiteSpace),
            },
    {
        let ghost s = self@.src;
        let ghost q = self@.pos;
        proof {
            self.lemma_wf();
            lemma_adv(s, q);
            lemma_adv_n_one(s, q);
            lemma_adv(s, adv(s, q));
            lemma_adv_n_one(s, adv(s, q));
        }
        let w0 = self.ch_at(0);
        let w1 = self.ch_at(1);
        match (w0, w1) {
            (Some('e' | 'E'), None) => {
                Some(Err(self.error_here(LexicalErrorType::OtherError("Invalid underscore".to_owned()))))
            },
            (Some(e_char), Some(sign)) if (e_char == 'e' || e_char == 'E') && (sign == '+' || sign == '-') => {
                let mut text = value_text;
                text.push(e_char);
                let bar = self.next_char().unwrap();
                text.push(bar);
                self.jump_forward_n_chars(1);
                match self.ch_at(0) {
                    None => Some(Err(self.error_here(LexicalErrorType::OtherError(
                        "exponential numeric literal must be followed by an integer".to_owned(),
                    )))),
                    Some(c) => {
                        if !is_digit_of_radix(c, 10) {
                            return Some(Err(self.error_here(LexicalErrorType::OtherError(
                                "exponential numeric literal must be followed by an integer".to_owned(),
                            ))));
                        }
                        let ghost qb = self@.pos;
                        proof {
                            lemma_radix_run_bounds(s, qb, 10);
                        }
                        let rest = match self.radix_run(10) {
                            Ok(t) => t,
                            Err(e) => return Some(Err(e)),
                        };
                        append_chars(&mut text, rest);
                        Some(self.lex_number_finish(start_pos, Ghost(p0), text, true, is_start_zero))
                    },
                }
            },
            (Some(e_char), Some(c)) if e_char == 'e' || e_char == 'E' => {
                if !is_digit_of_radix(c, 10) {
                    let loc = self.char_cursor();
                    if loc.raw > u32::MAX - 2 {
                        return None;
                    }
                    return Some(Err(LexicalError {
                        error: LexicalErrorType::OtherError(
                            "exponential numeric literal must be followed by an integer".to_owned(),
                        ),
                        location: TextSize::new(loc.raw + 2),
                    }));
                }
                let mut text = value_text;
                text.push('e');
                self.jump_forward_n_chars(1);
                proof {
                    lemma_radix_run_bounds(s, adv(s, q), 10);
                }
                let rest = match self.radix_run(10) {
                    Ok(t) => t,
                    Err(e) => return Some(Err(e)),
                };
                append_chars(&mut text, rest);
                Some(self.lex_number_finish(start_pos, Ghost(p0), text, true, is_start_zero))
            },
            _ => Some(self.lex_number_finish(start_pos, Ghost(p0), value_text, is_float, is_start_zero)),
        }
    }

    /// A number from the digit at the current character: an integer with a radix prefix,
    /// or a decimal number with optional fraction, exponent and imaginary suffix; `None`
    /// where the location of an exponent error would not fit a `u32`.
    pub fn checked_lex_number(&mut self) -> (r: Option<LexResult>)
        requires
            old(self).wf(),
        ensures
            final(self).wf(),
            final(self)@.src == old(self)@.src,
            old(self)@.pos <= final(self)@.pos,
            match spec_lex_number(old(self)@.src, old(self)@.pos) {
                None => r is None,
                Some((v, e)) => r matches Some(x) && result_view(x) == v && final(self)@ == old(self)@.at(e)
                    && !(x matches Ok((t, _)) && t is WhiteSpace),
            },
    {
        let ghost s = self@.src;
        let ghost p0 = self@.pos;
        proof {
            self.lemma_wf();
            lemma_radix_run_bounds(s, p0, 10);
        }
        let w0 = self.ch_at(0);
        let w1 = self.ch_at(1);
        match (w0, w1) {
            (Some('0'), Some('x' | 'X')) => Some(self.lex_number_radix(16)),
            (Some('0'), Some('o' | 'O')) => Some(self.lex_number_radix(8)),
            (Some('0'), Some('b' | 'B')) => Some(self.lex_number_radix(2)),
            _ => {
                let start_pos = self.char_cursor();
                let is_start_zero = matches!(w0, Some('0'));
                let mut value_text = match self.radix_run(10) {
                    Ok(t) => t,
                    Err(e) => return Some(Err(e)),
                };
                let ghost q1 = self@.pos;
                proof {
                    lemma_adv(s, q1);
                    lemma_adv_n_one(s, q1);
                    lemma_radix_run_bounds(s, adv(s, q1), 10);
                }
                let v0 = self.ch_at(0);
                let v1 = self.ch_at(1);
                match (v0, v1) {
                    (Some('.'), Some('_')) => {
                        Some(Err(self.error_here(LexicalErrorType::OtherError("Invalid underscore".to_owned()))))
                    },
                    (Some('.'), Some(c)) if is_digit_of_radix(c, 10) => {
                        value_text.push('.');
                        self.jump_forward_n_chars(1);
                        let rest = match self.radix_run(10) {
                            Ok(t) => t,
                            Err(e) => return Some(Err(e)),
                        };
                        append_chars(&mut value_text, rest);
                        self.lex_number_exponent(start_pos, Ghost(p0), value_text, true, is_start_zero)
                    },
                    (Some('.'), _) => {
                        value_text.push('.');
                        self.jump_forward_n_chars(1);
                        self.lex_number_exponent(start_pos, Ghost(p0), value_text, true, is_start_zero)
                    },
                    _ => self.lex_number_exponent(start_pos, Ghost(p0), value_text, false, is_start_zero),
                }
            },
        }
    }

    /// A number from the digit at the current character: an integer with a radix prefix,
    /// or a decimal number with optional fraction, exponent and imaginary suffix.
    pub fn lex_number(&mut self) -> (r: LexResult)
        requires
            old(self).wf(),
            spec_lex_number(old(self)@.src, old(self)@.pos) is Some,
        ensures
            final(self).wf(),
            final(self)@.src == old(self)@.src,
            old(self)@.pos <= final(self)@.pos,
            ({
                let (v, e) = spec_lex_number(old(self)@.src, old(self)@.pos)->0;
                &&& result_view(r) == v
                &&& final(self)@ == old(self)@.at(e)
            }),
    {
        match self.checked_lex_number() {
            Some(r) => r,
            None => Err(self.error_here(LexicalErrorType::Eof)),
        }
    }
}

} // verus!

verus! {

pub proof fn lemma_string_scan_bounds(s: Seq<char>, q: nat, quote: char, triple: bool)
    requires
        q <= s.len(),
    ensures
        q <= string_scan(s, q, quote, triple).1 <= s.len(),
    decreases s.len() - q,
{
    if q < s.len() {
        let c = s[q as int];
        let q1 = adv(s, q);
        lemma_adv(s, q);
        lemma_adv(s, q1);
        lemma_adv_n(s, q, if triple { 3 } else { 1 });
        if c == '\\' {
            lemma_adv_n(s, q1, if triple { 3 } else { 1 });
            match ch(s, q1 as int) {
                Some(nc) => {
                    lemma_string_scan_bounds(s, q1, quote, triple);
                    lemma_string_scan_bounds(s, adv(s, q1), quote, triple);
                },
                None => lemma_string_scan_bounds(s, q1, quote, triple),
            }
        } else {
            lemma_string_scan_bounds(s, q1, quote, triple);
        }
    }
}

impl Lexer {
    /// A string of kind `kind` whose prefix starts at the current character: the quote
    /// after the prefix (three of them for a triple-quoted string) opens it, and it is read
    /// on as `string_scan` says, up to the quote that closes it; `None` where no character
    /// follows the prefix.
    #[verifier::rlimit(40)]
    pub fn checked_lex_string(&mut self, kind: crate::token::StringKind) -> (r: Option<LexResult>)
        requires
            old(self).wf(),
        ensures
            final(self).wf(),
            final(self)@.src == old(self)@.src,
            old(self)@.pos <= final(self)@.pos,
            match spec_lex_string(old(self)@.src, old(self)@.pos, kind) {
                None => r is None,
                Some((v, e)) => r matches Some(x) && result_view(x) == v && final(self)@ == old(self)@.at(e)
                    && !(x matches Ok((t, _)) && t is WhiteSpace),
            },
    {
        let ghost s = self@.src;
        let ghost p0 = self@.pos;
        proof {
            self.lemma_wf();
        }
        let start_pos = self.char_cursor();
        self.jump_forward_n_chars(kind.prefix_len().to_u32());
        let ghost pq = self@.pos;
        proof {
            lemma_adv_n(s, p0, crate::token::spec_prefix_len(kind));
        }
        let quote_char = match self.ch_at(0) {
            Some(q) => q,
            None => return None,
        };
        let w1 = self.ch_at(1);
        let w2 = self.ch_at(2);
        let is_triple = match (w1, w2) {
            (Some(a), Some(b)) => a == quote_char && b == quote_char,
            _ => false,
        };
        if is_triple {
            self.jump_forward_n_chars(3);
        } else {
            self.jump_forward_n_chars(1);
        }
        let ghost q0 = self@.pos;
        proof {
            lemma_adv_n(s, pq, if is_triple { 3 } else { 1 });
            lemma_string_scan_bounds(s, q0, quote_char, is_triple);
            lemma_cursor_mono(s, p0, q0);
        }
        let ghost whole = string_scan(s, q0, quote_char, is_triple);
        let mut content: Vec<char> = Vec::new();
        proof {
            assert(content@ + Seq::<char>::empty() =~= content@);
            match whole.0 {
                Ok(v) => assert(content@ + v =~= v),
                Err(_) => {},
            }
        }
        loop
            invariant
                self.wf(),
                self@ == old(self)@.at(self@.pos),
                s == self@.src,
                p0 == old(self)@.pos,
                p0 <= q0 <= self@.pos <= s.len(),
                start_pos.raw == cursor_at(s, p0),
                ch(s, pq as int) == Some(quote_char),
                pq == adv_n(s, p0, crate::token::spec_prefix_len(kind)),
                is_triple == (ch(s, pq as int + 1) == Some(quote_char) && ch(s, pq as int + 2) == Some(quote_char)),
                q0 == adv_n(s, pq, if is_triple { 3 } else { 1 }),
                whole == string_scan(s, q0, quote_char, is_triple),
                string_scan(s, self@.pos, quote_char, is_triple).1 == whole.1,
                match whole.0 {
                    Ok(v) => string_scan(s, self@.pos, quote_char, is_triple).0 matches Ok(v2) && v == content@ + v2,
                    Err(er) => string_scan(s, self@.pos, quote_char, is_triple).0 == Err::<Seq<char>, ErrorView>(er),
                },
            decreases s.len() - self@.pos,
        {
            let ghost q = self@.pos;
            let ghost old_content = content@;
            let ghost q1 = adv(s, q);
            proof {
                lemma_adv(s, q);
                lemma_adv(s, q1);
                lemma_adv_n_one(s, q);
                lemma_string_scan_bounds(s, q, quote_char, is_triple);
            }
            match self.ch_at(0) {
                None => {
                    return Some(Err(self.error_here(if is_triple {
                        LexicalErrorType::Eof
                    } else {
                        LexicalErrorType::StringError
                    })));
                },
                Some(c) => {
                    let mut close = false;
                    if c == '\\' {
                        let nc = self.next_char();
                        match nc {
                            Some(next_c) => {
                                content.push('\\');
                                content.push(next_c);
                                let again = next_c == '\\' || next_c == quote_char || (next_c == '\n'
                                    && !is_triple);
                                if !again {
                                    self.next_char();
                                }
                                proof {
                                    match whole.0 {
                                        Ok(v) => {
                                            let v3 = string_scan(s, self@.pos, quote_char, is_triple).0->Ok_0;
                                            assert(content@ + v3 =~= old_content + (seq!['\\', next_c] + v3));
                                        },
                                        Err(_) => {},
                                    }
                                }
                            },
                            None => {
                                if quote_char == '\\' {
                                    close = true;
                                }
                            },
                        }
                    } else if c == '\n' && !is_triple {
                        return Some(Err(self.error_here(LexicalErrorType::OtherError("EOL while scanning string literal".to_owned()))));
                    } else if c == quote_char {
                        close = true;
                    } else {
                        content.push(c);
                        self.next_char();
                        proof {
                            match whole.0 {
                                Ok(v) => {
                                    let v3 = string_scan(s, q1, quote_char, is_triple).0->Ok_0;
                                    assert(content@ + v3 =~= old_content + (seq![c] + v3));
                                },
                                Err(_) => {},
                            }
                        }
                    }
                    if close {
                        let ghost qc = self@.pos;
                        proof {
                            assert(string_scan(s, q, quote_char, is_triple) == (
                                Ok::<Seq<char>, ErrorView>(Seq::empty()),
                                adv_n(s, qc, if is_triple { 3 } else { 1 }),
                            ));
                        }
                        if is_triple {
                            self.jump_forward_n_chars(3);
                        } else {
                            self.jump_forward_n_chars(1);
                        }
                        proof {
                            lemma_adv_n(s, qc, if is_triple { 3 } else { 1 });
                            lemma_cursor_mono(s, p0, self@.pos);
                            assert(content@ + Seq::<char>::empty() =~= content@);
                        }
                        let end_pos = self.char_cursor();
                        let token = Token::String {
                            value: crate::token::chars_to_string(content.as_slice()),
                            kind,
                            triple_quoted: is_triple,
                        };
                        return Some(Ok((token, TextRange::new(start_pos, end_pos))));
                    }
                },
            }
        }
    }

    /// A string of kind `kind` whose prefix starts at the current character: the quote
    /// after the prefix (three of them for a triple-quoted string) opens it, and it is read
    /// on as `string_scan` says, up to the quote that closes it.
    pub fn lex_string(&mut self, kind: crate::token::StringKind) -> (r: LexResult)
        requires
            old(self).wf(),
            spec_lex_string(old(self)@.src, old(self)@.pos, kind) is Some,
        ensures
            final(self).wf(),
            final(self)@.src == old(self)@.src,
            old(self)@.pos <= final(self)@.pos,
            ({
                let (v, e) = spec_lex_string(old(self)@.src, old(self)@.pos, kind)->0;
                &&& result_view(r) == v
                &&& final(self)@ == old(self)@.at(e)
            }),
    {
        match self.checked_lex_string(kind) {
            Some(r) => r,
            None => Err(self.error_here(LexicalErrorType::Eof)),
        }
    }

    /// A string with a one- or two-character prefix at the current character; `Some(None)`
    /// where no quote follows such a prefix. It never returns `None`
    /// (`lemma_tagged_string_defined`).
    pub fn checked_try_lex_tagged_string(&mut self) -> (r: Option<Option<LexResult>>)
        requires
            old(self).wf(),
        ensures
            final(self).wf(),
            final(self)@.src == old(self)@.src,
            old(self)@.pos <= final(self)@.pos,
            match spec_try_lex_tagged_string(old(self)@.src, old(self)@.pos) {
                None => r is None,
                Some(None) => r == Some::<Option<LexResult>>(None) && final(self)@ == old(self)@,
                Some(Some((v, e))) => r matches Some(Some(x)) && result_view(x) == v && final(self)@ == old(self)@.at(e)
                    && !(x matches Ok((t, _)) && t is WhiteSpace),
            },
    {
        proof {
            self.lemma_wf();
        }
        let w0 = self.ch_at(0);
        let w1 = self.ch_at(1);
        let w2 = self.ch_at(2);
        match (w0, w1, w2) {
            (Some(c), Some('"' | '\''), _) => match crate::token::StringKind::try_from_char(c) {
                Ok(kind) => match self.checked_lex_string(kind) {
                    Some(r) => Some(Some(r)),
                    None => None,
                },
                Err(msg) => Some(Some(Err(self.error_here(LexicalErrorType::OtherError(msg))))),
            },
            (Some(c1), Some(c2), Some('"' | '\'')) => match crate::token::StringKind::try_from_pair(c1, c2) {
                Ok(kind) => match self.checked_lex_string(kind) {
                    Some(r) => Some(Some(r)),
                    None => None,
                },
                Err(msg) => Some(Some(Err(self.error_here(LexicalErrorType::OtherError(msg))))),
            },
            _ => Some(None),
        }
    }

    /// A string with a one- or two-character prefix at the current character; `None` where
    /// no quote follows such a prefix.
    pub fn try_lex_tagged_string(&mut self) -> (r: Option<LexResult>)
        requires
            old(self).wf(),
        ensures
            final(self).wf(),
            final(self)@.src == old(self)@.src,
            old(self)@.pos <= final(self)@.pos,
            match spec_try_lex_tagged_string(old(self)@.src, old(self)@.pos)->0 {
                None => r is None && final(self)@ == old(self)@,
                Some((v, e)) => r matches Some(x) && result_view(x) == v && final(self)@ == old(self)@.at(e),
            },
    {
        proof {
            crate::lex_laws::lemma_tagged_string_defined(self@.src, self@.pos);
        }
        match self.checked_try_lex_tagged_string() {
            Some(r) => r,
            None => None,
        }
    }
}

} // verus!

verus! {

/// The operator tokens that need no state, with the number of characters each takes.
fn operator_token(w0: Option<char>, w1: Option<char>, w2: Option<char>) -> (r: Option<(Token, u32)>)
    ensures
        match spec_operator(w0, w1, w2) {
            Some((t, n)) => r matches Some((rt, rn)) && rt == t && rn == n,
            None => r is None,
        },
{
    match (w0, w1, w2) {
        (Some('='), Some('='), _) => Some((Token::EqEqual, 2)),
        (Some('='), _, _) => Some((Token::Equal, 1)),
        (Some('+'), Some('='), _) => Some((Token::PlusEqual, 2)),
        (Some('+'), _, _) => Some((Token::Plus, 1)),
        (Some('*'), Some('*'), Some('=')) => Some((Token::DoubleStarEqual, 3)),
        (Some('*'), Some('*'), _) => Some((Token::DoubleStar, 2)),
        (Some('*'), Some('='), _) => Some((Token::StarEqual, 2)),
        (Some('*'), _, _) => Some((Token::Star, 1)),
        (Some('/'), Some('/'), Some('=')) => Some((Token::DoubleSlashEqual, 3)),
        (Some('/'), Some('/'), _) => Some((Token::DoubleSlash, 2)),
        (Some('/'), Some('='), _) => Some((Token::SlashEqual, 2)),
        (Some('/'), _, _) => Some((Token::Slash, 1)),
        (Some('%'), Some('='), _) => Some((Token::PercentEqual, 2)),
        (Some('%'), _, _) => Some((Token::Percent, 1)),
        (Some('|'), Some('='), _) => Some((Token::VbarEqual, 2)),
        (Some('|'), _, _) => Some((Token::Vbar, 1)),
        (Some('^'), Some('='), _) => Some((Token::CircumflexEqual, 2)),
        (Some('^'), _, _) => Some((Token::CircumFlex, 1)),
        (Some('&'), Some('='), _) => Some((Token::AmperEqual, 2)),
        (Some('&'), _, _) => Some((Token::Amper, 1)),
        (Some('-'), Some('='), _) => Some((Token::MinusEqual, 2)),
        (Some('-'), Some('>'), _) => Some((Token::Rarrow, 2)),
        (Some('-'), _, _) => Some((Token::Minus, 1)),
        (Some('@'), Some('='), _) => Some((Token::AtEqual, 2)),
        (Some('@'), _, _) => Some((Token::At, 1)),
        (Some('!'), Some('='), _) => Some((Token::NotEqual, 2)),
        (Some('~'), _, _) => Some((Token::Tilde, 1)),
        (Some(':'), Some('='), _) => Some((Token::ColonEqual, 2)),
        (Some(':'), _, _) => Some((Token::Colon, 1)),
        (Some(';'), _, _) => Some((Token::Semi, 1)),
        (Some('<'), Some('<'), Some('=')) => Some((Token::LeftShiftEqual, 3)),
        (Some('<'), Some('<'), _) => Some((Token::LeftShift, 2)),
        (Some('<'), Some('='), _) => Some((Token::LessEqual, 2)),
        (Some('<'), _, _) => Some((Token::Less, 1)),
        (Some('>'), Some('>'), Some('=')) => Some((Token::RightShiftEqual, 3)),
        (Some('>'), Some('>'), _) => Some((Token::RightShift, 2)),
        (Some('>'), Some('='), _) => Some((Token::GreaterEqual, 2)),
        (Some('>'), _, _) => Some((Token::Greater, 1)),
        (Some(','), _, _) => Some((Token::Comma, 1)),
        (Some('.'), Some('.'), Some('.')) => Some((Token::Ellipsis, 3)),
        (Some('.'), _, _) => Some((Token::Dot, 1)),
        _ => None,
    }
}

impl Lexer {
    fn lex_blank(&mut self) -> (r: LexResult)
        requires
            old(self).wf(),
            old(self)@.window(0) == Some(' ') || old(self)@.window(0) == Some('\t') || old(self)@.window(0) == Some('\x0c'),
        ensures
            final(self).wf(),
            final(self)@.src == old(self)@.src,
            old(self)@.pos < final(self)@.pos,
            result_view(r) == Ok::<SpanView, ErrorView>(span(TokenView::Plain(Token::WhiteSpace), old(self)@.src, old(self)@.pos, blank_scan(old(self)@.src, old(self)@.pos))),
            final(self)@ == old(self)@.at(blank_scan(old(self)@.src, old(self)@.pos)),
    {
        let ghost s = self@.src;
        let ghost p0 = self@.pos;
        proof {
            self.lemma_wf();
        }
        let start_pos = self.char_cursor();
        loop
            invariant
                self.wf(),
                self@ == old(self)@.at(self@.pos),
                s == self@.src,
                p0 == old(self)@.pos,
                p0 <= self@.pos <= s.len(),
                start_pos.raw == cursor_at(s, p0),
                blank_scan(s, p0) == blank_scan(s, self@.pos),
                self@.pos == p0 ==> (self@.window(0) == Some(' ') || self@.window(0) == Some('\t') || self@.window(0) == Some('\x0c')),
            decreases s.len() - self@.pos,
        {
            proof {
                lemma_adv(s, self@.pos);
            }
            match self.ch_at(0) {
                Some(' ' | '\t' | '\x0c') => {
                    self.next_char();
                },
                _ => {
                    proof {
                        lemma_cursor_mono(s, p0, self@.pos);
                    }
                    let end_pos = self.char_cursor();
                    return Ok((Token::WhiteSpace, TextRange::new(start_pos, end_pos)));
                },
            }
        }
    }

    /// The token of a single character, one character long.
    fn lex_single(&mut self, token: Token) -> (r: LexResult)
        requires
            old(self).wf(),
            old(self)@.pos < old(self)@.src.len(),
        ensures
            final(self).wf(),
            final(self)@.src == old(self)@.src,
            old(self)@.pos < final(self)@.pos,
            result_view(r) == Ok::<SpanView, ErrorView>(span(token@, old(self)@.src, old(self)@.pos, adv(old(self)@.src, old(self)@.pos))),
            final(self)@ == old(self)@.at(adv(old(self)@.src, old(self)@.pos)),
    {
        proof {
            self.lemma_wf();
            lemma_adv(self@.src, self@.pos);
            lemma_adv_n_one(self@.src, self@.pos);
            lemma_cursor_mono(self@.src, self@.pos, adv(self@.src, self@.pos));
        }
        let start_pos = self.char_cursor();
        let end_pos = self.jump_forward_n_chars(1);
        Ok((token, TextRange::new(start_pos, end_pos)))
    }

    /// One token from the current character, which starts no name: a number, a comment, a
    /// string, an operator, a bracket, a newline or a run of blanks; `None` at the end of the
    /// source or at a number whose exponent error would be located past what a `u32` holds.
    pub fn checked_lex_next(&mut self) -> (r: Option<LexResult>)
        requires
            old(self).wf(),
        ensures
            final(self).wf(),
            final(self)@.src == old(self)@.src,
            old(self)@.pos <= final(self)@.pos,
            match spec_lex_next(old(self)@) {
                None => r is None,
                Some((v, v2)) => r matches Some(x) && result_view(x) == v && final(self)@ == v2
                    && (x matches Ok((t, _)) && t is WhiteSpace ==> old(self)@.pos < final(self)@.pos),
            },
    {
        let ghost s = self@.src;
        let ghost p0 = self@.pos;
        proof {
            self.lemma_wf();
            lemma_adv(s, p0);
            lemma_adv_n_one(s, p0);
        }
        let w0 = self.ch_at(0);
        let w1 = self.ch_at(1);
        let w2 = self.ch_at(2);
        let c = match w0 {
            Some(c) => c,
            None => return None,
        };
        if '0' <= c && c <= '9' {
            return self.checked_lex_number();
        }
        if c == '#' {
            return Some(self.lex_single_line_comment());
        }
        if c == '"' || c == '\'' {
            return self.checked_lex_string(crate::token::StringKind::String);
        }
        if let Some((token, n)) = operator_token(w0, w1, w2) {
            proof {
                lemma_adv_n(s, p0, n as nat);
                lemma_cursor_mono(s, p0, adv_n(s, p0, n as nat));
            }
            let start_pos = self.char_cursor();
            let end_pos = self.jump_forward_n_chars(n);
            return Some(Ok((token, TextRange::new(start_pos, end_pos))));
        }
        if c == '!' {
            return Some(Err(self.error_here(LexicalErrorType::UnrecognizedToken { tok: '!' })));
        }
        if c == '(' || c == '[' || c == '{' {
            let token = if c == '(' {
                Token::Lpar
            } else if c == '[' {
                Token::Lsqb
            } else {
                Token::Lbrace
            };
            let r = self.lex_single(token);
            self.nesting = self.nesting + 1;
            return Some(r);
        }
        if c == ')' || c == ']' || c == '}' {
            if self.nesting == 0 {
                return Some(Err(self.error_here(LexicalErrorType::NestingError)));
            }
            self.nesting = self.nesting - 1;
            let token = if c == ')' {
                Token::Rpar
            } else if c == ']' {
                Token::Rsqb
            } else {
                Token::Rbrace
            };
            return Some(self.lex_single(token));
        }
        if c == '\n' || c == '\r' {
            if self.nesting == 0 {
                self.at_begin_of_line = true;
                return Some(self.lex_single(Token::Newline));
            } else {
                return Some(self.lex_single(Token::NonLogicalNewline));
            }
        }
        if c == ' ' || c == '\t' || c == '\x0c' {
            return Some(self.lex_blank());
        }
        if c == '\\' {
            match w1 {
                Some('\n' | '\r') => {
                    return Some(Err(self.error_here(LexicalErrorType::LineContinuationError)));
                },
                None => {
                    return Some(Err(self.error_here(LexicalErrorType::Eof)));
                },
                _ => {},
            }
        }
        if crate::unicode::is_emoji_presentation(c) {
            let one = [c];
            assert(one@ =~= seq![c]);
            return Some(self.lex_single(Token::Name { name: crate::token::chars_to_string(&one) }));
        }
        Some(Err(self.error_here(LexicalErrorType::UnrecognizedToken { tok: c })))
    }

    /// One token from the current character, which starts no name: a number, a comment, a
    /// string, an operator, a bracket, a newline or a run of blanks.
    pub fn lex_next(&mut self) -> (r: LexResult)
        requires
            old(self).wf(),
            spec_lex_next(old(self)@) is Some,
        ensures
            final(self).wf(),
            final(self)@.src == old(self)@.src,
            old(self)@.pos <= final(self)@.pos,
            ({
                let (v, v2) = spec_lex_next(old(self)@)->0;
                &&& result_view(r) == v
                &&& final(self)@ == v2
            }),
    {
        match self.checked_lex_next() {
            Some(r) => r,
            None => Err(self.error_here(LexicalErrorType::Eof)),
        }
    }
}

} // verus!

verus! {

pub open spec fn unit_result_view(r: Result<(), LexicalError>) -> Result<(), ErrorView> {
    match r {
        Ok(()) => Ok(()),
        Err(e) => Err(e@),
    }
}

impl Lexer {
    fn push_token(&mut self, t: TokenSpan)
        requires
            old(self).wf(),
        ensures
            final(self).wf(),
            final(self)@ == old(self)@.push(span_view(t)),
    {
        let ghost q = self.queue@;
        self.queue.push(t);
        proof {
            assert(self.queue@.map_values(|t: TokenSpan| span_view(t)) =~= q.map_values(
                |t: TokenSpan| span_view(t),
            ).push(span_view(t)));
        }
    }

    /// One step of filling the queue; `None` at a number whose exponent error would be
    /// located past what a `u32` holds.
    pub fn checked_populate_results_queue(&mut self) -> (r: Option<Result<(), LexicalError>>)
        requires
            old(self).wf(),
        ensures
            final(self).wf(),
            final(self)@.src == old(self)@.src,
            old(self)@.pos <= final(self)@.pos,
            match spec_populate(old(self)@) {
                None => r is None,
                Some((res, v2)) => r matches Some(x) && unit_result_view(x) == res && final(self)@ == v2
                    && (x is Ok && final(self)@.queue.len() == old(self)@.queue.len() ==> old(self)@.pos
                    < final(self)@.pos),
            },
    {
        let ghost v = self@;
        let ghost s = v.src;
        let ghost p = v.pos;
        proof {
            self.lemma_wf();
        }
        match self.ch_at(0) {
            Some(c) => {
                if is_identifier_or_keywords_start(c) {
                    match self.checked_try_lex_tagged_string() {
                        None => None,
                        Some(Some(Ok(t))) => {
                            self.push_token(t);
                            Some(Ok(()))
                        },
                        Some(Some(Err(e))) => Some(Err(e)),
                        Some(None) => {
                            match self.lex_identifier_or_keyword() {
                                Ok(t) => {
                                    self.push_token(t);
                                    Some(Ok(()))
                                },
                                Err(e) => Some(Err(e)),
                            }
                        },
                    }
                } else {
                    match self.checked_lex_next() {
                        None => None,
                        Some(Err(e)) => Some(Err(e)),
                        Some(Ok(t)) => {
                            if !t.0.is_whitespace() {
                                self.push_token(t);
                            }
                            Some(Ok(()))
                        },
                    }
                }
            },
            None => {
                if self.nesting > 0 {
                    return Some(Err(self.error_here(LexicalErrorType::Eof)));
                }
                if !self.at_begin_of_line {
                    self.at_begin_of_line = true;
                    let c = self.char_cursor();
                    self.push_token((Token::Newline, TextRange::empty(c)));
                }
                let ghost v1 = self@;
                proof {
                    assert(v1.indents.take(v1.indents.len() as int) =~= v1.indents);
                    assert(v1.queue + dedents(s, p, 0) =~= v1.queue);
                }
                while !self.indentations.is_empty()
                    invariant
                        self.wf(),
                        1 <= self@.indents.len() <= v1.indents.len(),
                        self@ == (LexerView {
                            indents: v1.indents.take(self@.indents.len() as int),
                            queue: v1.queue + dedents(s, p, (v1.indents.len() - self@.indents.len()) as nat),
                            ..v1
                        }),
                        v1.src == s,
                        v1.pos == p,
                    decreases self@.indents.len(),
                {
                    let ghost k = self@.indents.len();
                    self.indentations.pop();
                    let c = self.char_cursor();
                    self.push_token((Token::Dedent, TextRange::empty(c)));
                    proof {
                        assert(v1.indents.take(k as int).drop_last() =~= v1.indents.take(k - 1));
                        assert(v1.queue + dedents(s, p, (v1.indents.len() - (k - 1)) as nat) =~= (v1.queue + dedents(s, p, (v1.indents.len() - k) as nat)).push(
                            (TokenView::Plain(Token::Dedent), range_at(s, p))));
                    }
                }
                let c = self.char_cursor();
                self.push_token((Token::EndOfFile, TextRange::empty(c)));
                Some(Ok(()))
            },
        }
    }

    /// One step of filling the queue: a name or tagged string, another token (blanks are
    /// dropped), or at the end of the source a newline if needed, a dedent for each open
    /// indentation level and the end-of-file token.
    pub fn populate_results_queue(&mut self) -> (r: Result<(), LexicalError>)
        requires
            old(self).wf(),
            spec_populate(old(self)@) is Some,
        ensures
            final(self).wf(),
            final(self)@.src == old(self)@.src,
            old(self)@.pos <= final(self)@.pos,
            ({
                let (res, v2) = spec_populate(old(self)@)->0;
                &&& unit_result_view(r) == res
                &&& final(self)@ == v2
            }),
    {
        match self.checked_populate_results_queue() {
            Some(r) => r,
            None => Err(self.error_here(LexicalErrorType::Eof)),
        }
    }
}

} // verus!

verus! {

impl Lexer {
    /// Pops the levels deeper than `level`, with a dedent token for each, until an equal one.
    fn dedent_to(&mut self, level: IndentationLevel) -> (r: Result<(), LexicalError>)
        requires
            old(self).wf(),
        ensures
            final(self).wf(),
            final(self)@.src == old(self)@.src,
            final(self)@.pos == old(self)@.pos,
            ({
                let (res, v2) = dedent_loop(old(self)@, level);
                &&& unit_result_view(r) == res
                &&& final(self)@ == v2
            }),
    {
        loop
            invariant
                self.wf(),
                self@.src == old(self)@.src,
                self@.pos == old(self)@.pos,
                dedent_loop(old(self)@, level) == dedent_loop(self@, level),
            decreases self@.indents.len(),
        {
            let prev = *self.indentations.current();
            match level.compare_strict(&prev, self.char_cursor()) {
                Err(e) => {
                    return Err(e);
                },
                Ok(LevelOrdering::Less) => {
                    proof {
                        if self@.indents.len() == 1 {
                            assert(self@.indents.last() == self@.indents[0]);
                        }
                    }
                    let ghost v = self@;
                    self.indentations.pop();
                    let c = self.char_cursor();
                    self.push_token((Token::Dedent, TextRange::empty(c)));
                    proof {
                        assert(self@.indents[0] == v.indents[0]);
                    }
                },
                Ok(LevelOrdering::Equal) => {
                    return Ok(());
                },
                Ok(LevelOrdering::Greater) => {
                    return Err(self.error_here(LexicalErrorType::IndentationError));
                },
            }
        }
    }

    /// The indent or dedent tokens that the indentation `level` of a new line makes.
    fn finish_indentation(&mut self, level: IndentationLevel) -> (r: Result<(), LexicalError>)
        requires
            old(self).wf(),
            level.spaces + level.tabs <= old(self)@.pos,
        ensures
            final(self).wf(),
            final(self)@.src == old(self)@.src,
            final(self)@.pos == old(self)@.pos,
            ({
                let (res, v2) = indent_finish(old(self)@, level);
                &&& unit_result_view(r) == res
                &&& final(self)@ == v2
            }),
    {
        proof {
            self.lemma_wf();
            lemma_cursor_mono(self@.src, self@.pos, self@.pos);
        }
        let prev = *self.indentations.current();
        let ordering = match level.compare_strict(&prev, self.char_cursor()) {
            Ok(o) => o,
            Err(e) => return Err(e),
        };
        match ordering {
            LevelOrdering::Equal => Ok(()),
            LevelOrdering::Greater => {
                let ghost v = self@;
                self.indentations.push(level);
                proof {
                    assert(self@.indents[0] == v.indents[0]);
                }
                let c = self.char_cursor();
                let start = TextSize::new(c.raw - level.spaces - level.tabs);
                self.push_token((Token::Indent, TextRange::new(start, c)));
                Ok(())
            },
            LevelOrdering::Less => self.dedent_to(level),
        }
    }

    /// Reads the blanks at the start of a line (skipping comments and blank lines) and
    /// queues the indent or dedent tokens their indentation makes.
    fn handle_indentations(&mut self) -> (r: Result<(), LexicalError>)
        requires
            old(self).wf(),
        ensures
            final(self).wf(),
            final(self)@.src == old(self)@.src,
            old(self)@.pos <= final(self)@.pos,
            ({
                let (res, v2) = spec_handle_indentations(old(self)@);
                &&& unit_result_view(r) == res
                &&& final(self)@ == v2
            }),
    {
        let ghost v0 = self@;
        let ghost s = v0.src;
        proof {
            self.lemma_wf();
        }
        let mut level = IndentationLevel::default();
        loop
            invariant
                self.wf(),
                self@.src == s,
                s == v0.src,
                v0 == old(self)@,
                v0.pos <= self@.pos <= s.len(),
                s.len() <= u32::MAX,
                level.spaces + level.tabs <= self@.pos,
                indent_scan(v0, zero_level()) == indent_scan(self@, level),
            decreases s.len() - self@.pos,
        {
            let ghost q = self@.pos;
            proof {
                lemma_adv(s, q);
                lemma_adv_n_one(s, q);
                lemma_cursor_mono(s, q, adv(s, q));
            }
            match self.ch_at(0) {
                Some(' ') => {
                    self.next_char();
                    level.spaces = level.spaces + 1;
                },
                Some('\t') => {
                    if level.spaces != 0 {
                        return Err(self.error_here(LexicalErrorType::TabsAfterSpaces));
                    }
                    self.next_char();
                    level.tabs = level.tabs + 1;
                },
                Some('#') => {
                    self.lex_single_line_comment();
                    level.reset();
                },
                Some('\x0c') => {
                    self.next_char();
                    level.reset();
                },
                Some('\n' | '\r') => {
                    level.reset();
                    let start = self.char_cursor();
                    let end = self.jump_forward_n_chars(1);
                    self.push_token((Token::NonLogicalNewline, TextRange::new(start, end)));
                },
                None => {
                    level.reset();
                    return self.finish_indentation(level);
                },
                _ => {
                    self.at_begin_of_line = false;
                    return self.finish_indentation(level);
                },
            }
        }
    }
}

} // verus!

verus! {

impl Lexer {
    /// Fills the queue (indentation first at the start of a line, then populating steps)
    /// and takes its first token; `None` where a populating step is not defined.
    fn inner_next(&mut self) -> (r: Option<LexResult>)
        requires
            old(self).wf(),
        ensures
            final(self).wf(),
            final(self)@.src == old(self)@.src,
            old(self)@.pos <= final(self)@.pos,
            match spec_inner_next(old(self)@) {
                None => r is None,
                Some((v, v2)) => r matches Some(x) && result_view(x) == v && final(self)@ == v2,
            },
    {
        if !self.queue.is_empty() {
            return Some(Ok(self.take_first()));
        }
        loop
            invariant
                self.wf(),
                self@.src == old(self)@.src,
                old(self)@.pos <= self@.pos,
                self@.queue.len() == 0,
                spec_fill(old(self)@) == spec_fill(self@),
            decreases self@.src.len() - self@.pos,
        {
            let ghost v = self@;
            proof {
                self.lemma_wf();
            }
            if self.at_begin_of_line {
                match self.handle_indentations() {
                    Err(e) => {
                        return Some(Err(e));
                    },
                    Ok(()) => {},
                }
            }
            match self.checked_populate_results_queue() {
                None => {
                    return None;
                },
                Some(Err(e)) => {
                    return Some(Err(e));
                },
                Some(Ok(())) => {},
            }
            proof {
                self.lemma_wf();
            }
            if !self.queue.is_empty() {
                return Some(Ok(self.take_first()));
            }
        }
    }

    fn take_first(&mut self) -> (r: TokenSpan)
        requires
            old(self).wf(),
            old(self)@.queue.len() > 0,
        ensures
            final(self).wf(),
            span_view(r) == old(self)@.queue[0],
            final(self)@ == (LexerView { queue: old(self)@.queue.drop_first(), ..old(self)@ }),
    {
        let ghost q = self.queue@;
        let t = self.queue.remove(0);
        proof {
            assert(self.queue@.map_values(|t: TokenSpan| span_view(t)) =~= q.map_values(
                |t: TokenSpan| span_view(t),
            ).drop_first());
        }
        t
    }

    /// The next token or error of the lexer; `None` at the end of the source.
    pub fn next(&mut self) -> (r: Option<LexResult>)
        requires
            old(self).wf(),
            spec_next(old(self)@) is Some,
        ensures
            final(self).wf(),
            final(self)@.src == old(self)@.src,
            old(self)@.pos <= final(self)@.pos,
            ({
                let (o, v2) = spec_next(old(self)@)->0;
                &&& match o {
                    None => r is None,
                    Some(x) => r matches Some(y) && result_view(y) == x,
                }
                &&& final(self)@ == v2
            }),
    {
        match self.try_next() {
            Some(r) => r,
            None => None,
        }
    }

    /// The next token or error of the lexer (`Some(None)` at the end of the source), or
    /// `None` where filling the queue is not defined, as at a number whose exponent error
    /// would be located past what a `u32` holds.
    pub fn try_next(&mut self) -> (r: Option<Option<LexResult>>)
        requires
            old(self).wf(),
        ensures
            final(self).wf(),
            final(self)@.src == old(self)@.src,
            old(self)@.pos <= final(self)@.pos,
            match spec_next(old(self)@) {
                None => r is None,
                Some((o, v2)) => final(self)@ == v2 && match o {
                    None => r == Some::<Option<LexResult>>(None),
                    Some(x) => r matches Some(Some(y)) && result_view(y) == x,
                },
            },
    {
        match self.inner_next() {
            None => None,
            Some(Ok((Token::EndOfFile, range))) => Some(None),
            Some(r) => Some(Some(r)),
        }
    }
}

} // verus!

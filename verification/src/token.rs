use vstd::prelude::*;
use crate::text_size::TextSize;

verus! {

/// The kinds of string literal, by their prefix.
#[derive(Clone, Copy, Debug, PartialEq, Eq, Structural)]
pub enum StringKind {
    /// No prefix.
    String,
    /// `f`.
    FString,
    /// `b`.
    Bytes,
    /// `r`.
    RawString,
    /// `rf` or `fr`.
    RawFString,
    /// `rb` or `br`.
    RawBytes,
    /// `u`.
    Unicode,
}

/// The string kind a one-character prefix names.
pub open spec fn spec_kind_of_prefix(c: char) -> Option<StringKind> {
    if c == 'r' || c == 'R' {
        Some(StringKind::RawString)
    } else if c == 'f' || c == 'F' {
        Some(StringKind::FString)
    } else if c == 'u' || c == 'U' {
        Some(StringKind::Unicode)
    } else if c == 'b' || c == 'B' {
        Some(StringKind::Bytes)
    } else {
        None
    }
}

/// The string kind a two-character prefix names.
pub open spec fn spec_kind_of_prefix_pair(c1: char, c2: char) -> Option<StringKind> {
    let r1 = c1 == 'r' || c1 == 'R';
    let r2 = c2 == 'r' || c2 == 'R';
    let f1 = c1 == 'f' || c1 == 'F';
    let f2 = c2 == 'f' || c2 == 'F';
    let b1 = c1 == 'b' || c1 == 'B';
    let b2 = c2 == 'b' || c2 == 'B';
    if (r1 && f2) || (f1 && r2) {
        Some(StringKind::RawFString)
    } else if (r1 && b2) || (b1 && r2) {
        Some(StringKind::RawBytes)
    } else {
        None
    }
}

/// The number of prefix characters of a kind.
pub open spec fn spec_prefix_len(k: StringKind) -> nat {
    match k {
        StringKind::String => 0,
        StringKind::RawFString | StringKind::RawBytes => 2,
        _ => 1,
    }
}

/// The message for a prefix that names no string kind.
pub open spec fn prefix_error_message(prefix: Seq<char>) -> Seq<char> {
    "Unexpected string prefix: "@ + prefix
}

/// A string holding exactly the characters `chars`, as collecting them into a `String` does.
#[verifier::external_body]
pub(crate) fn chars_to_string(chars: &[char]) -> (r: String)
    ensures
        r@ == chars@,
{
    chars.iter().collect()
}

fn prefix_error(prefix: &[char]) -> (r: String)
    ensures
        r@ == prefix_error_message(prefix@),
{
    let mut msg = "Unexpected string prefix: ".to_owned();
    let tail = chars_to_string(prefix);
    msg.append(tail.as_str());
    msg
}

impl StringKind {
    /// The kind a one-character prefix names, or the message for an unknown prefix.
    pub fn try_from_char(c: char) -> (r: Result<StringKind, String>)
        ensures
            match spec_kind_of_prefix(c) {
                Some(k) => r == Ok::<StringKind, String>(k),
                None => r matches Err(m) && m@ == prefix_error_message(seq![c]),
            },
    {
        match c {
            'r' | 'R' => Ok(StringKind::RawString),
            'f' | 'F' => Ok(StringKind::FString),
            'u' | 'U' => Ok(StringKind::Unicode),
            'b' | 'B' => Ok(StringKind::Bytes),
            _ => {
                let p = [c];
                assert(p@ =~= seq![c]);
                Err(prefix_error(&p))
            },
        }
    }

    /// The kind a two-character prefix names, or the message for an unknown prefix.
    pub fn try_from_pair(c1: char, c2: char) -> (r: Result<StringKind, String>)
        ensures
            match spec_kind_of_prefix_pair(c1, c2) {
                Some(k) => r == Ok::<StringKind, String>(k),
                None => r matches Err(m) && m@ == prefix_error_message(seq![c1, c2]),
            },
    {
        match (c1, c2) {
            ('r' | 'R', 'f' | 'F') => Ok(StringKind::RawFString),
            ('f' | 'F', 'r' | 'R') => Ok(StringKind::RawFString),
            ('r' | 'R', 'b' | 'B') => Ok(StringKind::RawBytes),
            ('b' | 'B', 'r' | 'R') => Ok(StringKind::RawBytes),
            _ => {
                let p = [c1, c2];
                assert(p@ =~= seq![c1, c2]);
                Err(prefix_error(&p))
            },
        }
    }

    /// The number of prefix characters of the kind.
    pub fn prefix_len(&self) -> (r: TextSize)
        ensures
            r.raw == spec_prefix_len(*self),
    {
        match self {
            StringKind::String => TextSize::new(0),
            StringKind::RawFString | StringKind::RawBytes => TextSize::new(2),
            _ => TextSize::new(1),
        }
    }
}

/// The tokens of Python source.
#[derive(Clone, Debug, PartialEq)]
pub enum Token {
    /// An identifier.
    Name { name: String },
    /// An integer literal.
    Int { value: i64 },
    /// A floating-point literal, as the text that is read as its value.
    Float { value: String },
    /// An imaginary literal, as the text that is read as its imaginary part.
    Complex { imag: String },
    /// A string literal, with its content between the quotes.
    String { value: String, kind: StringKind, triple_quoted: bool },
    /// A comment, from its `#` to the end of its line.
    Comment(String),
    Newline,
    NonLogicalNewline,
    Indent,
    Dedent,
    EndOfFile,
    WhiteSpace,
    Lpar,
    Rpar,
    Lsqb,
    Rsqb,
    Colon,
    Comma,
    Semi,
    Plus,
    Minus,
    Star,
    Slash,
    Vbar,
    Amper,
    Less,
    Greater,
    Equal,
    Dot,
    Percent,
    Lbrace,
    Rbrace,
    EqEqual,
    NotEqual,
    LessEqual,
    GreaterEqual,
    Tilde,
    CircumFlex,
    LeftShift,
    RightShift,
    DoubleStar,
    DoubleStarEqual,
    PlusEqual,
    MinusEqual,
    StarEqual,
    SlashEqual,
    PercentEqual,
    AmperEqual,
    VbarEqual,
    CircumflexEqual,
    LeftShiftEqual,
    RightShiftEqual,
    DoubleSlash,
    DoubleSlashEqual,
    ColonEqual,
    At,
    AtEqual,
    Rarrow,
    Ellipsis,
    False,
    NoneKeyword,
    True,
    And,
    As,
    Assert,
    Async,
    Await,
    Break,
    Class,
    Continue,
    Def,
    Del,
    Elif,
    Else,
    Except,
    Finally,
    For,
    From,
    Global,
    If,
    Import,
    In,
    Is,
    Lambda,
    Nonlocal,
    Not,
    Or,
    Pass,
    Raise,
    Return,
    Try,
    While,
    With,
    Yield,
}

/// A token with its text as character sequences.
pub enum TokenView {
    Name(Seq<char>),
    Int(i64),
    Float(Seq<char>),
    Complex(Seq<char>),
    Str(Seq<char>, StringKind, bool),
    Comment(Seq<char>),
    /// A token without text.
    Plain(Token),
}

impl View for Token {
    type V = TokenView;

    open spec fn view(&self) -> TokenView {
        match self {
            Token::Name { name } => TokenView::Name(name@),
            Token::Int { value } => TokenView::Int(*value),
            Token::Float { value } => TokenView::Float(value@),
            Token::Complex { imag } => TokenView::Complex(imag@),
            Token::String { value, kind, triple_quoted } => TokenView::Str(value@, *kind, *triple_quoted),
            Token::Comment(s) => TokenView::Comment(s@),
            _ => TokenView::Plain(*self),
        }
    }
}

/// The keyword token that `name` spells, if any.
pub open spec fn spec_keyword(name: Seq<char>) -> Option<Token> {
    if name == seq!['F', 'a', 'l', 's', 'e'] {
        Some(Token::False)
    }     else if name == seq!['N', 'o', 'n', 'e'] {
        Some(Token::NoneKeyword)
    }     else if name == seq!['T', 'r', 'u', 'e'] {
        Some(Token::True)
    }     else if name == seq!['a', 'n', 'd'] {
        Some(Token::And)
    }     else if name == seq!['a', 's'] {
        Some(Token::As)
    }     else if name == seq!['a', 's', 's', 'e', 'r', 't'] {
        Some(Token::Assert)
    }     else if name == seq!['a', 's', 'y', 'n', 'c'] {
        Some(Token::Async)
    }     else if name == seq!['a', 'w', 'a', 'i', 't'] {
        Some(Token::Await)
    }     else if name == seq!['b', 'r', 'e', 'a', 'k'] {
        Some(Token::Break)
    }     else if name == seq!['c', 'l', 'a', 's', 's'] {
        Some(Token::Class)
    }     else if name == seq!['c', 'o', 'n', 't', 'i', 'n', 'u', 'e'] {
        Some(Token::Continue)
    }     else if name == seq!['d', 'e', 'f'] {
        Some(Token::Def)
    }     else if name == seq!['d', 'e', 'l'] {
        Some(Token::Del)
    }     else if name == seq!['e', 'l', 'i', 'f'] {
        Some(Token::Elif)
    }     else if name == seq!['e', 'l', 's', 'e'] {
        Some(Token::Else)
    }     else if name == seq!['e', 'x', 'c', 'e', 'p', 't'] {
        Some(Token::Except)
    }     else if name == seq!['f', 'i', 'n', 'a', 'l', 'l', 'y'] {
        Some(Token::Finally)
    }     else if name == seq!['f', 'o', 'r'] {
        Some(Token::For)
    }     else if name == seq!['f', 'r', 'o', 'm'] {
        Some(Token::From)
    }     else if name == seq!['g', 'l', 'o', 'b', 'a', 'l'] {
        Some(Token::Global)
    }     else if name == seq!['i', 'f'] {
        Some(Token::If)
    }     else if name == seq!['i', 'm', 'p', 'o', 'r', 't'] {
        Some(Token::Import)
    }     else if name == seq!['i', 'n'] {
        Some(Token::In)
    }     else if name == seq!['i', 's'] {
        Some(Token::Is)
    }     else if name == seq!['l', 'a', 'm', 'b', 'd', 'a'] {
        Some(Token::Lambda)
    }     else if name == seq!['n', 'o', 'n', 'l', 'o', 'c', 'a', 'l'] {
        Some(Token::Nonlocal)
    }     else if name == seq!['n', 'o', 't'] {
        Some(Token::Not)
    }     else if name == seq!['o', 'r'] {
        Some(Token::Or)
    }     else if name == seq!['p', 'a', 's', 's'] {
        Some(Token::Pass)
    }     else if name == seq!['r', 'a', 'i', 's', 'e'] {
        Some(Token::Raise)
    }     else if name == seq!['r', 'e', 't', 'u', 'r', 'n'] {
        Some(Token::Return)
    }     else if name == seq!['t', 'r', 'y'] {
        Some(Token::Try)
    }     else if name == seq!['w', 'h', 'i', 'l', 'e'] {
        Some(Token::While)
    }     else if name == seq!['w', 'i', 't', 'h'] {
        Some(Token::With)
    }     else if name == seq!['y', 'i', 'e', 'l', 'd'] {
        Some(Token::Yield)
    } else {
        None
    }
}

fn chars_eq(a: &[char], b: &[char]) -> (r: bool)
    ensures
        r == (a@ == b@),
{
    if a.len() != b.len() {
        return false;
    }
    let mut i: usize = 0;
    while i < a.len()
        invariant
            i <= a@.len(),
            a@.len() == b@.len(),
            forall|k: int| 0 <= k < i ==> a@[k] == b@[k],
        decreases a@.len() - i,
    {
        if a[i] != b[i] {
            return false;
        }
        i += 1;
    }
    assert(a@ =~= b@);
    true
}

impl Token {
    /// The keyword token that `name` spells, if any.
    pub fn try_get_keyword(name: &[char]) -> (r: Option<Token>)
        ensures
            r == spec_keyword(name@),
    {
        if chars_eq(name, &['F', 'a', 'l', 's', 'e']) {
            return Some(Token::False);
        }
        if chars_eq(name, &['N', 'o', 'n', 'e']) {
            return Some(Token::NoneKeyword);
        }
        if chars_eq(name, &['T', 'r', 'u', 'e']) {
            return Some(Token::True);
        }
        if chars_eq(name, &['a', 'n', 'd']) {
            return Some(Token::And);
        }
        if chars_eq(name, &['a', 's']) {
            return Some(Token::As);
        }
        if chars_eq(name, &['a', 's', 's', 'e', 'r', 't']) {
            return Some(Token::Assert);
        }
        if chars_eq(name, &['a', 's', 'y', 'n', 'c']) {
            return Some(Token::Async);
        }
        if chars_eq(name, &['a', 'w', 'a', 'i', 't']) {
            return Some(Token::Await);
        }
        if chars_eq(name, &['b', 'r', 'e', 'a', 'k']) {
            return Some(Token::Break);
        }
        if chars_eq(name, &['c', 'l', 'a', 's', 's']) {
            return Some(Token::Class);
        }
        if chars_eq(name, &['c', 'o', 'n', 't', 'i', 'n', 'u', 'e']) {
            return Some(Token::Continue);
        }
        if chars_eq(name, &['d', 'e', 'f']) {
            return Some(Token::Def);
        }
        if chars_eq(name, &['d', 'e', 'l']) {
            return Some(Token::Del);
        }
        if chars_eq(name, &['e', 'l', 'i', 'f']) {
            return Some(Token::Elif);
        }
        if chars_eq(name, &['e', 'l', 's', 'e']) {
            return Some(Token::Else);
        }
        if chars_eq(name, &['e', 'x', 'c', 'e', 'p', 't']) {
            return Some(Token::Except);
        }
        if chars_eq(name, &['f', 'i', 'n', 'a', 'l', 'l', 'y']) {
            return Some(Token::Finally);
        }
        if chars_eq(name, &['f', 'o', 'r']) {
            return Some(Token::For);
        }
        if chars_eq(name, &['f', 'r', 'o', 'm']) {
            return Some(Token::From);
        }
        if chars_eq(name, &['g', 'l', 'o', 'b', 'a', 'l']) {
            return Some(Token::Global);
        }
        if chars_eq(name, &['i', 'f']) {
            return Some(Token::If);
        }
        if chars_eq(name, &['i', 'm', 'p', 'o', 'r', 't']) {
            return Some(Token::Import);
        }
        if chars_eq(name, &['i', 'n']) {
            return Some(Token::In);
        }
        if chars_eq(name, &['i', 's']) {
            return Some(Token::Is);
        }
        if chars_eq(name, &['l', 'a', 'm', 'b', 'd', 'a']) {
            return Some(Token::Lambda);
        }
        if chars_eq(name, &['n', 'o', 'n', 'l', 'o', 'c', 'a', 'l']) {
            return Some(Token::Nonlocal);
        }
        if chars_eq(name, &['n', 'o', 't']) {
            return Some(Token::Not);
        }
        if chars_eq(name, &['o', 'r']) {
            return Some(Token::Or);
        }
        if chars_eq(name, &['p', 'a', 's', 's']) {
            return Some(Token::Pass);
        }
        if chars_eq(name, &['r', 'a', 'i', 's', 'e']) {
            return Some(Token::Raise);
        }
        if chars_eq(name, &['r', 'e', 't', 'u', 'r', 'n']) {
            return Some(Token::Return);
        }
        if chars_eq(name, &['t', 'r', 'y']) {
            return Some(Token::Try);
        }
        if chars_eq(name, &['w', 'h', 'i', 'l', 'e']) {
            return Some(Token::While);
        }
        if chars_eq(name, &['w', 'i', 't', 'h']) {
            return Some(Token::With);
        }
        if chars_eq(name, &['y', 'i', 'e', 'l', 'd']) {
            return Some(Token::Yield);
        }
        None
    }

    /// Whether this is the whitespace token.
    pub fn is_whitespace(&self) -> (r: bool)
        ensures
            r == (*self is WhiteSpace),
    {
        matches!(self, Token::WhiteSpace)
    }

    /// Whether this is the end-of-file token.
    pub fn is_end_of_file(&self) -> (r: bool)
        ensures
            r == (*self is EndOfFile),
    {
        matches!(self, Token::EndOfFile)
    }
}

} // verus!

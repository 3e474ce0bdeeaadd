use vstd::prelude::*;
use crate::lex::{Lexer, LexicalError, initial_view, lemma_utf8_len_take_mono, lemma_utf8_len_take_step};
use crate::lex_spec::{spec_next, ErrorView, LexerView};
use crate::string_parsing::str_to_chars;
use crate::text_size::{utf8_len, TextSize};
use crate::token::chars_to_string;

verus! {

/// A position in a document: a line and a character on it.
pub struct Position {
    pub line: u32,
    pub character: u32,
}

/// The part of a document between two positions.
pub struct Range {
    pub start: Position,
    pub end: Position,
}

/// A change to a document: the text that replaces a range.
pub struct TextEdit {
    pub range: Range,
    pub new_text: String,
}

/// Rewraps the comments of Python source to a maximal line length.
pub struct CommentWrapper {
    pub max_line_length: u64,
}

/// The first error that lexing from `v` meets within `n` tokens, if it meets one before
/// the end of the source.
pub open spec fn first_lex_error(v: LexerView, n: nat) -> Option<ErrorView>
    decreases n,
{
    if n == 0 {
        None
    } else {
        match spec_next(v) {
            Some((Some(Err(e)), _)) => Some(e),
            Some((Some(Ok(_)), v1)) => first_lex_error(v1, (n - 1) as nat),
            _ => None,
        }
    }
}

/// The lexer meets the same first error however many further tokens one allows it.
pub proof fn lemma_first_lex_error_stable(v: LexerView, n: nat, m: nat)
    requires
        n <= m,
        first_lex_error(v, n) is Some,
    ensures
        first_lex_error(v, m) == first_lex_error(v, n),
    decreases n,
{
    if n > 0 {
        match spec_next(v) {
            Some((Some(Ok(_)), v1)) => lemma_first_lex_error_stable(v1, (n - 1) as nat, (m - 1) as nat),
            _ => {},
        }
    }
}

impl CommentWrapper {
    /// Lexes `source` and returns the first lexical error in it.
    pub fn process(&self, source: &str) -> (r: Result<Vec<TextEdit>, LexicalError>)
        requires
            utf8_len(source@) <= u32::MAX,
            exists|n: nat| #[trigger] first_lex_error(initial_view(source@), n) is Some,
        ensures
            forall|n: nat|
                #[trigger] first_lex_error(initial_view(source@), n) matches Some(e) ==> r matches Err(
                    x,
                ) && x@ == e,
    {
        let chars = str_to_chars(source);
        let mut lexer = Lexer::new(chars);
        let ghost n: nat = choose|n: nat| #[trigger] first_lex_error(initial_view(source@), n) is Some;
        let ghost first = first_lex_error(initial_view(source@), n);
        let ghost mut fuel: nat = n;
        proof {
            assert forall|m: nat| #[trigger] first_lex_error(initial_view(source@), m) is Some implies first_lex_error(
                initial_view(source@),
                m,
            ) == first by {
                if m <= n {
                    lemma_first_lex_error_stable(initial_view(source@), m, n);
                } else {
                    lemma_first_lex_error_stable(initial_view(source@), n, m);
                }
            }
        }
        loop
            invariant
                lexer.wf(),
                first is Some,
                first_lex_error(lexer@, fuel) == first,
                forall|m: nat|
                    #[trigger] first_lex_error(initial_view(source@), m) is Some
                        ==> first_lex_error(initial_view(source@), m) == first,
            decreases fuel,
        {
            match lexer.try_next() {
                Some(Some(Ok(_))) => {
                    proof {
                        fuel = (fuel - 1) as nat;
                    }
                },
                Some(Some(Err(e))) => {
                    return Err(e);
                },
                _ => {
                    proof {
                        assert(false);
                    }
                    return Ok(Vec::new());
                },
            }
        }
    }
}

impl CommentWrapper {
    /// Lexes at most `max_tokens` tokens of `source`: the result of `process` where they
    /// meet a lexical error, `None` where they do not.
    pub fn try_process(&self, source: &str, max_tokens: usize) -> (r: Option<Result<Vec<TextEdit>, LexicalError>>)
        requires
            utf8_len(source@) <= u32::MAX,
        ensures
            match first_lex_error(initial_view(source@), max_tokens as nat) {
                Some(e) => r matches Some(Err(x)) && x@ == e,
                None => r is None,
            },
    {
        let chars = str_to_chars(source);
        let mut lexer = Lexer::new(chars);
        let mut left = max_tokens;
        loop
            invariant
                lexer.wf(),
                first_lex_error(lexer@, left as nat) == first_lex_error(initial_view(source@), max_tokens as nat),
                utf8_len(source@) <= u32::MAX,
            decreases left,
        {
            if left == 0 {
                return None;
            }
            match lexer.try_next() {
                Some(Some(Ok(_))) => {
                    left = left - 1;
                },
                Some(Some(Err(_))) => {
                    return Some(self.process(source));
                },
                _ => {
                    return None;
                },
            }
        }
    }
}

/// `c` has the Unicode `White_Space` property (the property `char::is_whitespace` reports):
/// tab, line feed, vertical tab, form feed, carriage return, space, next line, no-break
/// space, Ogham space mark, the spaces from en quad to hair space, line and paragraph
/// separators, narrow no-break space, medium mathematical space and ideographic space.
pub open spec fn white_space(c: char) -> bool {
    let v = c as u32;
    ||| 0x09 <= v <= 0x0d
    ||| v == 0x20
    ||| v == 0x85
    ||| v == 0xa0
    ||| v == 0x1680
    ||| 0x2000 <= v <= 0x200a
    ||| v == 0x2028
    ||| v == 0x2029
    ||| v == 0x202f
    ||| v == 0x205f
    ||| v == 0x3000
}

/// Whether `c` has the Unicode `White_Space` property.
pub fn is_white_space(c: char) -> (r: bool)
    ensures
        r == white_space(c),
{
    let v = c as u32;
    (0x09 <= v && v <= 0x0d) || v == 0x20 || v == 0x85 || v == 0xa0 || v == 0x1680 || (0x2000
        <= v && v <= 0x200a) || v == 0x2028 || v == 0x2029 || v == 0x202f || v == 0x205f || v
        == 0x3000
}

/// `t` is `s` without its leading and trailing white space.
pub open spec fn is_trim_of(t: Seq<char>, s: Seq<char>) -> bool {
    exists|a: int, b: int|
        #![trigger s.subrange(a, b)]
        0 <= a <= b <= s.len() && t == s.subrange(a, b) && (forall|i: int|
            0 <= i < a ==> white_space(#[trigger] s[i])) && (forall|i: int|
            b <= i < s.len() ==> white_space(#[trigger] s[i])) && (a < b ==> !white_space(s[a])
            && !white_space(s[b - 1]))
}

/// `s` without a leading `#`.
pub open spec fn without_hash(s: Seq<char>) -> Seq<char> {
    if s.len() > 0 && s[0] == '#' {
        s.drop_first()
    } else {
        s
    }
}

/// Neither a line feed nor a carriage return.
pub open spec fn not_line_break() -> spec_fn(char) -> bool {
    |c: char| c != '\n' && c != '\r'
}

/// `s` without its line feeds and carriage returns.
pub open spec fn without_line_breaks(s: Seq<char>) -> Seq<char> {
    s.filter(not_line_break())
}

/// The text of a one-line comment: without its `#`, without the white space around it,
/// and without line breaks.
pub fn format_single_line_comments(str: String, max_comment_length: u32) -> (r: String)
    ensures
        exists|t: Seq<char>| #[trigger] is_trim_of(t, without_hash(str@)) && r@ == without_line_breaks(t),
{
    let chars = str_to_chars(str.as_str());
    let n = chars.len();
    let start: usize = if n > 0 && chars[0] == '#' {
        1
    } else {
        0
    };
    let ghost s = without_hash(str@);
    assert(s =~= chars@.subrange(start as int, n as int));
    let mut a = start;
    while a < n && is_white_space(chars[a])
        invariant
            start <= a <= n,
            n == chars@.len(),
            s =~= chars@.subrange(start as int, n as int),
            forall|i: int| start <= i < a ==> white_space(#[trigger] chars@[i]),
        decreases n - a,
    {
        a = a + 1;
    }
    let mut b = n;
    while b > a && is_white_space(chars[b - 1])
        invariant
            a <= b <= n,
            n == chars@.len(),
            forall|i: int| b <= i < n ==> white_space(#[trigger] chars@[i]),
        decreases b,
    {
        b = b - 1;
    }
    let mut kept: Vec<char> = Vec::new();
    let mut i = a;
    proof {
        reveal(Seq::filter);
        assert(chars@.subrange(a as int, a as int).filter(not_line_break()) =~= Seq::<char>::empty());
    }
    while i < b
        invariant
            a <= i <= b <= n,
            n == chars@.len(),
            kept@ == without_line_breaks(chars@.subrange(a as int, i as int)),
        decreases b - i,
    {
        let c = chars[i];
        proof {
            let u = chars@.subrange(a as int, i as int);
            assert(chars@.subrange(a as int, i + 1) =~= u.push(c));
            u.lemma_filter_push(c, not_line_break());
        }
        if c != '\n' && c != '\r' {
            kept.push(c);
        }
        i = i + 1;
    }
    proof {
        let (x, y) = ((a - start) as int, (b - start) as int);
        assert(chars@.subrange(a as int, b as int) =~= s.subrange(x, y));
        assert forall|j: int| 0 <= j < x implies white_space(#[trigger] s[j]) by {
            assert(s[j] == chars@[start + j]);
        }
        assert forall|j: int| y <= j < s.len() implies white_space(#[trigger] s[j]) by {
            assert(s[j] == chars@[start + j]);
        }
        assert(is_trim_of(s.subrange(x, y), s));
    }
    chars_to_string(kept.as_slice())
}

/// The number of characters of `s` before the first prefix, from the `i`-th on, whose UTF-8
/// length reaches `offset`; the length of `s` if no such prefix comes.
pub open spec fn char_index_from(s: Seq<char>, offset: nat, i: nat) -> nat
    decreases s.len() - i,
{
    if i >= s.len() {
        s.len()
    } else if utf8_len(s.take(i as int)) >= offset {
        i
    } else {
        char_index_from(s, offset, i + 1)
    }
}

/// The character index of UTF-8 offset `offset` in `s`: the first prefix whose UTF-8
/// length reaches the offset, or the whole text.
pub open spec fn char_index(s: Seq<char>, offset: nat) -> nat {
    char_index_from(s, offset, 0)
}

proof fn lemma_char_index_from(s: Seq<char>, offset: nat, i: nat)
    requires
        i <= s.len(),
        forall|j: int| 0 <= j < i ==> utf8_len(#[trigger] s.take(j)) < offset,
    ensures
        i <= char_index_from(s, offset, i) <= s.len(),
        forall|j: int| 0 <= j < char_index_from(s, offset, i) ==> utf8_len(#[trigger] s.take(j)) < offset,
        char_index_from(s, offset, i) < s.len() ==> utf8_len(s.take(char_index_from(s, offset, i) as int))
            >= offset,
    decreases s.len() - i,
{
    if i < s.len() && utf8_len(s.take(i as int)) < offset {
        lemma_char_index_from(s, offset, i + 1);
    }
}

/// Where the character index lies: before it every prefix is shorter in UTF-8 than the
/// offset, and the prefix that ends there reaches it, unless it is the whole text.
pub proof fn lemma_char_index(s: Seq<char>, offset: nat)
    ensures
        char_index(s, offset) <= s.len(),
        forall|j: int| 0 <= j < char_index(s, offset) ==> utf8_len(#[trigger] s.take(j)) < offset,
        char_index(s, offset) < s.len() ==> utf8_len(s.take(char_index(s, offset) as int)) >= offset,
{
    lemma_char_index_from(s, offset, 0);
}

/// The index of the character at UTF-8 offset `utf_8_offset` in `chars`: the first index at
/// which the UTF-8 length of the characters before it reaches the offset, or the number of
/// characters if none does.
pub fn to_char_index(chars: &[char], utf_8_offset: TextSize) -> (r: usize)
    requires
        utf8_len(chars@.take(char_index(chars@, utf_8_offset.raw as nat) as int)) <= u32::MAX,
    ensures
        r == char_index(chars@, utf_8_offset.raw as nat),
{
    let mut utf_8_sum = TextSize::new(0);
    let mut num_chars: usize = 0;
    let ghost target = char_index(chars@, utf_8_offset.raw as nat);
    proof {
        lemma_char_index(chars@, utf_8_offset.raw as nat);
        assert(chars@.take(0) =~= Seq::<char>::empty());
    }
    let mut idx: usize = 0;
    while idx < chars.len()
        invariant
            idx <= chars@.len(),
            num_chars == idx,
            utf_8_sum.raw == utf8_len(chars@.take(idx as int)),
            idx <= target <= chars@.len(),
            target == char_index(chars@, utf_8_offset.raw as nat),
            forall|j: int| 0 <= j < target ==> utf8_len(#[trigger] chars@.take(j)) < utf_8_offset.raw,
            target < chars@.len() ==> utf8_len(chars@.take(target as int)) >= utf_8_offset.raw,
            utf8_len(chars@.take(target as int)) <= u32::MAX,
        decreases chars@.len() - idx,
    {
        if utf_8_sum.raw >= utf_8_offset.raw {
            return idx;
        }
        num_chars = num_chars + 1;
        let c = chars[idx];
        proof {
            lemma_utf8_len_take_step(chars@, idx as int);
            lemma_utf8_len_take_mono(chars@, idx + 1, target as int);
        }
        let step = TextSize::from(c);
        utf_8_sum = TextSize::new(utf_8_sum.raw + step.raw);
        idx = idx + 1;
    }
    num_chars
}

} // verus!

verus! {

/// A formatted one-line comment holds no line feed and no carriage return.
pub proof fn lemma_formatted_comment_has_no_line_breaks(t: Seq<char>)
    ensures
        forall|i: int|
            0 <= i < without_line_breaks(t).len() ==> #[trigger] without_line_breaks(t)[i] != '\n'
                && without_line_breaks(t)[i] != '\r',
{
    assert forall|i: int| 0 <= i < without_line_breaks(t).len() implies #[trigger] without_line_breaks(
        t,
    )[i] != '\n' && without_line_breaks(t)[i] != '\r' by {
        t.lemma_filter_pred(not_line_break(), i);
    }
}

/// A larger UTF-8 offset never gives an earlier character index.
pub proof fn lemma_char_index_monotone(s: Seq<char>, a: nat, b: nat)
    requires
        a <= b,
    ensures
        char_index(s, a) <= char_index(s, b),
{
    lemma_char_index(s, a);
    lemma_char_index(s, b);
    let ia = char_index(s, a);
    let ib = char_index(s, b);
    if ib < ia {
        assert(utf8_len(s.take(ib as int)) < a);
    }
}

} // verus!

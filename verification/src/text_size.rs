use vstd::prelude::*;
use vstd::string::StringSliceAdditionalSpecFns;

verus! {

/// The number of bytes a character takes in UTF-8.
pub open spec fn char_len(c: char) -> nat {
    if (c as u32) < 0x80 {
        1
    } else if (c as u32) < 0x800 {
        2
    } else if (c as u32) < 0x10000 {
        3
    } else {
        4
    }
}

/// The number of bytes a character sequence takes in UTF-8.
pub open spec fn utf8_len(s: Seq<char>) -> nat
    decreases s.len(),
{
    if s.len() == 0 {
        0
    } else {
        utf8_len(s.drop_last()) + char_len(s.last())
    }
}

/// A UTF-8 byte offset or length into a source text.
#[derive(Clone, Copy, Debug, PartialEq, Eq, Structural, PartialOrd, Ord, Hash)]
pub struct TextSize {
    pub raw: u32,
}

impl TextSize {
    pub fn new(raw: u32) -> (r: TextSize)
        ensures
            r.raw == raw,
    {
        TextSize { raw }
    }

    /// The UTF-8 length of `text`.
    pub fn from<T: TextLen>(text: T) -> (r: TextSize)
        requires
            text.spec_text_len() <= u32::MAX,
        ensures
            r.raw == text.spec_text_len(),
    {
        text.text_len()
    }

    pub fn to_u32(&self) -> (r: u32)
        ensures
            r == self.raw,
    {
        self.raw
    }

    pub fn to_usize(&self) -> (r: usize)
        ensures
            r == self.raw,
    {
        self.raw as usize
    }

    pub fn checked_add(&self, rhs: TextSize) -> (r: Option<TextSize>)
        ensures
            self.raw + rhs.raw <= u32::MAX ==> r == Some(TextSize { raw: (self.raw + rhs.raw) as u32 }),
            self.raw + rhs.raw > u32::MAX ==> r is None,
    {
        match self.raw.checked_add(rhs.raw) {
            Some(raw) => Some(TextSize { raw }),
            None => None,
        }
    }

    pub fn checked_sub(&self, rhs: TextSize) -> (r: Option<TextSize>)
        ensures
            rhs.raw <= self.raw ==> r == Some(TextSize { raw: (self.raw - rhs.raw) as u32 }),
            rhs.raw > self.raw ==> r is None,
    {
        match self.raw.checked_sub(rhs.raw) {
            Some(raw) => Some(TextSize { raw }),
            None => None,
        }
    }
}

impl core::ops::Add for TextSize {
    type Output = TextSize;

    fn add(self, other: TextSize) -> (r: TextSize) {
        TextSize { raw: self.raw + other.raw }
    }
}

impl vstd::std_specs::ops::AddSpecImpl for TextSize {
    open spec fn obeys_add_spec() -> bool {
        true
    }

    open spec fn add_req(self, rhs: TextSize) -> bool {
        self.raw + rhs.raw <= u32::MAX
    }

    open spec fn add_spec(self, rhs: TextSize) -> TextSize {
        TextSize { raw: (self.raw + rhs.raw) as u32 }
    }
}

impl core::ops::Sub for TextSize {
    type Output = TextSize;

    fn sub(self, other: TextSize) -> (r: TextSize) {
        TextSize { raw: self.raw - other.raw }
    }
}

impl vstd::std_specs::ops::SubSpecImpl for TextSize {
    open spec fn obeys_sub_spec() -> bool {
        true
    }

    open spec fn sub_req(self, rhs: TextSize) -> bool {
        rhs.raw <= self.raw
    }

    open spec fn sub_spec(self, rhs: TextSize) -> TextSize {
        TextSize { raw: (self.raw - rhs.raw) as u32 }
    }
}

impl From<u32> for TextSize {
    fn from(raw: u32) -> (r: TextSize) {
        TextSize::new(raw)
    }
}

impl vstd::std_specs::convert::FromSpecImpl<u32> for TextSize {
    open spec fn obeys_from_spec() -> bool {
        true
    }

    open spec fn from_spec(raw: u32) -> TextSize {
        TextSize { raw }
    }
}

impl From<TextSize> for u32 {
    fn from(value: TextSize) -> (r: u32) {
        value.to_u32()
    }
}

impl vstd::std_specs::convert::FromSpecImpl<TextSize> for u32 {
    open spec fn obeys_from_spec() -> bool {
        true
    }

    open spec fn from_spec(value: TextSize) -> u32 {
        value.raw
    }
}

impl From<TextSize> for usize {
    fn from(value: TextSize) -> (r: usize) {
        value.to_usize()
    }
}

impl vstd::std_specs::convert::FromSpecImpl<TextSize> for usize {
    open spec fn obeys_from_spec() -> bool {
        true
    }

    open spec fn from_spec(value: TextSize) -> usize {
        value.raw as usize
    }
}

/// Adding an offset and then taking it away again gives back the offset one started with.
pub proof fn lemma_checked_add_sub_roundtrip(a: TextSize, b: TextSize)
    requires
        a.raw + b.raw <= u32::MAX,
    ensures
        ({
            let s = TextSize { raw: (a.raw + b.raw) as u32 };
            b.raw <= s.raw && TextSize { raw: (s.raw - b.raw) as u32 } == a
        }),
{
}

/// Texts whose UTF-8 length can be measured.
pub trait TextLen: Copy {
    spec fn spec_text_len(self) -> nat;

    fn text_len(self) -> (r: TextSize)
        requires
            self.spec_text_len() <= u32::MAX,
        ensures
            r.raw == self.spec_text_len(),
    ;
}

impl<'a> TextLen for &'a str {
    open spec fn spec_text_len(self) -> nat {
        self.spec_bytes().len()
    }

    fn text_len(self) -> (r: TextSize) {
        let n = self.len();
        TextSize { raw: n as u32 }
    }
}

impl<'a> TextLen for &'a String {
    open spec fn spec_text_len(self) -> nat {
        vstd::utf8::encode_utf8(self@).len()
    }

    fn text_len(self) -> (r: TextSize) {
        self.as_str().text_len()
    }
}

impl TextLen for char {
    open spec fn spec_text_len(self) -> nat {
        char_len(self)
    }

    fn text_len(self) -> (r: TextSize) {
        TextSize { raw: char_byte_len(self) }
    }
}

/// The number of bytes `c` takes in UTF-8.
pub fn char_byte_len(c: char) -> (r: u32)
    ensures
        r == char_len(c),
        1 <= r <= 4,
{
    let v = c as u32;
    if v < 0x80 {
        1
    } else if v < 0x800 {
        2
    } else if v < 0x10000 {
        3
    } else {
        4
    }
}

} // verus!

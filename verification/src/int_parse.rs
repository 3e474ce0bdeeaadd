use vstd::prelude::*;

verus! {

/// Why a text is not an integer, in the order the standard library's integer parsers
/// report it.
#[derive(Clone, Copy, Debug, PartialEq, Eq, Structural)]
pub enum IntErrorKind {
    /// The text is empty.
    Empty,
    /// A character is not a digit of the radix (or the text is a lone sign).
    InvalidDigit,
    /// The value is above the largest value of the target type.
    PosOverflow,
    /// The value is below the smallest value of the target type.
    NegOverflow,
}

/// The value of the character with code `c` as a digit of `radix` (digits, then letters of
/// either case), if it is one.
pub open spec fn digit_value(c: u32, radix: nat) -> Option<nat> {
    let v: int = if 48 <= c <= 57 {
        c - 48
    } else if 97 <= c <= 122 {
        c - 97 + 10
    } else if 65 <= c <= 90 {
        c - 65 + 10
    } else {
        radix as int
    };
    if 0 <= v < radix {
        Some(v as nat)
    } else {
        None
    }
}

/// Reads the digits `codes` left to right onto `acc`, stopping at the first character that is
/// not a digit, or at the first step whose value leaves `[lo, hi]`.
pub open spec fn spec_parse_digits(
    codes: Seq<u32>,
    radix: nat,
    acc: int,
    negative: bool,
    lo: int,
    hi: int,
) -> Result<int, IntErrorKind>
    decreases codes.len(),
{
    if codes.len() == 0 {
        Ok(acc)
    } else {
        match digit_value(codes[0], radix) {
            None => Err(IntErrorKind::InvalidDigit),
            Some(d) => {
                let n = if negative { acc * radix - d } else { acc * radix + d };
                if negative && n < lo {
                    Err(IntErrorKind::NegOverflow)
                } else if !negative && n > hi {
                    Err(IntErrorKind::PosOverflow)
                } else {
                    spec_parse_digits(codes.drop_first(), radix, n, negative, lo, hi)
                }
            }
        }
    }
}

/// An optional `+` (or `-`, when `lo` is negative) followed by digits of `radix`, read as an
/// integer of the range `[lo, hi]`.
pub open spec fn spec_parse_int(codes: Seq<u32>, radix: nat, lo: int, hi: int) -> Result<
    int,
    IntErrorKind,
> {
    if codes.len() == 0 {
        Err(IntErrorKind::Empty)
    } else if codes.len() == 1 && (codes[0] == 43 || codes[0] == 45) {
        Err(IntErrorKind::InvalidDigit)
    } else if codes[0] == 43 {
        spec_parse_digits(codes.drop_first(), radix, 0, false, lo, hi)
    } else if codes[0] == 45 && lo < 0 {
        spec_parse_digits(codes.drop_first(), radix, 0, true, lo, hi)
    } else {
        spec_parse_digits(codes, radix, 0, false, lo, hi)
    }
}

/// The character codes of a character sequence.
pub open spec fn char_codes(s: Seq<char>) -> Seq<u32> {
    s.map_values(|c: char| c as u32)
}

/// The codes of a byte sequence.
pub open spec fn byte_codes(s: Seq<u8>) -> Seq<u32> {
    s.map_values(|b: u8| b as u32)
}

fn digit_value_exec(c: u32, radix: u32) -> (r: Option<u32>)
    requires
        2 <= radix <= 36,
    ensures
        match digit_value(c, radix as nat) {
            Some(d) => r == Some(d as u32),
            None => r is None,
        },
{
    let v: u32 = if 48 <= c && c <= 57 {
        c - 48
    } else if 97 <= c && c <= 122 {
        c - 97 + 10
    } else if 65 <= c && c <= 90 {
        c - 65 + 10
    } else {
        radix
    };
    if v < radix {
        Some(v)
    } else {
        None
    }
}

fn parse_digits_exec(
    codes: &[u32],
    start: usize,
    radix: u32,
    negative: bool,
    lo: i128,
    hi: i128,
) -> (r: Result<i128, IntErrorKind>)
    requires
        2 <= radix <= 36,
        -0x1_0000_0000_0000_0000 <= lo <= 0 <= hi <= 0x1_0000_0000_0000_0000,
        start <= codes@.len(),
    ensures
        match spec_parse_digits(codes@.skip(start as int), radix as nat, 0, negative, lo as int, hi as int) {
            Ok(v) => r == Ok::<i128, IntErrorKind>(v as i128),
            Err(e) => r == Err::<i128, IntErrorKind>(e),
        },
{
    let mut acc: i128 = 0;
    let mut i = start;
    while i < codes.len()
        invariant
            2 <= radix <= 36,
            -0x1_0000_0000_0000_0000 <= lo <= 0 <= hi <= 0x1_0000_0000_0000_0000,
            start <= i <= codes@.len(),
            lo <= acc <= hi,
            negative ==> acc <= 0,
            !negative ==> acc >= 0,
            spec_parse_digits(codes@.skip(start as int), radix as nat, 0, negative, lo as int, hi as int)
                == spec_parse_digits(codes@.skip(i as int), radix as nat, acc as int, negative, lo as int, hi as int),
        decreases codes@.len() - i,
    {
        assert(codes@.skip(i as int).drop_first() =~= codes@.skip(i + 1));
        assert(codes@.skip(i as int)[0] == codes@[i as int]);
        match digit_value_exec(codes[i], radix) {
            None => {
                return Err(IntErrorKind::InvalidDigit);
            },
            Some(d) => {
                assert(-0x1_0000_0000_0000_0000 * 36 <= acc * radix <= 0x1_0000_0000_0000_0000 * 36)
                    by (nonlinear_arith)
                    requires
                        -0x1_0000_0000_0000_0000 <= acc <= 0x1_0000_0000_0000_0000,
                        2 <= radix <= 36,
                ;
                if negative {
                    assert(acc * radix <= 0) by (nonlinear_arith)
                        requires acc <= 0, radix >= 0;
                } else {
                    assert(acc * radix >= 0) by (nonlinear_arith)
                        requires acc >= 0, radix >= 0;
                }
                let m: i128 = acc * (radix as i128);
                let n: i128 = if negative { m - (d as i128) } else { m + (d as i128) };
                if negative && n < lo {
                    return Err(IntErrorKind::NegOverflow);
                }
                if !negative && n > hi {
                    return Err(IntErrorKind::PosOverflow);
                }
                acc = n;
                i = i + 1;
            },
        }
    }
    assert(codes@.skip(i as int).len() == 0);
    Ok(acc)
}

fn parse_int_exec(codes: &[u32], radix: u32, lo: i128, hi: i128) -> (r: Result<i128, IntErrorKind>)
    requires
        2 <= radix <= 36,
        -0x1_0000_0000_0000_0000 <= lo <= 0 <= hi <= 0x1_0000_0000_0000_0000,
    ensures
        match spec_parse_int(codes@, radix as nat, lo as int, hi as int) {
            Ok(v) => r == Ok::<i128, IntErrorKind>(v as i128),
            Err(e) => r == Err::<i128, IntErrorKind>(e),
        },
{
    let len = codes.len();
    if len == 0 {
        return Err(IntErrorKind::Empty);
    }
    if len == 1 && (codes[0] == 43 || codes[0] == 45) {
        return Err(IntErrorKind::InvalidDigit);
    }
    assert(codes@.drop_first() =~= codes@.skip(1));
    assert(codes@ =~= codes@.skip(0));
    if codes[0] == 43 {
        parse_digits_exec(codes, 1, radix, false, lo, hi)
    } else if codes[0] == 45 && lo < 0 {
        parse_digits_exec(codes, 1, radix, true, lo, hi)
    } else {
        parse_digits_exec(codes, 0, radix, false, lo, hi)
    }
}

fn chars_to_codes(s: &[char]) -> (r: Vec<u32>)
    ensures
        r@ == char_codes(s@),
{
    let mut r: Vec<u32> = Vec::new();
    let mut i: usize = 0;
    while i < s.len()
        invariant
            i <= s@.len(),
            r@ == char_codes(s@.take(i as int)),
        decreases s@.len() - i,
    {
        r.push(s[i] as u32);
        assert(s@.take(i + 1) =~= s@.take(i as int).push(s@[i as int]));
        assert(char_codes(s@.take(i + 1)) =~= char_codes(s@.take(i as int)).push(s@[i as int] as u32));
        i = i + 1;
    }
    assert(s@.take(i as int) =~= s@);
    r
}

fn bytes_to_codes(s: &[u8]) -> (r: Vec<u32>)
    ensures
        r@ == byte_codes(s@),
{
    let mut r: Vec<u32> = Vec::new();
    let mut i: usize = 0;
    while i < s.len()
        invariant
            i <= s@.len(),
            r@ == byte_codes(s@.take(i as int)),
        decreases s@.len() - i,
    {
        r.push(s[i] as u32);
        assert(s@.take(i + 1) =~= s@.take(i as int).push(s@[i as int]));
        assert(byte_codes(s@.take(i + 1)) =~= byte_codes(s@.take(i as int)).push(s@[i as int] as u32));
        i = i + 1;
    }
    assert(s@.take(i as int) =~= s@);
    r
}

/// `s` read as an `i64` in `radix`, as `i64::from_str_radix` reads it.
pub fn parse_i64_radix(s: &[char], radix: u32) -> (r: Result<i64, IntErrorKind>)
    requires
        2 <= radix <= 36,
    ensures
        match r {
            Ok(v) => spec_parse_int(char_codes(s@), radix as nat, i64::MIN as int, i64::MAX as int) == Ok::<int, IntErrorKind>(v as int),
            Err(e) => spec_parse_int(char_codes(s@), radix as nat, i64::MIN as int, i64::MAX as int) == Err::<int, IntErrorKind>(e),
        },
{
    let codes = chars_to_codes(s);
    match parse_int_exec(codes.as_slice(), radix, i64::MIN as i128, i64::MAX as i128) {
        Ok(v) => {
            proof {
                lemma_parse_int_in_range(codes@, radix as nat, i64::MIN as int, i64::MAX as int);
            }
            Ok(v as i64)
        },
        Err(e) => Err(e),
    }
}

/// `s` read as a decimal `u32`, as `str::parse::<u32>` reads it.
pub fn parse_u32(s: &[char]) -> (r: Result<u32, IntErrorKind>)
    ensures
        match r {
            Ok(v) => spec_parse_int(char_codes(s@), 10, 0, u32::MAX as int) == Ok::<int, IntErrorKind>(v as int),
            Err(e) => spec_parse_int(char_codes(s@), 10, 0, u32::MAX as int) == Err::<int, IntErrorKind>(e),
        },
{
    let codes = chars_to_codes(s);
    match parse_int_exec(codes.as_slice(), 10, 0, u32::MAX as i128) {
        Ok(v) => {
            proof {
                lemma_parse_int_in_range(codes@, 10, 0, u32::MAX as int);
            }
            Ok(v as u32)
        },
        Err(e) => Err(e),
    }
}

/// The bytes `s` read as a decimal `usize`, as `str::parse::<usize>` reads their text.
pub fn parse_usize_bytes(s: &[u8]) -> (r: Result<usize, IntErrorKind>)
    ensures
        match r {
            Ok(v) => spec_parse_int(byte_codes(s@), 10, 0, usize::MAX as int) == Ok::<int, IntErrorKind>(v as int),
            Err(e) => spec_parse_int(byte_codes(s@), 10, 0, usize::MAX as int) == Err::<int, IntErrorKind>(e),
        },
{
    let codes = bytes_to_codes(s);
    match parse_int_exec(codes.as_slice(), 10, 0, usize::MAX as i128) {
        Ok(v) => {
            proof {
                lemma_parse_int_in_range(codes@, 10, 0, usize::MAX as int);
            }
            Ok(v as usize)
        },
        Err(e) => Err(e),
    }
}

proof fn lemma_parse_digits_in_range(
    codes: Seq<u32>,
    radix: nat,
    acc: int,
    negative: bool,
    lo: int,
    hi: int,
)
    requires
        lo <= 0 <= hi,
        lo <= acc <= hi,
        negative ==> acc <= 0,
        !negative ==> acc >= 0,
    ensures
        spec_parse_digits(codes, radix, acc, negative, lo, hi) matches Ok(v) ==> lo <= v <= hi,
    decreases codes.len(),
{
    if codes.len() > 0 {
        if let Some(d) = digit_value(codes[0], radix) {
            let n = if negative { acc * radix - d } else { acc * radix + d };
            if !(negative && n < lo) && !(!negative && n > hi) {
                if negative {
                    assert(acc * radix <= 0) by (nonlinear_arith)
                        requires acc <= 0;
                } else {
                    assert(acc * radix >= 0) by (nonlinear_arith)
                        requires acc >= 0;
                }
                lemma_parse_digits_in_range(codes.drop_first(), radix, n, negative, lo, hi);
            }
        }
    }
}

/// A parsed value lies in the range it was read for.
pub proof fn lemma_parse_int_in_range(codes: Seq<u32>, radix: nat, lo: int, hi: int)
    requires
        lo <= 0 <= hi,
    ensures
        spec_parse_int(codes, radix, lo, hi) matches Ok(v) ==> lo <= v <= hi,
{
    if codes.len() > 0 {
        lemma_parse_digits_in_range(codes.drop_first(), radix, 0, false, lo, hi);
        lemma_parse_digits_in_range(codes.drop_first(), radix, 0, true, lo, hi);
        lemma_parse_digits_in_range(codes, radix, 0, false, lo, hi);
    }
}

} // verus!

verus! {

/// The decimal digits of `n`, most significant first, as ASCII bytes.
pub open spec fn decimal_digits(n: nat) -> Seq<u8>
    decreases n,
{
    if n < 10 {
        seq![(48 + n) as u8]
    } else {
        decimal_digits(n / 10).push((48 + n % 10) as u8)
    }
}

/// `n` written in decimal, as `n.to_string()` writes it.
pub fn usize_to_decimal(n: usize) -> (r: Vec<u8>)
    ensures
        r@ == decimal_digits(n as nat),
    decreases n,
{
    if n < 10 {
        let mut v: Vec<u8> = Vec::new();
        v.push((48 + n) as u8);
        assert(v@ =~= seq![(48 + n) as u8]);
        v
    } else {
        let mut v = usize_to_decimal(n / 10);
        v.push((48 + n % 10) as u8);
        v
    }
}

/// Reading a digit sequence in two pieces reads the first piece and carries its value on.
pub proof fn lemma_parse_digits_append(
    s: Seq<u32>,
    t: Seq<u32>,
    radix: nat,
    acc: int,
    negative: bool,
    lo: int,
    hi: int,
)
    ensures
        spec_parse_digits(s + t, radix, acc, negative, lo, hi) == match spec_parse_digits(
            s,
            radix,
            acc,
            negative,
            lo,
            hi,
        ) {
            Ok(a) => spec_parse_digits(t, radix, a, negative, lo, hi),
            Err(e) => Err(e),
        },
    decreases s.len(),
{
    if s.len() == 0 {
        assert(s + t =~= t);
    } else {
        assert((s + t).drop_first() =~= s.drop_first() + t);
        assert((s + t)[0] == s[0]);
        if let Some(d) = digit_value(s[0], radix) {
            let n = if negative { acc * radix - d } else { acc * radix + d };
            lemma_parse_digits_append(s.drop_first(), t, radix, n, negative, lo, hi);
        }
    }
}

proof fn lemma_decimal_digits_parse(n: nat, hi: int)
    requires
        n <= hi,
    ensures
        spec_parse_digits(byte_codes(decimal_digits(n)), 10, 0, false, 0, hi) == Ok::<
            int,
            IntErrorKind,
        >(n as int),
        decimal_digits(n).len() >= 1,
        48 <= decimal_digits(n)[0] <= 57,
        forall|i: int| 0 <= i < decimal_digits(n).len() ==> 48 <= #[trigger] decimal_digits(n)[i] <= 57,
    decreases n,
{
    if n < 10 {
        let s = byte_codes(decimal_digits(n));
        assert(s.len() == 1);
        assert(s[0] == 48 + n);
        assert(digit_value(s[0], 10) == Some(n));
        assert(s.drop_first().len() == 0);
        assert(spec_parse_digits(s.drop_first(), 10, n as int, false, 0, hi) == Ok::<int, IntErrorKind>(n as int));
    } else {
        lemma_decimal_digits_parse(n / 10, hi);
        let prefix = byte_codes(decimal_digits(n / 10));
        let last = (48 + n % 10) as u8;
        assert(byte_codes(decimal_digits(n)) =~= prefix + seq![last as u32]);
        lemma_parse_digits_append(prefix, seq![last as u32], 10, 0, false, 0, hi);
        let t = seq![last as u32];
        assert(t.drop_first().len() == 0);
        assert((n / 10) * 10 + n % 10 == n);
        assert(digit_value(t[0], 10) == Some((n % 10) as nat));
        assert(spec_parse_digits(t.drop_first(), 10, n as int, false, 0, hi) == Ok::<int, IntErrorKind>(n as int));
        assert(spec_parse_digits(t, 10, (n / 10) as int, false, 0, hi) == Ok::<int, IntErrorKind>(n as int));
    }
}

/// Writing a number in decimal and reading it back gives the number.
pub proof fn lemma_decimal_roundtrip(n: nat, hi: int)
    requires
        n <= hi,
    ensures
        spec_parse_int(byte_codes(decimal_digits(n)), 10, 0, hi) == Ok::<int, IntErrorKind>(
            n as int,
        ),
        forall|i: int| 0 <= i < decimal_digits(n).len() ==> 48 <= #[trigger] decimal_digits(n)[i] <= 57,
        decimal_digits(n).len() >= 1,
{
    lemma_decimal_digits_parse(n, hi);
    let s = byte_codes(decimal_digits(n));
    assert(s[0] == decimal_digits(n)[0] as u32);
}

/// The text the standard library gives for each parse error.
pub open spec fn int_error_message(k: IntErrorKind) -> Seq<char> {
    match k {
        IntErrorKind::Empty => "cannot parse integer from empty string"@,
        IntErrorKind::InvalidDigit => "invalid digit found in string"@,
        IntErrorKind::PosOverflow => "number too large to fit in target type"@,
        IntErrorKind::NegOverflow => "number too small to fit in target type"@,
    }
}

impl IntErrorKind {
    /// The message of the error, as `ParseIntError::to_string` writes it.
    pub fn message(&self) -> (r: String)
        ensures
            r@ == int_error_message(*self),
    {
        match self {
            IntErrorKind::Empty => "cannot parse integer from empty string".to_owned(),
            IntErrorKind::InvalidDigit => "invalid digit found in string".to_owned(),
            IntErrorKind::PosOverflow => "number too large to fit in target type".to_owned(),
            IntErrorKind::NegOverflow => "number too small to fit in target type".to_owned(),
        }
    }
}

} // verus!

verus! {

/// The bytes `s` read as a decimal `i64`, as `str::parse::<i64>` reads their text.
pub fn parse_i64_bytes(s: &[u8]) -> (r: Result<i64, IntErrorKind>)
    ensures
        match r {
            Ok(v) => spec_parse_int(byte_codes(s@), 10, i64::MIN as int, i64::MAX as int) == Ok::<int, IntErrorKind>(v as int),
            Err(e) => spec_parse_int(byte_codes(s@), 10, i64::MIN as int, i64::MAX as int) == Err::<int, IntErrorKind>(e),
        },
{
    let codes = bytes_to_codes(s);
    match parse_int_exec(codes.as_slice(), 10, i64::MIN as i128, i64::MAX as i128) {
        Ok(v) => {
            proof {
                lemma_parse_int_in_range(codes@, 10, i64::MIN as int, i64::MAX as int);
            }
            Ok(v as i64)
        },
        Err(e) => Err(e),
    }
}

/// The bytes `s` read as a decimal `u32`, as `str::parse::<u32>` reads their text.
pub fn parse_u32_bytes(s: &[u8]) -> (r: Result<u32, IntErrorKind>)
    ensures
        match r {
            Ok(v) => spec_parse_int(byte_codes(s@), 10, 0, u32::MAX as int) == Ok::<int, IntErrorKind>(v as int),
            Err(e) => spec_parse_int(byte_codes(s@), 10, 0, u32::MAX as int) == Err::<int, IntErrorKind>(e),
        },
{
    let codes = bytes_to_codes(s);
    match parse_int_exec(codes.as_slice(), 10, 0, u32::MAX as i128) {
        Ok(v) => {
            proof {
                lemma_parse_int_in_range(codes@, 10, 0, u32::MAX as int);
            }
            Ok(v as u32)
        },
        Err(e) => Err(e),
    }
}

} // verus!

use vstd::prelude::*;
use vstd::string::StringSliceAdditionalSpecFns;
use crate::int_parse::{byte_codes, int_error_message, parse_i64_bytes, parse_u32_bytes, spec_parse_int};

verus! {

/// The number of characters after an exponent marker `e` or `E` at index `i` that belong
/// to the marker (2 with a sign, 1 without), if the characters at `i` and `i + 1` form one.
pub open spec fn exponent_marker(c: Seq<char>, i: int) -> Option<nat> {
    if 0 <= i && i + 1 < c.len() && (c[i] == 'e' || c[i] == 'E') {
        if c[i + 1] == '+' || c[i + 1] == '-' {
            Some(2)
        } else {
            Some(1)
        }
    } else {
        None
    }
}

/// The last exponent marker among the first `n` character pairs.
pub open spec fn last_marker_below(c: Seq<char>, n: nat) -> Option<(nat, nat)>
    decreases n,
{
    if n == 0 {
        None
    } else {
        match exponent_marker(c, n - 1) {
            Some(k) => Some(((n - 1) as nat, k)),
            None => last_marker_below(c, (n - 1) as nat),
        }
    }
}

/// Some marker among the first `n` character pairs has a minus sign.
pub open spec fn minus_marker_below(c: Seq<char>, n: nat) -> bool
    decreases n,
{
    n > 0 && (minus_marker_below(c, (n - 1) as nat) || (exponent_marker(c, n - 1) == Some(2nat)
        && c[n as int] == '-'))
}

proof fn lemma_last_marker(c: Seq<char>, n: nat)
    ensures
        last_marker_below(c, n) matches Some((i, k)) ==> i < n && exponent_marker(c, i as int)
            == Some(k),
    decreases n,
{
    if n > 0 {
        lemma_last_marker(c, (n - 1) as nat);
    }
}

proof fn lemma_boundary_in_range(bytes: Seq<u8>, i: int)
    requires
        vstd::utf8::valid_utf8(bytes),
        vstd::utf8::is_char_boundary(bytes, i),
    ensures
        0 <= i <= bytes.len(),
{
}

/// The number of character pairs of `c`.
pub open spec fn pair_count(c: Seq<char>) -> nat {
    if c.len() == 0 {
        0
    } else {
        (c.len() - 1) as nat
    }
}

/// Every exponent marker of the text sits at character indices that are also byte
/// boundaries of its UTF-8 bytes, so that the text can be cut there.
pub open spec fn markers_sliceable(value: &str) -> bool {
    forall|i: int|
        #![trigger exponent_marker(value@, i)]
        exponent_marker(value@, i) matches Some(k) ==> vstd::utf8::is_char_boundary(
            value.spec_bytes(),
            i,
        ) && vstd::utf8::is_char_boundary(value.spec_bytes(), i + k)
}

/// The bytes before the last exponent marker, whether no marker has a minus sign, and the
/// bytes after the last marker; or the message for a missing part.
pub open spec fn spec_exponent_parts(value: &str) -> Result<(Seq<u8>, bool, Seq<u8>), Seq<char>> {
    let c = value@;
    let b = value.spec_bytes();
    match last_marker_below(c, pair_count(c)) {
        None => Err("Coefficient part is missing"@),
        Some((i, k)) => {
            let coefficient = b.subrange(0, i as int);
            let exponent = b.subrange((i + k) as int, b.len() as int);
            if coefficient.len() == 0 {
                Err("Coefficient part is missing"@)
            } else if exponent.len() == 0 {
                Err("Exponent part is missing"@)
            } else {
                Ok((coefficient, !minus_marker_below(c, pair_count(c)), exponent))
            }
        },
    }
}

/// The characters of `s`, as `s.chars().collect()` gives them.
#[verifier::external_body]
pub(crate) fn str_to_chars(s: &str) -> (r: Vec<char>)
    ensures
        r@ == s@,
{
    s.chars().collect()
}

/// Whether every exponent marker of `value` can be cut out at byte boundaries: what
/// `exponent_parts` requires of its text.
pub fn markers_are_sliceable(value: &str) -> (r: bool)
    ensures
        r == markers_sliceable(value),
{
    let chars = str_to_chars(value);
    let n = chars.len();
    let mut idx: usize = 0;
    while n > 0 && idx < n - 1
        invariant
            n == chars@.len(),
            chars@ == value@,
            n == 0 ==> idx == 0,
            n > 0 ==> idx <= n - 1,
            forall|j: int|
                #![trigger exponent_marker(value@, j)]
                0 <= j < idx ==> (exponent_marker(value@, j) matches Some(k) ==> vstd::utf8::is_char_boundary(
                    value.spec_bytes(),
                    j,
                ) && vstd::utf8::is_char_boundary(value.spec_bytes(), j + k)),
        decreases n - idx,
    {
        let c = chars[idx];
        if c == 'e' || c == 'E' {
            let k: usize = if chars[idx + 1] == '+' || chars[idx + 1] == '-' {
                2
            } else {
                1
            };
            if !value.is_char_boundary(idx) || !value.is_char_boundary(idx + k) {
                assert(exponent_marker(value@, idx as int) == Some(k as nat));
                return false;
            }
        }
        idx = idx + 1;
    }
    assert forall|i: int| #[trigger] exponent_marker(value@, i) is Some implies 0 <= i < idx by {}
    true
}

/// Splits a number in scientific notation at its last exponent marker: the coefficient,
/// whether the exponent is positive (no marker has a minus sign), and the exponent.
pub fn exponent_parts(value: &str) -> (r: Result<(&str, bool, &str), String>)
    requires
        markers_sliceable(value),
    ensures
        match spec_exponent_parts(value) {
            Ok((a, sign, b)) => r matches Ok((x, y, z)) && x.spec_bytes() == a && y == sign
                && z.spec_bytes() == b,
            Err(m) => r matches Err(e) && e@ == m,
        },
{
    let chars = str_to_chars(value);
    let n = chars.len();
    let mut sign = true;
    let mut found: Option<(usize, usize)> = None;
    let mut idx: usize = 0;
    while n > 0 && idx < n - 1
        invariant
            n == chars@.len(),
            chars@ == value@,
            n == 0 ==> idx == 0,
            n > 0 ==> idx <= n - 1,
            idx <= pair_count(value@),
            sign == !minus_marker_below(value@, idx as nat),
            match last_marker_below(value@, idx as nat) {
                None => found is None,
                Some((i, k)) => found matches Some((fi, fk)) && fi == i && fk == k && i < idx,
            },
        decreases n - idx,
    {
        match (chars[idx], chars[idx + 1]) {
            ('e' | 'E', '+') => {
                found = Some((idx, 2));
            },
            ('e' | 'E', '-') => {
                found = Some((idx, 2));
                sign = false;
            },
            ('e' | 'E', _) => {
                found = Some((idx, 1));
            },
            _ => {},
        }
        idx = idx + 1;
    }
    assert(idx as nat == pair_count(value@));
    match found {
        None => Err("Coefficient part is missing".to_owned()),
        Some((i, k)) => {
            proof {
                lemma_last_marker(value@, pair_count(value@));
            }
            assert(exponent_marker(value@, i as int) == Some(k as nat));
            proof {
                vstd::utf8::encode_utf8_valid_utf8(value@);
                lemma_boundary_in_range(value.spec_bytes(), i as int);
                lemma_boundary_in_range(value.spec_bytes(), (i + k) as int);
            }
            let (coefficient_part, _) = value.split_at(i);
            let (_, exponent_part) = value.split_at(i + k);
            if coefficient_part.len() == 0 {
                return Err("Coefficient part is missing".to_owned());
            }
            if exponent_part.as_bytes().len() == 0 {
                return Err("Exponent part is missing".to_owned());
            }
            Ok((coefficient_part, sign, exponent_part))
        },
    }
}

/// Ten to the power `e`.
pub open spec fn pow10(e: nat) -> int
    decreases e,
{
    if e == 0 {
        1
    } else {
        10 * pow10((e - 1) as nat)
    }
}

proof fn lemma_pow10_pos(e: nat)
    ensures
        1 <= pow10(e),
    decreases e,
{
    if e > 0 {
        lemma_pow10_pos((e - 1) as nat);
    }
}

proof fn lemma_pow10_mono(a: nat, b: nat)
    requires
        a <= b,
    ensures
        1 <= pow10(a) <= pow10(b),
    decreases b,
{
    if a < b {
        lemma_pow10_mono(a, (b - 1) as nat);
    } else {
        lemma_pow10_pos(a);
    }
}

/// `a / b` rounded toward zero, as integer division in Rust does.
pub open spec fn trunc_div(a: int, b: int) -> int {
    if a >= 0 {
        a / b
    } else {
        -((-a) / b)
    }
}

fn pow10_exec(e: u32) -> (r: i64)
    requires
        pow10(e as nat) <= i64::MAX,
    ensures
        r == pow10(e as nat),
{
    let mut acc: i64 = 1;
    let mut i: u32 = 0;
    while i < e
        invariant
            i <= e,
            acc == pow10(i as nat),
            pow10(e as nat) <= i64::MAX,
        decreases e - i,
    {
        proof {
            lemma_pow10_mono((i + 1) as nat, e as nat);
        }
        acc = acc * 10;
        i = i + 1;
    }
    acc
}

/// What `i64::parse_exponent_str` computes from its text, before any overflow check: the
/// coefficient and exponent read as decimal numbers, and the coefficient multiplied by ten
/// to the exponent (or divided by it, rounding toward zero, for a negative exponent).
pub open spec fn spec_parse_exponent_i64(value: &str) -> Result<(int, bool, nat), Seq<char>> {
    match spec_exponent_parts(value) {
        Err(m) => Err(m),
        Ok((a, sign, b)) => match spec_parse_int(byte_codes(a), 10, i64::MIN as int, i64::MAX as int) {
            Err(k) => Err(int_error_message(k)),
            Ok(coefficient) => match spec_parse_int(byte_codes(b), 10, 0, u32::MAX as int) {
                Err(k) => Err(int_error_message(k)),
                Ok(exponent) => Ok((coefficient, sign, exponent as nat)),
            },
        },
    }
}

/// A number in scientific notation read from text.
pub trait ParseExponentStr: Sized {
    /// The reading neither cuts the text inside a character nor overflows.
    spec fn exponent_str_defined(value: &str) -> bool;

    fn parse_exponent_str(value: &str) -> (r: Result<Self, String>)
        requires
            Self::exponent_str_defined(value),
    ;
}

impl ParseExponentStr for i64 {
    open spec fn exponent_str_defined(value: &str) -> bool {
        &&& markers_sliceable(value)
        &&& spec_parse_exponent_i64(value) matches Ok((c, sign, e)) ==> pow10(e) <= i64::MAX && (sign
            ==> i64::MIN <= c * pow10(e) <= i64::MAX)
    }

    /// The coefficient times ten to the exponent, or divided by it (rounding toward zero)
    /// when a marker has a minus sign; or the message of the part that could not be read.
    fn parse_exponent_str(value: &str) -> (r: Result<i64, String>)
        ensures
            match spec_parse_exponent_i64(value) {
                Err(m) => r matches Err(e) && e@ == m,
                Ok((c, sign, e)) => r == Ok::<i64, String>(
                    if sign {
                        (c * pow10(e)) as i64
                    } else {
                        trunc_div(c, pow10(e)) as i64
                    },
                ),
            },
    {
        let (coefficient_part, sign, exponent_part) = match exponent_parts(value) {
            Ok(p) => p,
            Err(e) => return Err(e),
        };
        let coefficient = match parse_i64_bytes(coefficient_part.as_bytes()) {
            Ok(c) => c,
            Err(k) => return Err(k.message()),
        };
        let exponent = match parse_u32_bytes(exponent_part.as_bytes()) {
            Ok(e) => e,
            Err(k) => return Err(k.message()),
        };
        let p = pow10_exec(exponent);
        proof {
            lemma_pow10_mono(0, exponent as nat);
        }
        if sign {
            return Ok(coefficient * p);
        } else {
            return Ok(coefficient / p);
        }
    }
}

} // verus!

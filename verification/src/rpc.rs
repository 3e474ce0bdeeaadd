use vstd::prelude::*;
use crate::int_parse::{
    byte_codes, decimal_digits, parse_usize_bytes, spec_parse_int, usize_to_decimal,
    IntErrorKind,
};
use crate::scanner::SplitFnResult;

verus! {

/// `Content-Length: `, the label that opens the header of every message.
pub open spec fn content_length_label() -> Seq<u8> {
    seq![67u8, 111, 110, 116, 101, 110, 116, 45, 76, 101, 110, 103, 116, 104, 58, 32]
}

/// `\r\n\r\n`, the delimiter between a message's header and its content.
pub open spec fn json_rpc_delimiter() -> Seq<u8> {
    seq![13u8, 10, 13, 10]
}

pub fn content_length_label_bytes() -> (r: Vec<u8>)
    ensures
        r@ == content_length_label(),
{
    let r = vec![67u8, 111, 110, 116, 101, 110, 116, 45, 76, 101, 110, 103, 116, 104, 58, 32];
    assert(r@ =~= content_length_label());
    r
}

pub fn json_rpc_delimiter_bytes() -> (r: Vec<u8>)
    ensures
        r@ == json_rpc_delimiter(),
{
    let r = vec![13u8, 10, 13, 10];
    assert(r@ =~= json_rpc_delimiter());
    r
}

/// `pat` occurs in `data` at index `i`.
pub open spec fn matches_at(data: Seq<u8>, i: int, pat: Seq<u8>) -> bool {
    0 <= i && i + pat.len() <= data.len() && data.subrange(i, i + pat.len()) == pat
}

/// The first index at or after `from` where `pat` occurs in `data`.
pub open spec fn first_match(data: Seq<u8>, from: int, pat: Seq<u8>) -> Option<int>
    decreases data.len() + 1 - from,
{
    if from < 0 || from + pat.len() > data.len() {
        None
    } else if matches_at(data, from, pat) {
        Some(from)
    } else {
        first_match(data, from + 1, pat)
    }
}

proof fn lemma_first_match_facts(data: Seq<u8>, from: int, pat: Seq<u8>)
    requires
        0 <= from,
    ensures
        first_match(data, from, pat) matches Some(i) ==> from <= i && matches_at(data, i, pat)
            && forall|j: int| from <= j < i ==> !matches_at(data, j, pat),
        first_match(data, from, pat) is None ==> forall|j: int| from <= j ==> !matches_at(data, j, pat),
    decreases data.len() + 1 - from,
{
    if from + pat.len() > data.len() {
    } else if matches_at(data, from, pat) {
    } else {
        lemma_first_match_facts(data, from + 1, pat);
    }
}

fn matches_at_exec(data: &[u8], i: usize, pat: &[u8]) -> (r: bool)
    requires
        i + pat@.len() <= data@.len(),
    ensures
        r == matches_at(data@, i as int, pat@),
        pat@.len() == 0 ==> r,
{
    let n = data.len();
    let mut k: usize = 0;
    while k < pat.len()
        invariant
            n == data@.len(),
            i + pat@.len() <= data@.len(),
            k <= pat@.len(),
            forall|m: int| 0 <= m < k ==> data@[i + m] == pat@[m],
        decreases pat@.len() - k,
    {
        if data[i + k] != pat[k] {
            assert(data@.subrange(i as int, i + pat@.len())[k as int] != pat@[k as int]);
            return false;
        }
        k = k + 1;
    }
    assert(data@.subrange(i as int, i + pat@.len()) =~= pat@);
    true
}

/// Where `pat` first occurs in `data` at or after `from`.
pub fn find_pattern(data: &[u8], from: usize, pat: &[u8]) -> (r: Option<usize>)
    ensures
        match r {
            Some(i) => first_match(data@, from as int, pat@) == Some(i as int),
            None => first_match(data@, from as int, pat@) is None,
        },
{
    let n = data.len();
    let mut i = from;
    while pat.len() <= n && i <= n - pat.len()
        invariant
            n == data@.len(),
            from <= i,
            first_match(data@, from as int, pat@) == first_match(data@, i as int, pat@),
        decreases data@.len() + 1 - i,
    {
        if matches_at_exec(data, i, pat) {
            return Some(i);
        }
        i = i + 1;
    }
    None
}

/// The header, content and outcome that `split_fn` works with; `None` where no label
/// follows `start_hint`.
pub open spec fn split_label(data: Seq<u8>, start_hint: nat) -> Option<int> {
    first_match(data, start_hint as int, content_length_label())
}

/// The inputs `split_fn` requires: the hint lies within the data, and where a label and a
/// delimiter after it are found, the delimiter's index counted from the label lies beyond
/// the label's end, so that the length between them can be cut out.
pub open spec fn split_fn_defined(data: Seq<u8>, start_hint: nat) -> bool {
    start_hint <= data.len() && match split_label(data, start_hint) {
        None => true,
        Some(s) => match first_match(data, s, json_rpc_delimiter()) {
            None => true,
            Some(d) => s + 16 < d - s,
        },
    }
}

/// What `split_fn` returns for `data` and `start_hint`.
pub open spec fn spec_split_fn(data: Seq<u8>, start_hint: nat) -> Result<SplitFnResult, Seq<char>> {
    match split_label(data, start_hint) {
        None => Ok(SplitFnResult::Searching),
        Some(s) => match first_match(data, s, json_rpc_delimiter()) {
            None => Ok(SplitFnResult::SearchingEnd { start: s as usize }),
            Some(d) => {
                let delimiter_index = d - s;
                let text = data.subrange(start_hint as int + 16, delimiter_index);
                if !vstd::utf8::valid_utf8(text) {
                    Err("Could not convert content length bytes to str"@)
                } else {
                    match spec_parse_int(byte_codes(text), 10, 0, usize::MAX as int) {
                        Err(_) => Err("Could not parse content length"@),
                        Ok(content_length) => {
                            let content_start_index = delimiter_index + 4;
                            if data.len() - content_start_index < content_length {
                                Ok(SplitFnResult::SearchingEnd { start: s as usize })
                            } else {
                                Ok(
                                    SplitFnResult::Complete {
                                        start: s as usize,
                                        end: (content_start_index + content_length) as usize,
                                    },
                                )
                            }
                        },
                    }
                }
            },
        },
    }
}

/// Whether `bytes` are well-formed UTF-8, as `std::str::from_utf8` decides.
#[verifier::external_body]
fn is_valid_utf8(bytes: &[u8]) -> (r: bool)
    ensures
        r == vstd::utf8::valid_utf8(bytes@),
{
    std::str::from_utf8(bytes).is_ok()
}

/// The text that well-formed UTF-8 bytes encode, as `std::str::from_utf8` decodes it.
#[verifier::external_body]
fn utf8_to_string(bytes: &[u8]) -> (r: String)
    requires
        vstd::utf8::valid_utf8(bytes@),
    ensures
        vstd::utf8::encode_utf8(r@) == bytes@,
{
    std::str::from_utf8(bytes).unwrap().to_owned()
}

/// Whether `data` and `start_hint` meet what `split_fn` requires.
pub fn split_fn_is_defined(data: &[u8], start_hint: usize) -> (r: bool)
    ensures
        r == split_fn_defined(data@, start_hint as nat),
{
    if start_hint > data.len() {
        return false;
    }
    let label = content_length_label_bytes();
    let start_index = match find_pattern(data, start_hint, label.as_slice()) {
        Some(s) => s,
        None => return true,
    };
    let delimiter = json_rpc_delimiter_bytes();
    proof {
        lemma_first_match_facts(data@, start_hint as int, content_length_label());
    }
    match find_pattern(data, start_index, delimiter.as_slice()) {
        None => true,
        Some(d) => {
            proof {
                lemma_first_match_facts(data@, start_index as int, json_rpc_delimiter());
            }
            d - start_index > start_index && d - start_index - start_index > 16
        },
    }
}

/// Finds the first complete message in `data`: the label at or after `start_hint`, the
/// delimiter after it, the decimal length between them, and the content of that length.
pub fn split_fn(data: &[u8], start_hint: usize) -> (r: Result<SplitFnResult, String>)
    requires
        split_fn_defined(data@, start_hint as nat),
    ensures
        match spec_split_fn(data@, start_hint as nat) {
            Ok(v) => r == Ok::<SplitFnResult, String>(v),
            Err(m) => r matches Err(e) && e@ == m,
        },
{
    let label = content_length_label_bytes();
    let start_index = match find_pattern(data, start_hint, label.as_slice()) {
        Some(s) => s,
        None => return Ok(SplitFnResult::Searching),
    };
    proof {
        lemma_first_match_facts(data@, start_hint as int, content_length_label());
    }
    let delimiter = json_rpc_delimiter_bytes();
    let delimiter_abs = match find_pattern(data, start_index, delimiter.as_slice()) {
        Some(d) => d,
        None => return Ok(SplitFnResult::SearchingEnd { start: start_index }),
    };
    proof {
        lemma_first_match_facts(data@, start_index as int, json_rpc_delimiter());
    }
    let n = data.len();
    let delimiter_index = delimiter_abs - start_index;
    let text = &data[start_hint + 16..delimiter_index];
    if !is_valid_utf8(text) {
        return Err("Could not convert content length bytes to str".to_owned());
    }
    let content_length = match parse_usize_bytes(text) {
        Ok(n) => n,
        Err(_) => return Err("Could not parse content length".to_owned()),
    };
    let content_start_index = delimiter_index + 4;
    if data.len() - content_start_index < content_length {
        return Ok(SplitFnResult::SearchingEnd { start: start_index });
    }
    Ok(SplitFnResult::Complete { start: start_index, end: content_start_index + content_length })
}

/// What `cut_data` returns: the bytes before and after the first delimiter.
pub open spec fn spec_cut(data: Seq<u8>) -> Option<(Seq<u8>, Seq<u8>)> {
    match first_match(data, 0, json_rpc_delimiter()) {
        Some(i) => Some((data.subrange(0, i), data.subrange(i + 4, data.len() as int))),
        None => None,
    }
}

/// Splits `data` at its first delimiter into header and content; without a delimiter the
/// bytes must be UTF-8, and the error repeats them.
pub fn cut_data(data: &[u8]) -> (r: Result<(&[u8], &[u8]), String>)
    requires
        first_match(data@, 0, json_rpc_delimiter()) is None ==> vstd::utf8::valid_utf8(data@),
    ensures
        match spec_cut(data@) {
            Some((h, c)) => r matches Ok((rh, rc)) && rh@ == h && rc@ == c,
            None => r matches Err(e) && vstd::utf8::encode_utf8(e@.skip(25)) == data@
                && e@.take(25) == "Could not cut data. Got: "@,
        },
{
    let delimiter = json_rpc_delimiter_bytes();
    match find_pattern(data, 0, delimiter.as_slice()) {
        Some(i) => {
            proof {
                lemma_first_match_facts(data@, 0, json_rpc_delimiter());
            }
            let n = data.len();
            Ok((&data[0..i], &data[i + 4..n]))
        },
        None => {
            let mut msg = "Could not cut data. Got: ".to_owned();
            let text = utf8_to_string(data);
            let ghost prefix = msg@;
            msg.append(text.as_str());
            proof {
                reveal_strlit("Could not cut data. Got: ");
                assert(msg@.skip(25) =~= text@);
                assert(msg@.take(25) =~= prefix);
            }
            Err(msg)
        },
    }
}

/// The content of a framed message: the bytes after the first delimiter.
pub fn message_content(msg: &[u8]) -> (r: Option<&[u8]>)
    ensures
        match first_match(msg@, 0, json_rpc_delimiter()) {
            Some(i) => r matches Some(c) && c@ == msg@.subrange(i + 4, msg@.len() as int),
            None => r is None,
        },
{
    let delimiter = json_rpc_delimiter_bytes();
    match find_pattern(msg, 0, delimiter.as_slice()) {
        Some(i) => {
            proof {
                lemma_first_match_facts(msg@, 0, json_rpc_delimiter());
            }
            let n = msg.len();
            Some(&msg[i + 4..n])
        },
        None => None,
    }
}

/// The framed message for `content`: the label, the content's length in decimal, the
/// delimiter, then the content.
pub open spec fn spec_frame(content: Seq<u8>) -> Seq<u8> {
    content_length_label() + decimal_digits(content.len()) + json_rpc_delimiter() + content
}

/// Frames `content` for the wire.
pub fn frame_message(content: &[u8]) -> (r: Vec<u8>)
    ensures
        r@ == spec_frame(content@),
{
    let mut out = content_length_label_bytes();
    let digits = usize_to_decimal(content.len());
    let delimiter = json_rpc_delimiter_bytes();
    let ghost a = out@;
    let mut i: usize = 0;
    while i < digits.len()
        invariant
            i <= digits@.len(),
            out@ == a + digits@.take(i as int),
        decreases digits@.len() - i,
    {
        out.push(digits[i]);
        assert(digits@.take(i + 1) =~= digits@.take(i as int).push(digits@[i as int]));
        i = i + 1;
    }
    let ghost b = out@;
    let mut j: usize = 0;
    while j < 4
        invariant
            j <= 4,
            delimiter@ == json_rpc_delimiter(),
            out@ == b + delimiter@.take(j as int),
        decreases 4 - j,
    {
        out.push(delimiter[j]);
        assert(delimiter@.take(j + 1) =~= delimiter@.take(j as int).push(delimiter@[j as int]));
        j = j + 1;
    }
    let ghost c = out@;
    let mut k: usize = 0;
    while k < content.len()
        invariant
            k <= content@.len(),
            out@ == c + content@.take(k as int),
        decreases content@.len() - k,
    {
        out.push(content[k]);
        assert(content@.take(k + 1) =~= content@.take(k as int).push(content@[k as int]));
        k = k + 1;
    }
    assert(digits@.take(digits@.len() as int) =~= digits@);
    assert(delimiter@.take(4) =~= delimiter@);
    assert(content@.take(content@.len() as int) =~= content@);
    assert(out@ =~= spec_frame(content@));
    out
}

} // verus!

verus! {

proof fn lemma_ascii_valid_utf8(b: Seq<u8>)
    requires
        forall|i: int| 0 <= i < b.len() ==> #[trigger] b[i] < 0x80,
    ensures
        vstd::utf8::valid_utf8(b),
    decreases b.len(),
{
    if b.len() > 0 {
        let x = b[0];
        assert(x < 0x80);
        assert((x & 0x7f) as u32 <= 0x7f) by (bit_vector);
        let rest = b.subrange(1, b.len() as int);
        assert(vstd::utf8::pop_first_scalar(b) =~= rest);
        assert forall|i: int| 0 <= i < rest.len() implies #[trigger] rest[i] < 0x80 by {
            assert(rest[i] == b[i + 1]);
        }
        lemma_ascii_valid_utf8(rest);
    }
}

proof fn lemma_first_match_at(data: Seq<u8>, from: int, k: int, pat: Seq<u8>)
    requires
        0 <= from <= k,
        matches_at(data, k, pat),
        forall|j: int| from <= j < k ==> !matches_at(data, j, pat),
    ensures
        first_match(data, from, pat) == Some(k),
    decreases k - from,
{
    if from < k {
        lemma_first_match_at(data, from + 1, k, pat);
    }
}

/// The header of a framed message holds no delimiter, so the first delimiter is the one
/// that ends the header.
proof fn lemma_frame_delimiter(content: Seq<u8>)
    ensures
        ({
            let f = spec_frame(content);
            let nd = decimal_digits(content.len()).len() as int;
            &&& first_match(f, 0, content_length_label()) == Some(0int)
            &&& first_match(f, 0, json_rpc_delimiter()) == Some(16 + nd)
            &&& f.subrange(16, 16 + nd) == decimal_digits(content.len())
            &&& f.subrange(16 + nd + 4, f.len() as int) == content
            &&& f.len() == 16 + nd + 4 + content.len()
        }),
{
    let f = spec_frame(content);
    let digits = decimal_digits(content.len());
    let nd = digits.len() as int;
    crate::int_parse::lemma_decimal_roundtrip(content.len(), content.len() as int);
    let label = content_length_label();
    assert(f.subrange(0, 16) =~= label);
    assert(matches_at(f, 0, label));
    lemma_first_match_at(f, 0, 0, label);
    assert(f.subrange(16 + nd, 16 + nd + 4) =~= json_rpc_delimiter());
    assert forall|j: int| 0 <= j < 16 + nd implies !matches_at(f, j, json_rpc_delimiter()) by {
        if j < 16 {
            assert(f[j] == label[j]);
            assert(f.subrange(j, j + 4)[0] == f[j]);
        } else {
            assert(f[j] == digits[j - 16]);
            assert(f.subrange(j, j + 4)[0] == f[j]);
        }
    }
    lemma_first_match_at(f, 0, 16 + nd, json_rpc_delimiter());
    assert(f.subrange(16, 16 + nd) =~= digits);
    assert(f.subrange(16 + nd + 4, f.len() as int) =~= content);
}

/// A framed message is found whole by `split_fn`: it starts at the label and ends
/// with its content.
pub proof fn lemma_split_fn_finds_framed_message(content: Seq<u8>)
    requires
        spec_frame(content).len() <= usize::MAX,
    ensures
        split_fn_defined(spec_frame(content), 0),
        spec_split_fn(spec_frame(content), 0) == Ok::<SplitFnResult, Seq<char>>(
            SplitFnResult::Complete { start: 0, end: spec_frame(content).len() as usize },
        ),
{
    let f = spec_frame(content);
    let digits = decimal_digits(content.len());
    let nd = digits.len() as int;
    lemma_frame_delimiter(content);
    crate::int_parse::lemma_decimal_roundtrip(content.len(), usize::MAX as int);
    assert forall|i: int| 0 <= i < digits.len() implies #[trigger] digits[i] < 0x80 by {
        assert(48 <= digits[i] <= 57);
    }
    lemma_ascii_valid_utf8(digits);
    assert(split_label(f, 0) == Some(0int));
    assert(f.subrange(0int + 16, 16 + nd - 0) == digits);
}

/// The content of a framed message is what was framed.
pub proof fn lemma_message_content_of_frame(content: Seq<u8>)
    ensures
        first_match(spec_frame(content), 0, json_rpc_delimiter()) matches Some(i)
            && spec_frame(content).subrange(i + 4, spec_frame(content).len() as int) == content,
{
    lemma_frame_delimiter(content);
}

} // verus!

verus! {

/// The positions `split_fn` reports lie within the data, the start before the end.
pub proof fn lemma_split_fn_bounds(data: Seq<u8>, start_hint: nat)
    requires
        split_fn_defined(data, start_hint),
        data.len() <= usize::MAX,
    ensures
        match spec_split_fn(data, start_hint) {
            Ok(SplitFnResult::Complete { start, end }) => start <= end <= data.len(),
            Ok(SplitFnResult::SearchingEnd { start }) => start <= data.len(),
            _ => true,
        },
{
    lemma_first_match_facts(data, start_hint as int, content_length_label());
    if let Some(s) = split_label(data, start_hint) {
        lemma_first_match_facts(data, s, json_rpc_delimiter());
        if let Some(d) = first_match(data, s, json_rpc_delimiter()) {
            let text = data.subrange(start_hint as int + 16, d - s);
            crate::int_parse::lemma_parse_int_in_range(byte_codes(text), 10, 0, usize::MAX as int);
        }
    }
}

/// The header of a framed message holds no delimiter, whatever bytes follow the frame.
proof fn lemma_frame_delimiter_then(content: Seq<u8>, rest: Seq<u8>)
    ensures
        ({
            let f = spec_frame(content);
            let g = f + rest;
            let nd = decimal_digits(content.len()).len() as int;
            &&& first_match(g, 0, content_length_label()) == Some(0int)
            &&& first_match(g, 0, json_rpc_delimiter()) == Some(16 + nd)
            &&& g.subrange(16, 16 + nd) == decimal_digits(content.len())
            &&& f.len() == 16 + nd + 4 + content.len()
            &&& g.len() == f.len() + rest.len()
        }),
{
    let f = spec_frame(content);
    let g = f + rest;
    let digits = decimal_digits(content.len());
    let nd = digits.len() as int;
    lemma_frame_delimiter(content);
    crate::int_parse::lemma_decimal_roundtrip(content.len(), content.len() as int);
    let label = content_length_label();
    assert(g.subrange(0, 16) =~= f.subrange(0, 16));
    assert(f.subrange(0, 16) =~= label);
    lemma_first_match_at(g, 0, 0, label);
    assert(g.subrange(16 + nd, 16 + nd + 4) =~= f.subrange(16 + nd, 16 + nd + 4));
    assert(f.subrange(16 + nd, 16 + nd + 4) =~= json_rpc_delimiter());
    assert forall|j: int| 0 <= j < 16 + nd implies !matches_at(g, j, json_rpc_delimiter()) by {
        assert(g[j] == f[j]);
        if j < 16 {
            assert(f[j] == label[j]);
        } else {
            assert(f[j] == digits[j - 16]);
        }
        assert(g.subrange(j, j + 4)[0] == g[j]);
    }
    lemma_first_match_at(g, 0, 16 + nd, json_rpc_delimiter());
    assert(g.subrange(16, 16 + nd) =~= f.subrange(16, 16 + nd));
}

/// `split_fn` cuts out exactly one framed message: on a frame followed by any further
/// bytes (the start of the next message, say), it reports the frame alone, from its label
/// to the end of its content, however many bytes follow.
pub proof fn lemma_split_fn_frame_then_more(content: Seq<u8>, rest: Seq<u8>)
    requires
        spec_frame(content).len() + rest.len() <= usize::MAX,
    ensures
        split_fn_defined(spec_frame(content) + rest, 0),
        spec_split_fn(spec_frame(content) + rest, 0) == Ok::<SplitFnResult, Seq<char>>(
            SplitFnResult::Complete { start: 0, end: spec_frame(content).len() as usize },
        ),
{
    let f = spec_frame(content);
    let g = f + rest;
    let digits = decimal_digits(content.len());
    let nd = digits.len() as int;
    lemma_frame_delimiter_then(content, rest);
    crate::int_parse::lemma_decimal_roundtrip(content.len(), usize::MAX as int);
    assert forall|i: int| 0 <= i < digits.len() implies #[trigger] digits[i] < 0x80 by {
        assert(48 <= digits[i] <= 57);
    }
    lemma_ascii_valid_utf8(digits);
    assert(split_label(g, 0) == Some(0int));
    assert(g.subrange(0int + 16, 16 + nd - 0) == digits);
}

} // verus!

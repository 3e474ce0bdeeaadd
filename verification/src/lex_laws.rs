//! What every lexing step keeps: the reader stays in the source and never moves back, and
//! every token it hands out covers a well-formed byte range inside the source.
use vstd::prelude::*;
use crate::lex::{lemma_adv, lemma_adv_n, lemma_cursor_mono, lemma_radix_run_bounds, lemma_string_scan_bounds};
use crate::lex_spec::{
    adv, adv_n, blank_scan, ch, ident_scan, is_ident_continue, number_exponent, number_finish,
    radix_run, range_between, spec_lex_number, spec_lex_string, string_scan, ResultView, SpanView,
    LexerView, spec_lex_next, spec_operator, lemma_comment_scan_bounds, comment_scan,
    spec_populate, spec_try_lex_tagged_string, spec_lex_ident, dedents, range_at,
    indent_scan, dedent_loop, indent_finish, spec_handle_indentations, zero_level,
    spec_lex_comment, spec_fill, spec_inner_next, spec_next, cursor_at, compare_levels,
    spec_is_digit_of_radix, number_decimal, number_radix,
};
use crate::lex::{IndentationLevel, LevelOrdering};
use crate::token::{Token, TokenView};
use crate::text_range::TextRange;
use crate::text_size::utf8_len;
use crate::token::spec_prefix_len;

verus! {

/// The range runs forward and ends inside the UTF-8 bytes of `s`.
pub open spec fn range_within(s: Seq<char>, r: TextRange) -> bool {
    r.start.raw <= r.end.raw && r.end.raw <= utf8_len(s)
}

/// Every span of `q` has a range inside the UTF-8 bytes of `s`.
pub open spec fn spans_within(s: Seq<char>, q: Seq<SpanView>) -> bool {
    forall|i: int| 0 <= i < q.len() ==> range_within(s, #[trigger] q[i].1)
}

/// The reader is inside a source whose UTF-8 length fits a `u32`.
pub open spec fn reader_ok(s: Seq<char>, p: nat) -> bool {
    p <= s.len() && utf8_len(s) <= u32::MAX
}

proof fn lemma_range_between(s: Seq<char>, p: nat, q: nat)
    requires
        p <= q,
        reader_ok(s, q),
    ensures
        range_within(s, range_between(s, p, q)),
{
    lemma_cursor_mono(s, p, q);
}

proof fn lemma_ident_scan_bounds(s: Seq<char>, p: nat)
    requires
        p <= s.len(),
    ensures
        p <= ident_scan(s, p).1 <= s.len(),
    decreases s.len() - p,
{
    lemma_adv(s, p);
    if p + 1 < s.len() && is_ident_continue(s[p as int + 1]) {
        lemma_ident_scan_bounds(s, adv(s, p));
    }
}

proof fn lemma_blank_scan_bounds(s: Seq<char>, p: nat)
    requires
        p <= s.len(),
    ensures
        p <= blank_scan(s, p) <= s.len(),
    decreases s.len() - p,
{
    lemma_adv(s, p);
    if p < s.len() && (s[p as int] == ' ' || s[p as int] == '\t' || s[p as int] == '\x0c') {
        lemma_blank_scan_bounds(s, adv(s, p));
    }
}

/// A step from `p` that ends at `e` inside the source, with a token (if any) inside it.
pub open spec fn step_ok(s: Seq<char>, p: nat, r: ResultView, e: nat) -> bool {
    &&& p <= e <= s.len()
    &&& r matches Ok(t) ==> range_within(s, t.1)
}

proof fn lemma_number_finish(s: Seq<char>, p: nat, text: Seq<char>, q: nat, is_float: bool)
    requires
        p <= q,
        reader_ok(s, q),
    ensures
        step_ok(s, p, number_finish(s, p, text, q, is_float).0, number_finish(s, p, text, q, is_float).1),
{
    lemma_adv(s, q);
    lemma_range_between(s, p, q);
    lemma_range_between(s, p, adv(s, q));
}

proof fn lemma_number_exponent(s: Seq<char>, p: nat, text: Seq<char>, q: nat, is_float: bool)
    requires
        p <= q,
        reader_ok(s, q),
    ensures
        number_exponent(s, p, text, q, is_float) matches Some((r, e)) ==> step_ok(s, p, r, e),
{
    let qa = adv(s, q);
    let qb = adv(s, qa);
    lemma_adv(s, q);
    lemma_adv(s, qa);
    lemma_radix_run_bounds(s, qb, 10);
    lemma_radix_run_bounds(s, qa, 10);
    lemma_number_finish(s, p, text, q, is_float);
    match radix_run(s, qb, 10) {
        Ok((t3, q3)) => {
            let w0 = ch(s, q as int);
            let w1 = ch(s, q as int + 1);
            if w0 is Some && w1 is Some {
                lemma_number_finish(s, p, text.push(w0->0).push(w1->0) + t3, q3, true);
            }
        },
        Err(_) => {},
    }
    match radix_run(s, qa, 10) {
        Ok((t3, q3)) => lemma_number_finish(s, p, text.push('e') + t3, q3, true),
        Err(_) => {},
    }
}

proof fn lemma_lex_number(s: Seq<char>, p: nat)
    requires
        reader_ok(s, p),
    ensures
        spec_lex_number(s, p) matches Some((r, e)) ==> step_ok(s, p, r, e),
{
    lemma_adv_n(s, p, 2);
    let p2 = adv_n(s, p, 2);
    lemma_radix_run_bounds(s, p2, 16);
    lemma_radix_run_bounds(s, p2, 8);
    lemma_radix_run_bounds(s, p2, 2);
    match radix_run(s, p2, 16) {
        Ok((_, q)) => lemma_range_between(s, p, q),
        Err(_) => {},
    }
    match radix_run(s, p2, 8) {
        Ok((_, q)) => lemma_range_between(s, p, q),
        Err(_) => {},
    }
    match radix_run(s, p2, 2) {
        Ok((_, q)) => lemma_range_between(s, p, q),
        Err(_) => {},
    }
    lemma_radix_run_bounds(s, p, 10);
    match radix_run(s, p, 10) {
        Err(_) => {},
        Ok((t1, q1)) => {
            lemma_adv(s, q1);
            lemma_radix_run_bounds(s, adv(s, q1), 10);
            match radix_run(s, adv(s, q1), 10) {
                Ok((t2, q2)) => lemma_number_exponent(s, p, t1.push('.') + t2, q2, true),
                Err(_) => {},
            }
            lemma_number_exponent(s, p, t1.push('.'), adv(s, q1), true);
            lemma_number_exponent(s, p, t1, q1, false);
        },
    }
}

proof fn lemma_lex_string(s: Seq<char>, p: nat, kind: crate::token::StringKind)
    requires
        reader_ok(s, p),
    ensures
        spec_lex_string(s, p, kind) matches Some((r, e)) ==> step_ok(s, p, r, e),
{
    let p0 = adv_n(s, p, spec_prefix_len(kind));
    lemma_adv_n(s, p, spec_prefix_len(kind));
    lemma_adv_n(s, p0, 3);
    lemma_adv_n(s, p0, 1);
    match ch(s, p0 as int) {
        None => {},
        Some(quote) => {
            let triple = ch(s, p0 as int + 1) == Some(quote) && ch(s, p0 as int + 2) == Some(quote);
            let q = adv_n(s, p0, if triple { 3 } else { 1 });
            lemma_string_scan_bounds(s, q, quote, triple);
            lemma_range_between(s, p, string_scan(s, q, quote, triple).1);
        },
    }
}

/// A step of the lexer from `v` to `v2` that reads on in the same source and leaves the
/// queue and the indentation levels as they were.
pub open spec fn plain_step(v: LexerView, v2: LexerView) -> bool {
    &&& v2.src == v.src
    &&& v2.queue == v.queue
    &&& v2.indents == v.indents
}

proof fn lemma_lex_next(v: LexerView)
    requires
        reader_ok(v.src, v.pos),
    ensures
        spec_lex_next(v) matches Some((r, v2)) ==> step_ok(v.src, v.pos, r, v2.pos) && plain_step(
            v,
            v2,
        ),
{
    let s = v.src;
    let p = v.pos;
    lemma_adv(s, p);
    lemma_range_between(s, p, adv(s, p));
    lemma_lex_number(s, p);
    lemma_comment_scan_bounds(s, p);
    lemma_range_between(s, p, comment_scan(s, p).1);
    lemma_lex_string(s, p, crate::token::StringKind::String);
    lemma_blank_scan_bounds(s, p);
    lemma_range_between(s, p, blank_scan(s, p));
    match spec_operator(v.window(0), v.window(1), v.window(2)) {
        Some((_, n)) => {
            lemma_adv_n(s, p, n);
            lemma_range_between(s, p, adv_n(s, p, n));
        },
        None => {},
    }
}

proof fn lemma_spans_push(s: Seq<char>, q: Seq<SpanView>, t: SpanView)
    requires
        spans_within(s, q),
        range_within(s, t.1),
    ensures
        spans_within(s, q.push(t)),
{
    assert forall|i: int| 0 <= i < q.push(t).len() implies range_within(s, #[trigger] q.push(t)[i].1) by {
        if i < q.len() {
            assert(q.push(t)[i] == q[i]);
        }
    }
}

proof fn lemma_spans_dedents(s: Seq<char>, q: Seq<SpanView>, p: nat, n: nat)
    requires
        spans_within(s, q),
        reader_ok(s, p),
    ensures
        spans_within(s, q + dedents(s, p, n)),
{
    lemma_range_between(s, p, p);
    let d = dedents(s, p, n);
    assert forall|i: int| 0 <= i < (q + d).len() implies range_within(s, #[trigger] (q + d)[i].1) by {
        if i < q.len() {
            assert((q + d)[i] == q[i]);
        } else {
            assert((q + d)[i] == d[i - q.len()]);
        }
    }
}

/// A populating step from `v` to `v2`: the same source, the reader not moved back and still
/// inside it, and every queued span inside the source.
pub open spec fn fill_step(v: LexerView, v2: LexerView) -> bool {
    &&& v2.src == v.src
    &&& v.pos <= v2.pos <= v.src.len()
    &&& spans_within(v.src, v2.queue)
}

#[verifier::rlimit(40)]
proof fn lemma_populate(v: LexerView)
    requires
        reader_ok(v.src, v.pos),
        spans_within(v.src, v.queue),
    ensures
        spec_populate(v) matches Some((_, v2)) ==> fill_step(v, v2),
{
    let s = v.src;
    let p = v.pos;
    lemma_range_between(s, p, p);
    match v.window(0) {
        Some(c) => {
            lemma_lex_next(v);
            match spec_lex_next(v) {
                Some((Ok(t), v2)) => lemma_spans_push(s, v2.queue, t),
                _ => {},
            }
            lemma_ident_scan_bounds(s, p);
            let (t, q) = spec_lex_ident(s, p);
            lemma_range_between(s, p, q);
            lemma_spans_push(s, v.queue, t);
            match crate::token::spec_kind_of_prefix(c) {
                Some(k) => lemma_lex_string(s, p, k),
                None => {},
            }
            match (v.window(0), v.window(1)) {
                (Some(c0), Some(c1)) => match crate::token::spec_kind_of_prefix_pair(c0, c1) {
                    Some(k) => lemma_lex_string(s, p, k),
                    None => {},
                },
                _ => {},
            }
            match spec_try_lex_tagged_string(s, p) {
                Some(Some((Ok(t), q))) => lemma_spans_push(s, v.queue, t),
                _ => {},
            }
        },
        None => {
            let v1 = if !v.at_begin_of_line {
                LexerView { at_begin_of_line: true, ..v }.push(
                    (crate::token::TokenView::Plain(crate::token::Token::Newline), range_at(s, p)),
                )
            } else {
                v
            };
            lemma_spans_push(s, v.queue, (crate::token::TokenView::Plain(crate::token::Token::Newline), range_at(s, p)));
            lemma_spans_dedents(s, v1.queue, p, (v1.indents.len() - 1) as nat);
            lemma_spans_push(
                s,
                v1.queue + dedents(s, p, (v1.indents.len() - 1) as nat),
                (crate::token::TokenView::Plain(crate::token::Token::EndOfFile), range_at(s, p)),
            );
        },
    }
}

proof fn lemma_indent_scan(v: LexerView, level: IndentationLevel)
    requires
        reader_ok(v.src, v.pos),
        spans_within(v.src, v.queue),
        level.spaces + level.tabs <= v.pos,
    ensures
        ({
            let (r, v1) = indent_scan(v, level);
            &&& fill_step(v, v1)
            &&& v1.indents == v.indents
            &&& r matches Ok(l) ==> l.spaces + l.tabs <= v1.pos
        }),
    decreases v.src.len() - v.pos,
{
    let s = v.src;
    let q = v.pos;
    if q < s.len() {
        let c = s[q as int];
        lemma_adv(s, q);
        lemma_cursor_mono(s, s.len(), s.len());
        if c == ' ' {
            lemma_indent_scan(
                v.at(adv(s, q)),
                IndentationLevel { spaces: (level.spaces + 1) as u32, ..level },
            );
        } else if c == '\t' {
            if level.spaces == 0 {
                lemma_indent_scan(v.at(adv(s, q)), IndentationLevel { tabs: (level.tabs + 1) as u32, ..level });
            }
        } else if c == '#' {
            let (_, e) = spec_lex_comment(s, q);
            lemma_comment_scan_bounds(s, q);
            lemma_comment_scan_bounds(s, adv(s, q));
            assert(comment_scan(s, q).1 == comment_scan(s, adv(s, q)).1);
            lemma_indent_scan(v.at(e), zero_level());
        } else if c == '\x0c' {
            lemma_indent_scan(v.at(adv(s, q)), zero_level());
        } else if c == '\n' || c == '\r' {
            let e = adv(s, q);
            let t = (crate::token::TokenView::Plain(crate::token::Token::NonLogicalNewline), range_between(s, q, e));
            lemma_range_between(s, q, e);
            lemma_spans_push(s, v.queue, t);
            lemma_indent_scan(v.at(e).push(t), zero_level());
        }
    }
}

proof fn lemma_dedent_loop(v: LexerView, level: IndentationLevel)
    requires
        reader_ok(v.src, v.pos),
        spans_within(v.src, v.queue),
    ensures
        ({
            let (r, v2) = dedent_loop(v, level);
            &&& v2.src == v.src
            &&& v2.pos == v.pos
            &&& spans_within(v.src, v2.queue)
        }),
    decreases v.indents.len(),
{
    lemma_range_between(v.src, v.pos, v.pos);
    let t = (crate::token::TokenView::Plain(crate::token::Token::Dedent), range_at(v.src, v.pos));
    lemma_spans_push(v.src, v.queue, t);
    if v.indents.len() > 1 {
        lemma_dedent_loop(LexerView { indents: v.indents.drop_last(), ..v }.push(t), level);
    }
}

proof fn lemma_handle_indentations(v: LexerView)
    requires
        reader_ok(v.src, v.pos),
        spans_within(v.src, v.queue),
    ensures
        fill_step(v, spec_handle_indentations(v).1),
{
    lemma_indent_scan(v, zero_level());
    let (r, v1) = indent_scan(v, zero_level());
    match r {
        Err(_) => {},
        Ok(level) => {
            let s = v1.src;
            lemma_cursor_mono(s, v1.pos, v1.pos);
            lemma_dedent_loop(v1, level);
            let c = v1.cursor();
            let t = (
                crate::token::TokenView::Plain(crate::token::Token::Indent),
                TextRange {
                    start: crate::text_size::TextSize { raw: (c - level.spaces - level.tabs) as u32 },
                    end: crate::text_size::TextSize { raw: c as u32 },
                },
            );
            lemma_spans_push(s, v1.queue, t);
        },
    }
}

proof fn lemma_fill(v: LexerView)
    requires
        reader_ok(v.src, v.pos),
        spans_within(v.src, v.queue),
    ensures
        spec_fill(v) matches Some((r, v1)) ==> fill_step(v, v1) && (r is Ok ==> v1.queue.len() > 0),
    decreases v.src.len() - v.pos,
{
    if v.queue.len() == 0 {
        let (r1, v1) = if v.at_begin_of_line {
            spec_handle_indentations(v)
        } else {
            (Ok(()), v)
        };
        if v.at_begin_of_line {
            lemma_handle_indentations(v);
        }
        if r1 is Ok {
            lemma_populate(v1);
            match spec_populate(v1) {
                Some((Ok(()), v2)) => {
                    if v2.queue.len() == 0 && v2.pos > v.pos && v2.pos <= v2.src.len() && v2.src == v.src {
                        lemma_fill(v2);
                    }
                },
                _ => {},
            }
        }
    }
}

/// The lexer never moves back or leaves its source, and every token it hands out covers a
/// forward range of bytes inside the source: from a state whose queued tokens lie in the
/// source, the next token lies in it too, and so do the tokens still queued after it. The
/// lexer starts with nothing queued.
pub proof fn lemma_next_token_within_source(v: LexerView)
    requires
        reader_ok(v.src, v.pos),
        spans_within(v.src, v.queue),
    ensures
        spec_next(v) matches Some((o, v1)) ==> {
            &&& v1.src == v.src
            &&& v.pos <= v1.pos <= v.src.len()
            &&& spans_within(v.src, v1.queue)
            &&& o matches Some(Ok(t)) ==> range_within(v.src, t.1)
        },
{
    lemma_fill(v);
    match spec_fill(v) {
        Some((Ok(()), v1)) => {
            let rest = v1.queue.drop_first();
            assert forall|i: int| 0 <= i < rest.len() implies range_within(v.src, #[trigger] rest[i].1) by {
                assert(rest[i] == v1.queue[i + 1]);
            }
            assert(range_within(v.src, v1.queue[0].1));
        },
        _ => {},
    }
}

/// A lexer that has just been made has nothing queued.
pub proof fn lemma_initial_spans_within(src: Seq<char>)
    ensures
        spans_within(src, crate::lex::initial_view(src).queue),
{
}

/// The lexer's byte cursor never goes back: every public lexer step keeps the source and
/// does not lower the reader's position, and a later position has a cursor no smaller.
/// Once no character is left, the cursor is the UTF-8 length of the whole source.
pub proof fn lemma_cursor_law(s: Seq<char>, p: nat, q: nat)
    requires
        p <= q <= s.len(),
    ensures
        cursor_at(s, p) <= cursor_at(s, q) <= utf8_len(s),
        ch(s, q as int) is None ==> cursor_at(s, q) == utf8_len(s),
{
    lemma_cursor_mono(s, p, q);
}

/// Each lexer state of `vs` comes from the one before by lexer calls: the same source, and
/// a position that is no smaller and still inside the source. Every public step of the
/// lexer (`next_char`, `jump_forward_n_chars`, the `lex_` steps, `populate_results_queue`,
/// `next`, `try_next`) ensures this of the state before and after it.
pub open spec fn lexer_calls(vs: Seq<LexerView>) -> bool {
    &&& forall|i: int| 0 <= i < vs.len() ==> #[trigger] vs[i].pos <= vs[i].src.len()
    &&& forall|i: int|
        0 <= i < vs.len() - 1 ==> (#[trigger] vs[i + 1]).src == vs[i].src && vs[i].pos <= vs[i + 1].pos
}

proof fn lemma_calls_mono(vs: Seq<LexerView>, i: int, j: int)
    requires
        lexer_calls(vs),
        0 <= i <= j < vs.len(),
    ensures
        vs[j].src == vs[i].src,
        vs[i].pos <= vs[j].pos,
    decreases j - i,
{
    if i < j {
        lemma_calls_mono(vs, i, j - 1);
        assert(vs[(j - 1) + 1].src == vs[j - 1].src);
    }
}

/// Over any sequence of lexer calls the byte cursor never goes back, and whenever no
/// character is left it is the UTF-8 length of the whole source.
pub proof fn lemma_cursor_over_calls(vs: Seq<LexerView>)
    requires
        lexer_calls(vs),
    ensures
        forall|i: int, j: int|
            0 <= i <= j < vs.len() ==> (#[trigger] vs[i]).cursor() <= (#[trigger] vs[j]).cursor(),
        forall|i: int|
            0 <= i < vs.len() && (#[trigger] vs[i]).window(0) is None ==> vs[i].cursor() == utf8_len(
                vs[i].src,
            ),
{
    assert forall|i: int, j: int| 0 <= i <= j < vs.len() implies (#[trigger] vs[i]).cursor() <= (
    #[trigger] vs[j]).cursor() by {
        lemma_calls_mono(vs, i, j);
        assert(vs[j].pos <= vs[j].src.len());
        lemma_cursor_mono(vs[i].src, vs[i].pos, vs[j].pos);
    }
    assert forall|i: int| 0 <= i < vs.len() && (#[trigger] vs[i]).window(0) is None implies vs[i].cursor()
        == utf8_len(vs[i].src) by {
        assert(vs[i].pos <= vs[i].src.len());
        lemma_cursor_mono(vs[i].src, vs[i].pos, vs[i].pos);
    }
}

/// The tokens a number gives are numbers.
proof fn lemma_number_tokens(s: Seq<char>, p: nat)
    ensures
        spec_lex_number(s, p) matches Some((Ok(t), _)) ==> t.0 is Int || t.0 is Float || t.0 is Complex,
{
}

/// Only brackets change the nesting of `lex_next`: a bracket that opens raises it by one,
/// one that closes lowers it by one (and is an error where nothing is open), and every
/// other step leaves it as it was.
#[verifier::rlimit(50)]
pub proof fn lemma_lex_next_nesting(v: LexerView)
    ensures
        spec_lex_next(v) matches Some((r, v2)) ==> match r {
            Ok((TokenView::Plain(Token::Lpar), _)) => v2.nesting == v.nesting + 1,
            Ok((TokenView::Plain(Token::Lsqb), _)) => v2.nesting == v.nesting + 1,
            Ok((TokenView::Plain(Token::Lbrace), _)) => v2.nesting == v.nesting + 1,
            Ok((TokenView::Plain(Token::Rpar), _)) => v.nesting > 0 && v2.nesting == v.nesting - 1,
            Ok((TokenView::Plain(Token::Rsqb), _)) => v.nesting > 0 && v2.nesting == v.nesting - 1,
            Ok((TokenView::Plain(Token::Rbrace), _)) => v.nesting > 0 && v2.nesting == v.nesting - 1,
            _ => v2.nesting == v.nesting,
        },
{
    lemma_number_tokens(v.src, v.pos);
}

/// A string with a prefix is always lexed: the quote that follows the prefix opens it.
pub proof fn lemma_tagged_string_defined(s: Seq<char>, p: nat)
    ensures
        spec_try_lex_tagged_string(s, p) is Some,
{
    let w0 = ch(s, p as int);
    let w1 = ch(s, p as int + 1);
    if w0 is Some && crate::lex_spec::is_quote(w1) {
        assert(adv_n(s, p, 1) == adv_n(s, adv(s, p), 0));
    } else if w0 is Some && w1 is Some && crate::lex_spec::is_quote(ch(s, p as int + 2)) {
        assert(adv_n(s, p, 2) == adv_n(s, adv(s, p), 1));
        assert(adv_n(s, adv(s, p), 1) == adv_n(s, adv(s, adv(s, p)), 0));
    }
}

/// The lexer steps from a character that starts no name are defined everywhere but at the
/// end of the source and at a number whose exponent error would be located past what a
/// `u32` holds.
pub proof fn lemma_lex_next_defined(v: LexerView)
    ensures
        spec_lex_next(v) is Some <==> (v.window(0) is Some && !(v.window(0) matches Some(c)
            && '0' <= c <= '9' && spec_lex_number(v.src, v.pos) is None)),
{
    assert(adv_n(v.src, v.pos, 0) == v.pos);
}

/// A populating step is defined everywhere but at a number whose exponent error would be
/// located past what a `u32` holds.
pub proof fn lemma_populate_defined(v: LexerView)
    ensures
        spec_populate(v) is Some <==> !(v.window(0) matches Some(c) && !crate::lex_spec::is_ident_start(c)
            && '0' <= c <= '9' && spec_lex_number(v.src, v.pos) is None),
{
    lemma_tagged_string_defined(v.src, v.pos);
    lemma_lex_next_defined(v);
}

} // verus!

verus! {

/// Different operator spellings give different tokens: two windows that give the same
/// operator token spell it with the same characters, over the same length.
#[verifier::rlimit(100)]
pub proof fn lemma_operator_spellings_distinct(
    a0: Option<char>,
    a1: Option<char>,
    a2: Option<char>,
    b0: Option<char>,
    b1: Option<char>,
    b2: Option<char>,
    t: Token,
    n: nat,
    m: nat,
)
    requires
        crate::lex_spec::spec_operator(a0, a1, a2) == Some((t, n)),
        crate::lex_spec::spec_operator(b0, b1, b2) == Some((t, m)),
    ensures
        n == m,
        a0 == b0,
        n >= 2 ==> a1 == b1,
        n >= 3 ==> a2 == b2,
{
}

} // verus!

verus! {

/// The step that reads the `n` characters at the reader as the token `t`.
pub open spec fn read_as(v: LexerView, t: Token, n: nat) -> Option<(ResultView, LexerView)> {
    let e = adv_n(v.src, v.pos, n);
    Some((Ok((TokenView::Plain(t), range_between(v.src, v.pos, e))), v.at(e)))
}

/// A comparison operator is read as its own token over its two characters: `!=` as
/// `NotEqual`, `==` as `EqEqual`, `<=` as `LessEqual` and `>=` as `GreaterEqual`, whatever
/// follows them.
pub proof fn lemma_comparison_operators(v: LexerView)
    ensures
        v.window(0) == Some('!') && v.window(1) == Some('=') ==> spec_lex_next(v) == read_as(v, Token::NotEqual, 2),
        v.window(0) == Some('=') && v.window(1) == Some('=') ==> spec_lex_next(v) == read_as(v, Token::EqEqual, 2),
        v.window(0) == Some('<') && v.window(1) == Some('=') ==> spec_lex_next(v) == read_as(v, Token::LessEqual, 2),
        v.window(0) == Some('>') && v.window(1) == Some('=') ==> spec_lex_next(v) == read_as(v, Token::GreaterEqual, 2),
{
}

} // verus!

verus! {

/// Different keyword spellings give different keyword tokens: two names that give the same
/// keyword are the same name.
#[verifier::rlimit(100)]
pub proof fn lemma_keyword_spellings_distinct(a: Seq<char>, b: Seq<char>, t: Token)
    requires
        crate::token::spec_keyword(a) == Some(t),
        crate::token::spec_keyword(b) == Some(t),
    ensures
        a == b,
{
}

/// `def` is the keyword that starts a function and `del` the one that deletes; `if`, `else`,
/// `for`, `in`, `not`, `is`, `or` and `and` are their own keywords too.
pub proof fn lemma_keywords_by_spelling()
    ensures
        crate::token::spec_keyword(seq!['d', 'e', 'f']) == Some(Token::Def),
        crate::token::spec_keyword(seq!['d', 'e', 'l']) == Some(Token::Del),
        crate::token::spec_keyword(seq!['i', 'f']) == Some(Token::If),
        crate::token::spec_keyword(seq!['e', 'l', 's', 'e']) == Some(Token::Else),
        crate::token::spec_keyword(seq!['f', 'o', 'r']) == Some(Token::For),
        crate::token::spec_keyword(seq!['i', 'n']) == Some(Token::In),
        crate::token::spec_keyword(seq!['n', 'o', 't']) == Some(Token::Not),
        crate::token::spec_keyword(seq!['i', 's']) == Some(Token::Is),
        crate::token::spec_keyword(seq!['o', 'r']) == Some(Token::Or),
        crate::token::spec_keyword(seq!['a', 'n', 'd']) == Some(Token::And),
{
}

} // verus!

verus! {

proof fn lemma_dedents_push(s: Seq<char>, p: nat, q: Seq<SpanView>, m: nat)
    ensures
        q.push((TokenView::Plain(Token::Dedent), range_at(s, p))) + dedents(s, p, m) == q + dedents(s, p, m + 1),
{
    assert(q.push((TokenView::Plain(Token::Dedent), range_at(s, p))) + dedents(s, p, m) =~= q + dedents(s, p, m + 1));
}

/// Closing indentation levels at a line start: where it succeeds, the innermost open level
/// afterwards is the line's own level; the levels closed are exactly the innermost ones, each
/// deeper than the line's level, and one `Dedent` is queued for each of them.
pub proof fn lemma_dedent_loop_closes_to_level(v: LexerView, level: IndentationLevel)
    requires
        v.indents.len() >= 1,
        v.indents[0] == zero_level(),
    ensures
        ({
            let (r, v2) = dedent_loop(v, level);
            r is Ok ==> {
                &&& 1 <= v2.indents.len() <= v.indents.len()
                &&& v2.indents == v.indents.take(v2.indents.len() as int)
                &&& v2.indents.last() == level
                &&& forall|i: int|
                    v2.indents.len() <= i < v.indents.len() ==> compare_levels(level, #[trigger] v.indents[i])
                        == Some(LevelOrdering::Less)
                &&& v2.queue == v.queue + dedents(v.src, v.pos, (v.indents.len() - v2.indents.len()) as nat)
                &&& v2.src == v.src && v2.pos == v.pos
            }
        }),
    decreases v.indents.len(),
{
    let last = v.indents.last();
    assert(v.queue + dedents(v.src, v.pos, 0) =~= v.queue);
    assert(v.indents.take(v.indents.len() as int) =~= v.indents);
    match compare_levels(level, last) {
        Some(LevelOrdering::Less) => {
            if v.indents.len() > 1 {
                let t = (TokenView::Plain(Token::Dedent), range_at(v.src, v.pos));
                let v1 = LexerView { indents: v.indents.drop_last(), ..v }.push(t);
                lemma_dedent_loop_closes_to_level(v1, level);
                let (r, v2) = dedent_loop(v1, level);
                if r is Ok {
                    let k = (v1.indents.len() - v2.indents.len()) as nat;
                    lemma_dedents_push(v.src, v.pos, v.queue, k);
                    assert(v2.indents =~= v.indents.take(v2.indents.len() as int));
                    assert forall|i: int| v2.indents.len() <= i < v.indents.len() implies compare_levels(
                        level,
                        #[trigger] v.indents[i],
                    ) == Some(LevelOrdering::Less) by {
                        if i < v.indents.len() - 1 {
                            assert(v.indents[i] == v1.indents[i]);
                        }
                    }
                }
            } else {
                assert(v.indents.last() == v.indents[0]);
            }
        },
        _ => {},
    }
}

/// The indentation of a new line, where it is accepted, becomes the innermost open level.
pub proof fn lemma_indent_finish_level(v: LexerView, level: IndentationLevel)
    requires
        v.indents.len() >= 1,
        v.indents[0] == zero_level(),
    ensures
        indent_finish(v, level).0 is Ok ==> indent_finish(v, level).1.indents.last() == level,
{
    lemma_dedent_loop_closes_to_level(v, level);
}

} // verus!

verus! {

/// The characters of a number literal that its text keeps: all but underscores (and a
/// carriage return the reader steps over before a line feed).
pub open spec fn kept_in_number() -> spec_fn(char) -> bool {
    |c: char| c != '_' && c != '\r'
}

/// The characters of `x` that a number's text keeps.
pub open spec fn number_chars(x: Seq<char>) -> Seq<char> {
    x.filter(kept_in_number())
}

/// `text` spells the characters `src`, character by character, but for an exponent marker
/// written `E` that the text writes `e`.
pub open spec fn same_number_text(text: Seq<char>, src: Seq<char>) -> bool {
    &&& text.len() == src.len()
    &&& forall|i: int| 0 <= i < text.len() ==> text[i] == src[i] || (text[i] == 'e' && src[i] == 'E')
}

/// What the text of a float or imaginary token is: the source characters of the literal,
/// underscores left out, and without the closing `j` of an imaginary literal.
pub open spec fn number_text_law(s: Seq<char>, p: nat, r: ResultView, e: nat) -> bool {
    match r {
        Ok((TokenView::Float(t), _)) => same_number_text(t, number_chars(s.subrange(p as int, e as int))),
        Ok((TokenView::Complex(t), _)) => {
            let c = number_chars(s.subrange(p as int, e as int));
            &&& c.len() > 0
            &&& (c.last() == 'j' || c.last() == 'J')
            &&& same_number_text(t, c.drop_last())
        },
        _ => true,
    }
}

proof fn lemma_chars_single(c: char)
    ensures
        number_chars(seq![c]) == if c != '_' && c != '\r' { seq![c] } else { Seq::<char>::empty() },
{
    reveal_with_fuel(Seq::filter, 2);
    assert(seq![c].drop_last() =~= Seq::<char>::empty());
}

proof fn lemma_chars_concat(a: Seq<char>, b: Seq<char>)
    ensures
        number_chars(a + b) == number_chars(a) + number_chars(b),
{
    Seq::filter_distributes_over_add(a, b, kept_in_number());
}

proof fn lemma_chars_empty()
    ensures
        number_chars(Seq::<char>::empty()) == Seq::<char>::empty(),
{
    reveal_with_fuel(Seq::filter, 1);
}

proof fn lemma_split(s: Seq<char>, p: int, q: int, e: int)
    requires
        0 <= p <= q <= e <= s.len(),
    ensures
        number_chars(s.subrange(p, e)) == number_chars(s.subrange(p, q)) + number_chars(s.subrange(q, e)),
{
    assert(s.subrange(p, e) =~= s.subrange(p, q) + s.subrange(q, e));
    lemma_chars_concat(s.subrange(p, q), s.subrange(q, e));
}

/// One step of the reader from a character other than a carriage return keeps that
/// character alone (a carriage return skipped before a line feed is left out).
proof fn lemma_step_chars(s: Seq<char>, p: nat)
    requires
        p < s.len(),
        s[p as int] != '_' && s[p as int] != '\r',
    ensures
        number_chars(s.subrange(p as int, adv(s, p) as int)) == seq![s[p as int]],
{
    lemma_adv(s, p);
    let q = adv(s, p);
    if q == p + 1 {
        assert(s.subrange(p as int, q as int) =~= seq![s[p as int]]);
        lemma_chars_single(s[p as int]);
    } else {
        assert(s.subrange(p as int, q as int) =~= seq![s[p as int]] + seq![s[p as int + 1]]);
        lemma_chars_concat(seq![s[p as int]], seq![s[p as int + 1]]);
        lemma_chars_single(s[p as int]);
        lemma_chars_single(s[p as int + 1]);
        assert(seq![s[p as int]] + Seq::<char>::empty() =~= seq![s[p as int]]);
    }
}

proof fn lemma_same_refl(a: Seq<char>)
    ensures
        same_number_text(a, a),
{
}

proof fn lemma_same_concat(a1: Seq<char>, b1: Seq<char>, a2: Seq<char>, b2: Seq<char>)
    requires
        same_number_text(a1, b1),
        same_number_text(a2, b2),
    ensures
        same_number_text(a1 + a2, b1 + b2),
{
    assert forall|i: int| 0 <= i < (a1 + a2).len() implies (a1 + a2)[i] == (b1 + b2)[i] || ((a1 + a2)[i]
        == 'e' && (b1 + b2)[i] == 'E') by {
        if i < a1.len() {
            assert((a1 + a2)[i] == a1[i] && (b1 + b2)[i] == b1[i]);
        } else {
            assert((a1 + a2)[i] == a2[i - a1.len()] && (b1 + b2)[i] == b2[i - a1.len()]);
        }
    }
}

proof fn lemma_radix_run_text(s: Seq<char>, p: nat, radix: u32)
    requires
        p <= s.len(),
    ensures
        radix_run(s, p, radix) matches Ok((t, e)) ==> t == number_chars(s.subrange(p as int, e as int)),
    decreases s.len() - p,
{
    lemma_adv(s, p);
    lemma_chars_empty();
    assert(s.subrange(p as int, p as int) =~= Seq::<char>::empty());
    if p < s.len() && spec_is_digit_of_radix(s[p as int], radix) {
        let q = adv(s, p);
        lemma_step_chars(s, p);
        if p + 1 < s.len() {
            let c2 = s[p as int + 1];
            if !(!spec_is_digit_of_radix(c2, radix) && c2 != '_') {
                lemma_radix_run_text(s, q, radix);
                lemma_radix_run_bounds(s, q, radix);
                match radix_run(s, q, radix) {
                    Ok((t, e)) => lemma_split(s, p as int, q as int, e as int),
                    Err(_) => {},
                }
            }
        }
    } else if p < s.len() && s[p as int] == '_' {
        if p + 1 < s.len() && spec_is_digit_of_radix(s[p as int + 1], radix) {
            let q = adv(s, p);
            lemma_radix_run_text(s, q, radix);
            lemma_radix_run_bounds(s, q, radix);
            assert(s.subrange(p as int, q as int) =~= seq!['_']);
            lemma_chars_single('_');
            match radix_run(s, q, radix) {
                Ok((t, e)) => {
                    lemma_split(s, p as int, q as int, e as int);
                    assert(Seq::<char>::empty() + t =~= t);
                },
                Err(_) => {},
            }
        }
    }
}

} // verus!

verus! {

proof fn lemma_number_finish_text(s: Seq<char>, p: nat, text: Seq<char>, q: nat, is_float: bool)
    requires
        p <= q <= s.len(),
        same_number_text(text, number_chars(s.subrange(p as int, q as int))),
    ensures
        number_text_law(s, p, number_finish(s, p, text, q, is_float).0, number_finish(s, p, text, q, is_float).1),
{
    if ch(s, q as int) == Some('j') || ch(s, q as int) == Some('J') {
        let e = adv(s, q);
        lemma_adv(s, q);
        lemma_step_chars(s, q);
        lemma_split(s, p as int, q as int, e as int);
        let c = number_chars(s.subrange(p as int, e as int));
        assert(c.drop_last() =~= number_chars(s.subrange(p as int, q as int)));
    }
}

proof fn lemma_number_exponent_text(s: Seq<char>, p: nat, text: Seq<char>, q: nat, is_float: bool)
    requires
        p <= q <= s.len(),
        same_number_text(text, number_chars(s.subrange(p as int, q as int))),
    ensures
        number_exponent(s, p, text, q, is_float) matches Some((r, e)) ==> number_text_law(s, p, r, e),
{
    let w0 = ch(s, q as int);
    let w1 = ch(s, q as int + 1);
    let is_e = w0 == Some('e') || w0 == Some('E');
    lemma_number_finish_text(s, p, text, q, is_float);
    if is_e && w1 is Some {
        let qa = adv(s, q);
        let qb = adv(s, qa);
        lemma_adv(s, q);
        lemma_adv(s, qa);
        lemma_step_chars(s, q);
        if w1 == Some('+') || w1 == Some('-') {
            lemma_step_chars(s, qa);
            match ch(s, qb as int) {
                Some(c) => if spec_is_digit_of_radix(c, 10) {
                    lemma_radix_run_text(s, qb, 10);
                    lemma_radix_run_bounds(s, qb, 10);
                    match radix_run(s, qb, 10) {
                        Ok((t3, q3)) => {
                            let t = text.push(w0->0).push(w1->0);
                            lemma_split(s, p as int, q as int, qa as int);
                            lemma_split(s, p as int, qa as int, qb as int);
                            lemma_split(s, p as int, qb as int, q3 as int);
                            let src_q = number_chars(s.subrange(p as int, q as int));
                            assert(text.push(w0->0).push(w1->0) + t3 =~= text + (seq![w0->0, w1->0] + t3));
                            assert(number_chars(s.subrange(p as int, q3 as int)) =~= src_q + (seq![w0->0, w1->0]
                                + t3));
                            lemma_same_refl(seq![w0->0, w1->0] + t3);
                            lemma_same_concat(text, src_q, seq![w0->0, w1->0] + t3, seq![w0->0, w1->0] + t3);
                            lemma_number_finish_text(s, p, t + t3, q3, true);
                        },
                        Err(_) => {},
                    }
                },
                None => {},
            }
        } else if spec_is_digit_of_radix(w1->0, 10) {
            lemma_radix_run_text(s, qa, 10);
            lemma_radix_run_bounds(s, qa, 10);
            match radix_run(s, qa, 10) {
                Ok((t3, q3)) => {
                    lemma_split(s, p as int, q as int, qa as int);
                    lemma_split(s, p as int, qa as int, q3 as int);
                    let src_q = number_chars(s.subrange(p as int, q as int));
                    assert(text.push('e') + t3 =~= text + (seq!['e'] + t3));
                    assert(number_chars(s.subrange(p as int, q3 as int)) =~= src_q + (seq![w0->0] + t3));
                    assert(same_number_text(seq!['e'] + t3, seq![w0->0] + t3));
                    lemma_same_concat(text, src_q, seq!['e'] + t3, seq![w0->0] + t3);
                    lemma_number_finish_text(s, p, text.push('e') + t3, q3, true);
                },
                Err(_) => {},
            }
        }
    }
}

/// The text of a float or imaginary token is its literal as the source spells it: the
/// same characters in the same order (an exponent sign as written, `-` included), with
/// the underscores between digits left out, the closing `j` of an imaginary literal left
/// out, and an exponent marker without a sign written `e`.
pub proof fn lemma_number_text(s: Seq<char>, p: nat)
    requires
        p <= s.len(),
    ensures
        spec_lex_number(s, p) matches Some((r, e)) ==> number_text_law(s, p, r, e),
{
    lemma_chars_empty();
    lemma_radix_run_text(s, p, 10);
    lemma_radix_run_bounds(s, p, 10);
    match radix_run(s, p, 10) {
        Err(_) => {},
        Ok((t1, q1)) => {
            lemma_same_refl(t1);
            lemma_number_exponent_text(s, p, t1, q1, false);
            if ch(s, q1 as int) == Some('.') {
                let qd = adv(s, q1);
                lemma_adv(s, q1);
                lemma_step_chars(s, q1);
                lemma_split(s, p as int, q1 as int, qd as int);
                lemma_same_refl(t1.push('.'));
                assert(number_chars(s.subrange(p as int, qd as int)) =~= t1.push('.'));
                lemma_number_exponent_text(s, p, t1.push('.'), qd, true);
                lemma_radix_run_text(s, qd, 10);
                lemma_radix_run_bounds(s, qd, 10);
                match radix_run(s, qd, 10) {
                    Ok((t2, q2)) => {
                        lemma_split(s, p as int, qd as int, q2 as int);
                        assert(number_chars(s.subrange(p as int, q2 as int)) =~= t1.push('.') + t2);
                        lemma_same_refl(t1.push('.') + t2);
                        lemma_number_exponent_text(s, p, t1.push('.') + t2, q2, true);
                    },
                    Err(_) => {},
                }
            }
        },
    }
}

} // verus!

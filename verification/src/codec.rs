//! The JSON codec for the store document and the outbound wire frames:
//! string escaping, decimal numbers, and (in the companion functions built
//! on them) the key → entry document.  The serializer always emits a valid,
//! compact JSON object; the parser reads that form back, and parsing a
//! serialized document recovers it exactly.

use vstd::prelude::*;

verus! {

use crate::strutil::{is_ws, is_ws_char, string_push, str_eq};
use crate::sessions::{CtxModel, DeliveryContext, EntryModel, SessionEntry};
use crate::store::{SessionMap, clamp_time, clamp_time_exec, unique_keys, wf_entry};

// ---------------------------------------------------------------------------
// Characters: digits and hexadecimal digits.
// ---------------------------------------------------------------------------

pub open spec fn is_digit_char(c: char) -> bool {
    48 <= (c as u32) <= 57
}

/// The numeric value of a decimal digit character; 0 elsewhere.
pub open spec fn digit_val(c: char) -> int {
    if is_digit_char(c) {
        (c as u32) - 48
    } else {
        0
    }
}

/// The lowercase hexadecimal digit for a value below 16.
pub open spec fn hex_digit(n: int) -> char {
    if n == 0 { '0' } else if n == 1 { '1' } else if n == 2 { '2' } else if n == 3 { '3' }
    else if n == 4 { '4' } else if n == 5 { '5' } else if n == 6 { '6' } else if n == 7 { '7' }
    else if n == 8 { '8' } else if n == 9 { '9' } else if n == 10 { 'a' } else if n == 11 { 'b' }
    else if n == 12 { 'c' } else if n == 13 { 'd' } else if n == 14 { 'e' } else { 'f' }
}

pub open spec fn is_hex_char(c: char) -> bool {
    is_digit_char(c) || 97 <= (c as u32) <= 102 || 65 <= (c as u32) <= 70
}

/// The value of a hexadecimal digit character; 0 elsewhere.
pub open spec fn hex_val(c: char) -> int {
    if is_digit_char(c) {
        (c as u32) - 48
    } else if 97 <= (c as u32) <= 102 {
        (c as u32) - 87
    } else if 65 <= (c as u32) <= 70 {
        (c as u32) - 55
    } else {
        0
    }
}

pub proof fn lemma_hex_digit_val(n: int)
    requires
        0 <= n < 16,
    ensures
        is_hex_char(hex_digit(n)),
        hex_val(hex_digit(n)) == n,
{
}

pub fn hex_digit_exec(n: u32) -> (c: char)
    requires
        n < 16,
    ensures
        c == hex_digit(n as int),
{
    if n == 0 { '0' } else if n == 1 { '1' } else if n == 2 { '2' } else if n == 3 { '3' }
    else if n == 4 { '4' } else if n == 5 { '5' } else if n == 6 { '6' } else if n == 7 { '7' }
    else if n == 8 { '8' } else if n == 9 { '9' } else if n == 10 { 'a' } else if n == 11 { 'b' }
    else if n == 12 { 'c' } else if n == 13 { 'd' } else if n == 14 { 'e' } else { 'f' }
}

// ---------------------------------------------------------------------------
// JSON string escaping.
// ---------------------------------------------------------------------------

/// How one character is written inside a JSON string: quote and backslash
/// get a backslash escape, control characters a `\u00XX` escape, everything
/// else stands as itself.
pub open spec fn esc_char(c: char) -> Seq<char> {
    if c == '"' {
        seq!['\\', '"']
    } else if c == '\\' {
        seq!['\\', '\\']
    } else if (c as u32) < 32 {
        seq!['\\', 'u', '0', '0', hex_digit(((c as u32) / 16) as int), hex_digit(((c as u32) % 16) as int)]
    } else {
        seq![c]
    }
}

pub open spec fn ser_str_body(s: Seq<char>) -> Seq<char>
    decreases s.len(),
{
    if s.len() == 0 {
        Seq::empty()
    } else {
        esc_char(s[0]) + ser_str_body(s.drop_first())
    }
}

/// A JSON string literal: the escaped body between quotes.
pub open spec fn ser_string(s: Seq<char>) -> Seq<char> {
    seq!['"'] + ser_str_body(s) + seq!['"']
}

pub proof fn lemma_ser_str_body_snoc(s: Seq<char>, c: char)
    ensures
        ser_str_body(s.push(c)) == ser_str_body(s) + esc_char(c),
    decreases s.len(),
{
    if s.len() == 0 {
        assert(s.push(c)[0] == c);
        assert(s.push(c).drop_first() =~= Seq::<char>::empty());
        assert(ser_str_body(s.push(c)) == esc_char(c) + ser_str_body(Seq::<char>::empty()));
        assert(esc_char(c) + Seq::<char>::empty() =~= esc_char(c));
        assert(ser_str_body(s) + esc_char(c) =~= esc_char(c));
    } else {
        lemma_ser_str_body_snoc(s.drop_first(), c);
        assert(s.push(c)[0] == s[0]);
        assert(s.push(c).drop_first() =~= s.drop_first().push(c));
        assert(ser_str_body(s.push(c)) == esc_char(s[0]) + (ser_str_body(s.drop_first())
            + esc_char(c)));
        assert(esc_char(s[0]) + (ser_str_body(s.drop_first()) + esc_char(c)) =~= (esc_char(s[0])
            + ser_str_body(s.drop_first())) + esc_char(c));
    }
}

/// Appends one character's escape to the output.
fn write_esc_char(out: &mut String, c: char)
    ensures
        final(out)@ == old(out)@ + esc_char(c),
{
    if c == '"' {
        string_push(out, '\\');
        string_push(out, '"');
    } else if c == '\\' {
        string_push(out, '\\');
        string_push(out, '\\');
    } else if (c as u32) < 32 {
        let u = c as u32;
        string_push(out, '\\');
        string_push(out, 'u');
        string_push(out, '0');
        string_push(out, '0');
        string_push(out, hex_digit_exec(u / 16));
        string_push(out, hex_digit_exec(u % 16));
    } else {
        string_push(out, c);
    }
    proof {
        assert(final(out)@ =~= old(out)@ + esc_char(c));
    }
}

/// Appends a quoted, escaped JSON string literal to the output.
pub fn write_json_string(out: &mut String, v: &str)
    ensures
        final(out)@ == old(out)@ + ser_string(v@),
{
    string_push(out, '"');
    let n = v.unicode_len();
    let mut k: usize = 0;
    while k < n
        invariant
            n == v@.len(),
            0 <= k <= n,
            out@ == old(out)@ + seq!['"'] + ser_str_body(v@.subrange(0, k as int)),
        decreases n - k,
    {
        let ghost pre = out@;
        let c = v.get_char(k);
        write_esc_char(out, c);
        proof {
            lemma_ser_str_body_snoc(v@.subrange(0, k as int), c);
            assert(v@.subrange(0, k as int).push(c) =~= v@.subrange(0, k + 1 as int));
            assert(out@ =~= old(out)@ + seq!['"'] + ser_str_body(v@.subrange(0, k + 1 as int)));
        }
        k += 1;
    }
    string_push(out, '"');
    proof {
        assert(v@.subrange(0, n as int) =~= v@);
        assert(out@ =~= old(out)@ + ser_string(v@));
    }
}

// ---------------------------------------------------------------------------
// Decimal numbers.
// ---------------------------------------------------------------------------

/// The decimal digits of a non-negative integer, most significant first.
pub open spec fn dec_digits(n: int) -> Seq<char>
    decreases n,
{
    if n < 0 {
        Seq::empty()
    } else if n < 10 {
        seq![hex_digit(n)]
    } else {
        dec_digits(n / 10).push(hex_digit(n % 10))
    }
}

/// A JSON integer: a minus sign for negative values, then decimal digits.
pub open spec fn ser_i64(n: int) -> Seq<char> {
    if n < 0 {
        seq!['-'] + dec_digits(-n)
    } else {
        dec_digits(n)
    }
}

/// The value denoted by a sequence of decimal digits.
pub open spec fn num_of(s: Seq<char>) -> int
    decreases s.len(),
{
    if s.len() == 0 {
        0
    } else {
        num_of(s.drop_last()) * 10 + digit_val(s.last())
    }
}

pub proof fn lemma_num_of_nonneg(s: Seq<char>)
    ensures
        num_of(s) >= 0,
    decreases s.len(),
{
    if s.len() > 0 {
        lemma_num_of_nonneg(s.drop_last());
    }
}

pub proof fn lemma_dec_digits_all_digits(n: int)
    requires
        n >= 0,
    ensures
        dec_digits(n).len() >= 1,
        forall|k: int| 0 <= k < dec_digits(n).len() ==> is_digit_char(#[trigger] dec_digits(n)[k]),
    decreases n,
{
    if n >= 10 {
        lemma_dec_digits_all_digits(n / 10);
    }
}

/// Reading back the decimal digits of n yields n.
pub proof fn lemma_num_of_dec_digits(n: int)
    requires
        n >= 0,
    ensures
        num_of(dec_digits(n)) == n,
    decreases n,
{
    assert(num_of(Seq::<char>::empty()) == 0);
    if n < 10 {
        assert(dec_digits(n) == seq![hex_digit(n)]);
        assert(seq![hex_digit(n)].drop_last() =~= Seq::<char>::empty());
        assert(seq![hex_digit(n)].last() == hex_digit(n));
        assert(digit_val(hex_digit(n)) == n);
    } else {
        lemma_num_of_dec_digits(n / 10);
        assert(dec_digits(n) == dec_digits(n / 10).push(hex_digit(n % 10)));
        assert(dec_digits(n).drop_last() =~= dec_digits(n / 10));
        assert(dec_digits(n).last() == hex_digit(n % 10));
        assert(digit_val(hex_digit(n % 10)) == n % 10);
        assert(n / 10 * 10 + n % 10 == n);
    }
}

/// Extending a digit sequence on the right never shrinks its value.
pub proof fn lemma_num_of_prefix(r: Seq<char>, m: int)
    requires
        0 <= m <= r.len(),
    ensures
        num_of(r) >= num_of(r.subrange(0, m)),
    decreases r.len() - m,
{
    if m == r.len() {
        assert(r.subrange(0, m) =~= r);
    } else {
        lemma_num_of_prefix(r, m + 1);
        let p = r.subrange(0, m + 1);
        assert(p.drop_last() =~= r.subrange(0, m));
        lemma_num_of_nonneg(r.subrange(0, m));
        assert(num_of(p) == num_of(r.subrange(0, m)) * 10 + digit_val(p.last()));
    }
}

/// Appends the decimal digits of an unsigned value to the output.
pub fn write_u64(out: &mut String, n: u64)
    ensures
        final(out)@ == old(out)@ + dec_digits(n as int),
    decreases n,
{
    if n < 10 {
        string_push(out, hex_digit_exec(n as u32));
        proof {
            assert(final(out)@ =~= old(out)@ + dec_digits(n as int));
        }
    } else {
        write_u64(out, n / 10);
        string_push(out, hex_digit_exec((n % 10) as u32));
        proof {
            assert(final(out)@ =~= old(out)@ + dec_digits(n as int));
        }
    }
}

/// Appends a JSON integer to the output.
pub fn write_i64(out: &mut String, n: i64)
    ensures
        final(out)@ == old(out)@ + ser_i64(n as int),
{
    if n >= 0 {
        write_u64(out, n as u64);
    } else {
        string_push(out, '-');
        let mag: u64 = if n == i64::MIN {
            9223372036854775808
        } else {
            (-n) as u64
        };
        write_u64(out, mag);
        proof {
            assert(final(out)@ =~= old(out)@ + ser_i64(n as int));
        }
    }
}

// ---------------------------------------------------------------------------
// Cursor-style parsing: whitespace, strings, numbers.
// ---------------------------------------------------------------------------

/// The first position at or after i holding a non-whitespace character.
pub open spec fn skip_ws_spec(s: Seq<char>, i: int) -> int
    decreases s.len() - i,
{
    if 0 <= i < s.len() && is_ws_char(s[i]) {
        skip_ws_spec(s, i + 1)
    } else {
        i
    }
}

pub proof fn lemma_skip_ws_bounds(s: Seq<char>, i: int)
    requires
        0 <= i <= s.len(),
    ensures
        i <= skip_ws_spec(s, i) <= s.len(),
    decreases s.len() - i,
{
    if i < s.len() && is_ws_char(s[i]) {
        lemma_skip_ws_bounds(s, i + 1);
    }
}

/// A JSON string literal starting exactly at i.
pub open spec fn parse_string_spec(s: Seq<char>, i: int) -> Option<(Seq<char>, int)> {
    if 0 <= i < s.len() && s[i] == '"' {
        parse_str_body_spec(s, i + 1, Seq::empty())
    } else {
        None
    }
}

pub open spec fn parse_str_body_spec(s: Seq<char>, i: int, acc: Seq<char>) -> Option<
    (Seq<char>, int),
>
    decreases s.len() - i,
{
    if i < 0 || i >= s.len() {
        None
    } else if s[i] == '"' {
        Some((acc, i + 1))
    } else if s[i] == '\\' {
        if i + 1 >= s.len() {
            None
        } else {
            let e = s[i + 1];
            if e == '"' {
                parse_str_body_spec(s, i + 2, acc.push('"'))
            } else if e == '\\' {
                parse_str_body_spec(s, i + 2, acc.push('\\'))
            } else if e == '/' {
                parse_str_body_spec(s, i + 2, acc.push('/'))
            } else if e == 'b' {
                parse_str_body_spec(s, i + 2, acc.push('\u{8}'))
            } else if e == 'f' {
                parse_str_body_spec(s, i + 2, acc.push('\u{c}'))
            } else if e == 'n' {
                parse_str_body_spec(s, i + 2, acc.push('\n'))
            } else if e == 'r' {
                parse_str_body_spec(s, i + 2, acc.push('\r'))
            } else if e == 't' {
                parse_str_body_spec(s, i + 2, acc.push('\t'))
            } else if e == 'u' {
                if i + 6 > s.len() {
                    None
                } else if is_hex_char(s[i + 2]) && is_hex_char(s[i + 3]) && is_hex_char(s[i + 4])
                    && is_hex_char(s[i + 5]) {
                    let v = hex_val(s[i + 2]) * 4096 + hex_val(s[i + 3]) * 256 + hex_val(s[i + 4])
                        * 16 + hex_val(s[i + 5]);
                    if v < 0xD800 || v >= 0xE000 {
                        parse_str_body_spec(s, i + 6, acc.push(((v as u32) as char)))
                    } else {
                        None
                    }
                } else {
                    None
                }
            } else {
                None
            }
        }
    } else {
        parse_str_body_spec(s, i + 1, acc.push(s[i]))
    }
}

pub proof fn lemma_parse_str_body_bounds(s: Seq<char>, i: int, acc: Seq<char>)
    ensures
        parse_str_body_spec(s, i, acc) matches Some(p) ==> i < p.1 <= s.len(),
    decreases s.len() - i,
{
    if 0 <= i < s.len() {
        if s[i] == '"' {
        } else if s[i] == '\\' {
            if i + 1 < s.len() {
                let e = s[i + 1];
                if e == 'u' {
                    if i + 6 <= s.len() && is_hex_char(s[i + 2]) && is_hex_char(s[i + 3])
                        && is_hex_char(s[i + 4]) && is_hex_char(s[i + 5]) {
                        let v = hex_val(s[i + 2]) * 4096 + hex_val(s[i + 3]) * 256 + hex_val(
                            s[i + 4],
                        ) * 16 + hex_val(s[i + 5]);
                        if v < 0xD800 || v >= 0xE000 {
                            lemma_parse_str_body_bounds(s, i + 6, acc.push(((v as u32) as char)));
                        }
                    }
                } else {
                    lemma_parse_str_body_bounds(s, i + 2, acc.push('"'));
                    lemma_parse_str_body_bounds(s, i + 2, acc.push('\\'));
                    lemma_parse_str_body_bounds(s, i + 2, acc.push('/'));
                    lemma_parse_str_body_bounds(s, i + 2, acc.push('\u{8}'));
                    lemma_parse_str_body_bounds(s, i + 2, acc.push('\u{c}'));
                    lemma_parse_str_body_bounds(s, i + 2, acc.push('\n'));
                    lemma_parse_str_body_bounds(s, i + 2, acc.push('\r'));
                    lemma_parse_str_body_bounds(s, i + 2, acc.push('\t'));
                }
            }
        } else {
            lemma_parse_str_body_bounds(s, i + 1, acc.push(s[i]));
        }
    }
}

pub proof fn lemma_parse_string_bounds(s: Seq<char>, i: int)
    ensures
        parse_string_spec(s, i) matches Some(p) ==> i < p.1 <= s.len(),
{
    if 0 <= i < s.len() && s[i] == '"' {
        lemma_parse_str_body_bounds(s, i + 1, Seq::empty());
    }
}

/// The end of the run of decimal digits starting at i.
pub open spec fn digit_run_end(s: Seq<char>, i: int) -> int
    decreases s.len() - i,
{
    if 0 <= i < s.len() && is_digit_char(s[i]) {
        digit_run_end(s, i + 1)
    } else {
        i
    }
}

pub proof fn lemma_digit_run_bounds(s: Seq<char>, i: int)
    requires
        0 <= i <= s.len(),
    ensures
        i <= digit_run_end(s, i) <= s.len(),
        forall|k: int| i <= k < digit_run_end(s, i) ==> is_digit_char(s[k]),
        digit_run_end(s, i) < s.len() ==> !is_digit_char(s[digit_run_end(s, i)]),
    decreases s.len() - i,
{
    if i < s.len() && is_digit_char(s[i]) {
        lemma_digit_run_bounds(s, i + 1);
    }
}

/// An unsigned decimal number starting exactly at i: its digit run, when
/// non-empty and within the i64 range.
pub open spec fn parse_num_core_spec(s: Seq<char>, i: int) -> Option<(int, int)> {
    let j = digit_run_end(s, i);
    if j == i {
        None
    } else {
        let v = num_of(s.subrange(i, j));
        if v <= 0x7fff_ffff_ffff_ffff {
            Some((v, j))
        } else {
            None
        }
    }
}

/// A JSON integer starting exactly at i, with an optional minus sign.
pub open spec fn parse_num_spec(s: Seq<char>, i: int) -> Option<(int, int)> {
    if 0 <= i < s.len() && s[i] == '-' {
        match parse_num_core_spec(s, i + 1) {
            Some(p) => Some((-p.0, p.1)),
            None => None,
        }
    } else {
        parse_num_core_spec(s, i)
    }
}

// ---------------------------------------------------------------------------
// Fragment placement, and the inversion lemmas for strings and numbers.
// ---------------------------------------------------------------------------

/// The fragment occupies s starting at i.
pub open spec fn frag_at(s: Seq<char>, i: int, frag: Seq<char>) -> bool {
    &&& 0 <= i
    &&& i + frag.len() <= s.len()
    &&& s.subrange(i, i + frag.len()) == frag
}

pub proof fn lemma_frag_index(s: Seq<char>, i: int, frag: Seq<char>, k: int)
    requires
        frag_at(s, i, frag),
        0 <= k < frag.len(),
    ensures
        s[i + k] == frag[k],
{
    assert(s.subrange(i, i + frag.len())[k] == frag[k]);
}

pub proof fn lemma_frag_concat(s: Seq<char>, i: int, a: Seq<char>, b: Seq<char>)
    requires
        frag_at(s, i, a + b),
    ensures
        frag_at(s, i, a),
        frag_at(s, i + a.len(), b),
{
    assert(s.subrange(i, i + a.len()) =~= (a + b).subrange(0, a.len() as int));
    assert((a + b).subrange(0, a.len() as int) =~= a);
    assert(s.subrange(i + a.len(), i + a.len() + b.len()) =~= (a + b).subrange(
        a.len() as int,
        (a + b).len() as int,
    ));
    assert((a + b).subrange(a.len() as int, (a + b).len() as int) =~= b);
}

/// Parsing a serialized string body (with its closing quote) recovers the
/// original characters.
pub proof fn lemma_parse_str_body_inv(s: Seq<char>, i: int, orig: Seq<char>, acc: Seq<char>)
    requires
        frag_at(s, i, ser_str_body(orig) + seq!['"']),
    ensures
        parse_str_body_spec(s, i, acc) == Some(
            (acc + orig, i + ser_str_body(orig).len() + 1),
        ),
    decreases orig.len(),
{
    if orig.len() == 0 {
        lemma_frag_index(s, i, ser_str_body(orig) + seq!['"'], 0);
        assert(s[i] == '"');
        assert(acc + orig =~= acc);
    } else {
        let c = orig[0];
        let rest = orig.drop_first();
        assert(ser_str_body(orig) == esc_char(c) + ser_str_body(rest));
        assert((esc_char(c) + ser_str_body(rest)) + seq!['"'] =~= esc_char(c) + (ser_str_body(rest)
            + seq!['"']));
        lemma_frag_concat(s, i, esc_char(c), ser_str_body(rest) + seq!['"']);
        let e = esc_char(c);
        let j = i + e.len();
        assert(orig =~= seq![c] + rest);
        if c == '"' {
            lemma_frag_index(s, i, e, 0);
            lemma_frag_index(s, i, e, 1);
            lemma_parse_str_body_inv(s, j, rest, acc.push(c));
            assert(acc.push(c) + rest =~= acc + orig);
        } else if c == '\\' {
            lemma_frag_index(s, i, e, 0);
            lemma_frag_index(s, i, e, 1);
            lemma_parse_str_body_inv(s, j, rest, acc.push(c));
            assert(acc.push(c) + rest =~= acc + orig);
        } else if (c as u32) < 32 {
            lemma_frag_index(s, i, e, 0);
            lemma_frag_index(s, i, e, 1);
            lemma_frag_index(s, i, e, 2);
            lemma_frag_index(s, i, e, 3);
            lemma_frag_index(s, i, e, 4);
            lemma_frag_index(s, i, e, 5);
            let u = c as u32;
            lemma_hex_digit_val((u / 16) as int);
            lemma_hex_digit_val((u % 16) as int);
            let v = hex_val(s[i + 2]) * 4096 + hex_val(s[i + 3]) * 256 + hex_val(s[i + 4]) * 16
                + hex_val(s[i + 5]);
            assert(v == u);
            assert(((v as u32) as char) == c) by {
                vstd::utf8::char_u32_cast(c, u);
            }
            lemma_parse_str_body_inv(s, j, rest, acc.push(c));
            assert(acc.push(c) + rest =~= acc + orig);
        } else {
            lemma_frag_index(s, i, e, 0);
            assert(s[i] == c);
            lemma_parse_str_body_inv(s, j, rest, acc.push(c));
            assert(acc.push(c) + rest =~= acc + orig);
        }
    }
}

/// Parsing a serialized string literal recovers the original characters.
pub proof fn lemma_parse_string_inv(s: Seq<char>, i: int, orig: Seq<char>)
    requires
        frag_at(s, i, ser_string(orig)),
    ensures
        parse_string_spec(s, i) == Some((orig, i + ser_string(orig).len())),
{
    assert(ser_string(orig) =~= seq!['"'] + (ser_str_body(orig) + seq!['"']));
    lemma_frag_concat(s, i, seq!['"'], ser_str_body(orig) + seq!['"']);
    lemma_frag_index(s, i, seq!['"'], 0);
    lemma_parse_str_body_inv(s, i + 1, orig, Seq::empty());
    assert(Seq::empty() + orig =~= orig);
}

/// Parsing a serialized non-negative number recovers it, provided no digit
/// follows the fragment.
pub proof fn lemma_parse_num_inv(s: Seq<char>, i: int, n: int)
    requires
        0 <= n <= 0x7fff_ffff_ffff_ffff,
        frag_at(s, i, dec_digits(n)),
        i + dec_digits(n).len() == s.len() || !is_digit_char(s[i + dec_digits(n).len()]),
    ensures
        parse_num_spec(s, i) == Some((n, i + dec_digits(n).len())),
{
    let d = dec_digits(n);
    lemma_dec_digits_all_digits(n);
    let e = i + d.len();
    assert(forall|k: int| i <= k < e ==> is_digit_char(s[k])) by {
        assert(forall|k: int| i <= k < e ==> s[k] == d[k - i]) by {
            assert(forall|k: int| i <= k < e ==> s.subrange(i, e)[k - i] == s[k]);
        }
    }
    lemma_digit_run_to(s, i, e);
    assert(s.subrange(i, e) == d);
    lemma_num_of_dec_digits(n);
    lemma_frag_index(s, i, d, 0);
    assert(s[i] != '-');
    assert(parse_num_core_spec(s, i) == Some((n, e)));
}

/// If everything from i to e is a digit and e sits on a boundary, the digit
/// run from i ends at e.
pub proof fn lemma_digit_run_to(s: Seq<char>, i: int, e: int)
    requires
        0 <= i <= e <= s.len(),
        forall|k: int| i <= k < e ==> is_digit_char(s[k]),
        e == s.len() || !is_digit_char(s[e]),
    ensures
        digit_run_end(s, i) == e,
    decreases e - i,
{
    if i < e {
        lemma_digit_run_to(s, i + 1, e);
    }
}

// ---------------------------------------------------------------------------
// Executable parsers for whitespace, strings, and numbers.
// ---------------------------------------------------------------------------

pub fn is_digit_exec(c: char) -> (b: bool)
    ensures
        b == is_digit_char(c),
{
    let u = c as u32;
    48 <= u && u <= 57
}

/// Skips whitespace from i.
pub fn p_skip_ws(s: &str, i: usize) -> (r: usize)
    requires
        i <= s@.len(),
    ensures
        r as int == skip_ws_spec(s@, i as int),
        i <= r <= s@.len(),
{
    let n = s.unicode_len();
    let mut j = i;
    while j < n && is_ws(s.get_char(j))
        invariant
            n == s@.len(),
            i <= j <= n,
            skip_ws_spec(s@, i as int) == skip_ws_spec(s@, j as int),
        decreases n - j,
    {
        j += 1;
    }
    j
}

/// Parses a JSON string literal starting exactly at i.
pub fn p_string(s: &str, i: usize) -> (r: Option<(String, usize)>)
    requires
        i <= s@.len(),
    ensures
        match r {
            Some(p) => {
                &&& parse_string_spec(s@, i as int) == Some((p.0@, p.1 as int))
                &&& i < p.1 <= s@.len()
            },
            None => parse_string_spec(s@, i as int) is None,
        },
{
    let n = s.unicode_len();
    if i >= n {
        return None;
    }
    if s.get_char(i) != '"' {
        return None;
    }
    let mut acc = String::new();
    let mut j = i + 1;
    loop
        invariant
            n == s@.len(),
            i + 1 <= j <= n,
            parse_str_body_spec(s@, (i + 1) as int, Seq::empty()) == parse_str_body_spec(
                s@,
                j as int,
                acc@,
            ),
            s@[i as int] == '"',
        decreases n - j,
    {
        if j >= n {
            return None;
        }
        let c = s.get_char(j);
        if c == '"' {
            return Some((acc, j + 1));
        }
        if c == '\\' {
            if j + 1 >= n {
                return None;
            }
            let e = s.get_char(j + 1);
            if e == '"' {
                string_push(&mut acc, '"');
            } else if e == '\\' {
                string_push(&mut acc, '\\');
            } else if e == '/' {
                string_push(&mut acc, '/');
            } else if e == 'b' {
                string_push(&mut acc, '\u{8}');
            } else if e == 'f' {
                string_push(&mut acc, '\u{c}');
            } else if e == 'n' {
                string_push(&mut acc, '\n');
            } else if e == 'r' {
                string_push(&mut acc, '\r');
            } else if e == 't' {
                string_push(&mut acc, '\t');
            } else if e == 'u' {
                if n - j < 6 {
                    return None;
                }
                let h1 = s.get_char(j + 2);
                let h2 = s.get_char(j + 3);
                let h3 = s.get_char(j + 4);
                let h4 = s.get_char(j + 5);
                if !(is_hex_exec(h1) && is_hex_exec(h2) && is_hex_exec(h3) && is_hex_exec(h4)) {
                    return None;
                }
                let v: u32 = hex_val_exec(h1) * 4096 + hex_val_exec(h2) * 256 + hex_val_exec(h3)
                    * 16 + hex_val_exec(h4);
                proof {
                    assert(v <= 0xFFFF);
                }
                match char_from_code(v) {
                    Some(esc) => {
                        proof {
                            vstd::utf8::char_u32_cast(esc, v);
                        }
                        string_push(&mut acc, esc);
                    },
                    None => {
                        return None;
                    },
                }
                j += 6;
                continue;
            } else {
                return None;
            }
            j += 2;
        } else {
            string_push(&mut acc, c);
            j += 1;
        }
    }
}

/// Relies on `char::from_u32`: `Some` exactly for Unicode scalar values
/// (everything up to the maximum code point except the surrogate range),
/// carrying that value.
#[verifier::external_body]
fn char_from_code(v: u32) -> (r: Option<char>)
    ensures
        r is Some <==> (v < 0xD800 || (0xE000 <= v && v <= 0x10FFFF)),
        r matches Some(c) ==> c as u32 == v,
{
    char::from_u32(v)
}

pub fn is_hex_exec(c: char) -> (b: bool)
    ensures
        b == is_hex_char(c),
{
    let u = c as u32;
    (48 <= u && u <= 57) || (97 <= u && u <= 102) || (65 <= u && u <= 70)
}

pub fn hex_val_exec(c: char) -> (v: u32)
    ensures
        v as int == hex_val(c),
        v < 16,
{
    let u = c as u32;
    if 48 <= u && u <= 57 {
        u - 48
    } else if 97 <= u && u <= 102 {
        u - 87
    } else if 65 <= u && u <= 70 {
        u - 55
    } else {
        0
    }
}

/// Parses a JSON integer starting exactly at i.
pub fn p_num(s: &str, i: usize) -> (r: Option<(i64, usize)>)
    requires
        i <= s@.len(),
    ensures
        match r {
            Some(p) => {
                &&& parse_num_spec(s@, i as int) == Some((p.0 as int, p.1 as int))
                &&& i < p.1 <= s@.len()
            },
            None => parse_num_spec(s@, i as int) is None,
        },
{
    let n = s.unicode_len();
    if i >= n {
        proof {
            lemma_digit_run_bounds(s@, i as int);
        }
        return None;
    }
    let neg = s.get_char(i) == '-';
    let start = if neg {
        i + 1
    } else {
        i
    };
    if start > n {
        return None;
    }
    let mut j = start;
    let mut acc: i64 = 0;
    while j < n && is_digit_exec(s.get_char(j))
        invariant
            n == s@.len(),
            i < n,
            start <= j <= n,
            neg == (s@[i as int] == '-'),
            start as int == (if neg { i as int + 1 } else { i as int }),
            0 <= acc,
            acc as int == num_of(s@.subrange(start as int, j as int)),
            digit_run_end(s@, start as int) == digit_run_end(s@, j as int),
            forall|k: int| start <= k < j ==> is_digit_char(s@[k]),
        decreases n - j,
    {
        let c = s.get_char(j);
        let d = (c as u32 - 48) as i64;
        proof {
            assert(d as int == digit_val(c));
        }
        if acc > (9223372036854775807i64 - d) / 10 {
            proof {
                let ghost e = digit_run_end(s@, start as int);
                lemma_digit_run_bounds(s@, j as int);
                lemma_digit_run_bounds(s@, (j + 1) as int);
                assert(digit_run_end(s@, j as int) == digit_run_end(s@, (j + 1) as int));
                assert(j + 1 <= e);
                let run = s@.subrange(start as int, e);
                assert(s@.subrange(start as int, j + 1 as int).drop_last() =~= s@.subrange(
                    start as int,
                    j as int,
                ));
                assert(s@.subrange(start as int, j + 1 as int).last() == s@[j as int]);
                assert(num_of(s@.subrange(start as int, j + 1 as int)) == acc as int * 10
                    + digit_val(c));
                assert(acc as int * 10 + digit_val(c) > 0x7fff_ffff_ffff_ffff);
                assert(s@.subrange(start as int, j + 1 as int) =~= run.subrange(
                    0,
                    j + 1 - start as int,
                ));
                lemma_num_of_prefix(run, j + 1 - start);
                assert(num_of(run) > 0x7fff_ffff_ffff_ffff);
                assert(parse_num_core_spec(s@, start as int) is None);
            }
            return None;
        }
        acc = acc * 10 + d;
        proof {
            assert(s@.subrange(start as int, j + 1 as int).drop_last() =~= s@.subrange(
                start as int,
                j as int,
            ));
            assert(s@.subrange(start as int, j + 1 as int).last() == s@[j as int]);
        }
        j += 1;
    }
    proof {
        assert(digit_run_end(s@, j as int) == j);
        lemma_num_of_nonneg(s@.subrange(start as int, j as int));
    }
    if j == start {
        return None;
    }
    if neg {
        Some((-acc, j))
    } else {
        Some((acc, j))
    }
}

// ---------------------------------------------------------------------------
// Field lists: shared serialization shape for JSON objects.
// ---------------------------------------------------------------------------

pub open spec fn ser_sfield(f: (Seq<char>, Seq<char>)) -> Seq<char> {
    ser_string(f.0) + seq![':'] + ser_string(f.1)
}

pub open spec fn ser_sfields_rest(l: Seq<(Seq<char>, Seq<char>)>) -> Seq<char>
    decreases l.len(),
{
    if l.len() == 0 {
        Seq::empty()
    } else {
        seq![','] + ser_sfield(l[0]) + ser_sfields_rest(l.drop_first())
    }
}

pub open spec fn ser_sfields(l: Seq<(Seq<char>, Seq<char>)>) -> Seq<char> {
    if l.len() == 0 {
        Seq::empty()
    } else {
        ser_sfield(l[0]) + ser_sfields_rest(l.drop_first())
    }
}

pub proof fn lemma_ser_sfields_rest_snoc(l: Seq<(Seq<char>, Seq<char>)>, f: (Seq<char>, Seq<char>))
    ensures
        ser_sfields_rest(l.push(f)) == ser_sfields_rest(l) + seq![','] + ser_sfield(f),
    decreases l.len(),
{
    if l.len() == 0 {
        assert(l.push(f)[0] == f);
        assert(l.push(f).drop_first() =~= Seq::<(Seq<char>, Seq<char>)>::empty());
        assert(ser_sfields_rest(Seq::<(Seq<char>, Seq<char>)>::empty())
            == Seq::<char>::empty());
        assert(ser_sfields_rest(l.push(f)) == seq![','] + ser_sfield(f)
            + Seq::<char>::empty());
        assert(ser_sfields_rest(l) == Seq::<char>::empty());
        assert(ser_sfields_rest(l.push(f)) =~= ser_sfields_rest(l) + seq![','] + ser_sfield(f));
    } else {
        lemma_ser_sfields_rest_snoc(l.drop_first(), f);
        assert(l.push(f)[0] == l[0]);
        assert(l.push(f).drop_first() =~= l.drop_first().push(f));
        assert(ser_sfields_rest(l.push(f)) == seq![','] + ser_sfield(l[0]) + ser_sfields_rest(
            l.drop_first().push(f),
        ));
        assert(ser_sfields_rest(l.push(f)) =~= ser_sfields_rest(l) + seq![','] + ser_sfield(f));
    }
}

pub proof fn lemma_ser_sfields_snoc(l: Seq<(Seq<char>, Seq<char>)>, f: (Seq<char>, Seq<char>))
    ensures
        l.len() == 0 ==> ser_sfields(l.push(f)) == ser_sfield(f),
        l.len() > 0 ==> ser_sfields(l.push(f)) == ser_sfields(l) + seq![','] + ser_sfield(f),
{
    if l.len() == 0 {
        assert(l.push(f)[0] == f);
        assert(l.push(f).drop_first() =~= Seq::<(Seq<char>, Seq<char>)>::empty());
        assert(ser_sfields(l.push(f)) =~= ser_sfield(f));
    } else {
        lemma_ser_sfields_rest_snoc(l.drop_first(), f);
        assert(l.push(f)[0] == l[0]);
        assert(l.push(f).drop_first() =~= l.drop_first().push(f));
        assert(ser_sfields(l.push(f)) =~= ser_sfields(l) + seq![','] + ser_sfield(f));
    }
}

// ---------------------------------------------------------------------------
// The delivery-context object.
// ---------------------------------------------------------------------------

pub open spec fn opt_sfield(name: Seq<char>, v: Option<Seq<char>>) -> Seq<(Seq<char>, Seq<char>)> {
    match v {
        Some(x) => seq![(name, x)],
        None => Seq::empty(),
    }
}

/// The fields a delivery context serializes to, present ones only.
pub open spec fn ctx_fields(c: CtxModel) -> Seq<(Seq<char>, Seq<char>)> {
    opt_sfield("channel"@, c.channel) + opt_sfield("to"@, c.to) + opt_sfield(
        "accountId"@,
        c.account_id,
    ) + opt_sfield("threadId"@, c.thread_id)
}

/// A serialized delivery context: its present fields between braces.
pub open spec fn ser_ctx(c: CtxModel) -> Seq<char> {
    seq!['{'] + ser_sfields(ctx_fields(c)) + seq!['}']
}

pub open spec fn empty_ctx() -> CtxModel {
    CtxModel { channel: None, to: None, account_id: None, thread_id: None }
}

/// How one parsed string field lands in a context; unknown names are
/// ignored.
pub open spec fn apply_ctx_field(acc: CtxModel, name: Seq<char>, value: Seq<char>) -> CtxModel {
    if name == "channel"@ {
        CtxModel { channel: Some(value), to: acc.to, account_id: acc.account_id, thread_id: acc.thread_id }
    } else if name == "to"@ {
        CtxModel { channel: acc.channel, to: Some(value), account_id: acc.account_id, thread_id: acc.thread_id }
    } else if name == "accountId"@ {
        CtxModel { channel: acc.channel, to: acc.to, account_id: Some(value), thread_id: acc.thread_id }
    } else if name == "threadId"@ {
        CtxModel { channel: acc.channel, to: acc.to, account_id: acc.account_id, thread_id: Some(value) }
    } else {
        acc
    }
}

pub open spec fn apply_sfields(acc: CtxModel, l: Seq<(Seq<char>, Seq<char>)>) -> CtxModel
    decreases l.len(),
{
    if l.len() == 0 {
        acc
    } else {
        apply_sfields(apply_ctx_field(acc, l[0].0, l[0].1), l.drop_first())
    }
}

/// A context object starting exactly at i.
pub open spec fn parse_ctx_spec(s: Seq<char>, i: int) -> Option<(CtxModel, int)> {
    if 0 <= i < s.len() && s[i] == '{' {
        let j = skip_ws_spec(s, i + 1);
        if j < s.len() && s[j] == '}' {
            Some((empty_ctx(), j + 1))
        } else {
            parse_ctx_fields_spec(s, j, empty_ctx())
        }
    } else {
        None
    }
}

pub open spec fn parse_ctx_fields_spec(s: Seq<char>, i: int, acc: CtxModel) -> Option<
    (CtxModel, int),
>
    decreases s.len() - i,
    via parse_ctx_fields_dec
{
    match parse_string_spec(s, i) {
        Some(nk) => {
            let j = skip_ws_spec(s, nk.1);
            if j < s.len() && s[j] == ':' {
                let k = skip_ws_spec(s, j + 1);
                match parse_string_spec(s, k) {
                    Some(vv) => {
                        let acc2 = apply_ctx_field(acc, nk.0, vv.0);
                        let m = skip_ws_spec(s, vv.1);
                        if m < s.len() && s[m] == ',' {
                            let m2 = skip_ws_spec(s, m + 1);
                            parse_ctx_fields_spec(s, m2, acc2)
                        } else if m < s.len() && s[m] == '}' {
                            Some((acc2, m + 1))
                        } else {
                            None
                        }
                    },
                    None => None,
                }
            } else {
                None
            }
        },
        None => None,
    }
}

#[via_fn]
proof fn parse_ctx_fields_dec(s: Seq<char>, i: int, acc: CtxModel) {
    lemma_parse_string_bounds(s, i);
    match parse_string_spec(s, i) {
        Some(nk) => {
            lemma_skip_ws_bounds(s, nk.1);
            let j = skip_ws_spec(s, nk.1);
            if j < s.len() && s[j] == ':' {
                lemma_skip_ws_bounds(s, j + 1);
                let k = skip_ws_spec(s, j + 1);
                lemma_parse_string_bounds(s, k);
                match parse_string_spec(s, k) {
                    Some(vv) => {
                        lemma_skip_ws_bounds(s, vv.1);
                        let m = skip_ws_spec(s, vv.1);
                        if m < s.len() && s[m] == ',' {
                            lemma_skip_ws_bounds(s, m + 1);
                        }
                    },
                    None => {},
                }
            }
        },
        None => {},
    }
}

pub proof fn lemma_parse_ctx_fields_bounds(s: Seq<char>, i: int, acc: CtxModel)
    requires
        0 <= i,
    ensures
        parse_ctx_fields_spec(s, i, acc) matches Some(p) ==> i < p.1 <= s.len(),
    decreases s.len() - i,
{
    lemma_parse_string_bounds(s, i);
    match parse_string_spec(s, i) {
        Some(nk) => {
            lemma_skip_ws_bounds(s, nk.1);
            let j = skip_ws_spec(s, nk.1);
            if j < s.len() && s[j] == ':' {
                lemma_skip_ws_bounds(s, j + 1);
                let k = skip_ws_spec(s, j + 1);
                lemma_parse_string_bounds(s, k);
                match parse_string_spec(s, k) {
                    Some(vv) => {
                        let acc2 = apply_ctx_field(acc, nk.0, vv.0);
                        lemma_skip_ws_bounds(s, vv.1);
                        let m = skip_ws_spec(s, vv.1);
                        if m < s.len() && s[m] == ',' {
                            lemma_skip_ws_bounds(s, m + 1);
                            let m2 = skip_ws_spec(s, m + 1);
                            lemma_parse_ctx_fields_bounds(s, m2, acc2);
                        }
                    },
                    None => {},
                }
            }
        },
        None => {},
    }
}

pub proof fn lemma_parse_ctx_bounds(s: Seq<char>, i: int)
    ensures
        parse_ctx_spec(s, i) matches Some(p) ==> i < p.1 <= s.len(),
{
    if 0 <= i < s.len() && s[i] == '{' {
        lemma_skip_ws_bounds(s, i + 1);
        let j = skip_ws_spec(s, i + 1);
        if j < s.len() && s[j] == '}' {
        } else {
            lemma_parse_ctx_fields_bounds(s, j, empty_ctx());
        }
    }
}

/// Parsing a serialized field list (with its closing brace) applies exactly
/// those fields.
pub proof fn lemma_parse_sfields_inv(
    s: Seq<char>,
    i: int,
    l: Seq<(Seq<char>, Seq<char>)>,
    acc: CtxModel,
)
    requires
        l.len() >= 1,
        frag_at(s, i, ser_sfields(l) + seq!['}']),
    ensures
        parse_ctx_fields_spec(s, i, acc) == Some(
            (apply_sfields(acc, l), i + ser_sfields(l).len() + 1),
        ),
    decreases l.len(),
{
    let f = l[0];
    let rest = l.drop_first();
    let f0 = ser_string(f.0);
    let f2 = ser_string(f.1);
    if rest.len() == 0 {
        assert(ser_sfields(l) + seq!['}'] =~= f0 + (seq![':'] + (f2 + seq!['}'])));
        lemma_frag_concat(s, i, f0, seq![':'] + (f2 + seq!['}']));
        lemma_frag_concat(s, i + f0.len(), seq![':'], f2 + seq!['}']);
        lemma_frag_concat(s, i + f0.len() + 1, f2, seq!['}']);
        lemma_parse_string_inv(s, i, f.0);
        let i1 = i + f0.len();
        lemma_frag_index(s, i1, seq![':'], 0);
        assert(skip_ws_spec(s, i1) == i1);
        let k = i1 + 1;
        lemma_parse_string_inv(s, k, f.1);
        let m = k + f2.len();
        lemma_frag_index(s, m, seq!['}'], 0);
        assert(skip_ws_spec(s, m) == m);
        assert(apply_sfields(acc, l) == apply_ctx_field(acc, f.0, f.1)) by {
            assert(apply_sfields(apply_ctx_field(acc, f.0, f.1), rest) == apply_ctx_field(
                acc,
                f.0,
                f.1,
            ));
        }
    } else {
        assert(ser_sfields_rest(rest) == seq![','] + ser_sfield(rest[0]) + ser_sfields_rest(
            rest.drop_first(),
        ));
        assert(ser_sfields(l) + seq!['}'] =~= f0 + (seq![':'] + (f2 + (seq![','] + (ser_sfields(
            rest,
        ) + seq!['}'])))));
        lemma_frag_concat(s, i, f0, seq![':'] + (f2 + (seq![','] + (ser_sfields(rest) + seq!['}']))));
        lemma_frag_concat(s, i + f0.len(), seq![':'], f2 + (seq![','] + (ser_sfields(rest)
            + seq!['}'])));
        lemma_frag_concat(s, i + f0.len() + 1, f2, seq![','] + (ser_sfields(rest) + seq!['}']));
        lemma_frag_concat(s, i + f0.len() + 1 + f2.len(), seq![','], ser_sfields(rest)
            + seq!['}']);
        lemma_parse_string_inv(s, i, f.0);
        let i1 = i + f0.len();
        lemma_frag_index(s, i1, seq![':'], 0);
        assert(skip_ws_spec(s, i1) == i1);
        let k = i1 + 1;
        lemma_parse_string_inv(s, k, f.1);
        let m = k + f2.len();
        lemma_frag_index(s, m, seq![','], 0);
        assert(skip_ws_spec(s, m) == m);
        let m2 = m + 1;
        assert(ser_sfields(rest)[0] == '"') by {
            assert(ser_sfields(rest) == ser_sfield(rest[0]) + ser_sfields_rest(
                rest.drop_first(),
            ));
            assert(ser_string(rest[0].0)[0] == '"');
        }
        assert(frag_at(s, m2, ser_sfields(rest) + seq!['}']));
        lemma_frag_index(s, m2, ser_sfields(rest) + seq!['}'], 0);
        assert(s[m2] == '"');
        assert(skip_ws_spec(s, m2) == m2);
        lemma_parse_sfields_inv(s, m2, rest, apply_ctx_field(acc, f.0, f.1));
    }
}

pub proof fn lemma_apply_sfields_append(
    acc: CtxModel,
    a: Seq<(Seq<char>, Seq<char>)>,
    b: Seq<(Seq<char>, Seq<char>)>,
)
    ensures
        apply_sfields(acc, a + b) == apply_sfields(apply_sfields(acc, a), b),
    decreases a.len(),
{
    if a.len() == 0 {
        assert(a + b =~= b);
    } else {
        assert((a + b)[0] == a[0]);
        assert((a + b).drop_first() =~= a.drop_first() + b);
        lemma_apply_sfields_append(apply_ctx_field(acc, a[0].0, a[0].1), a.drop_first(), b);
    }
}

proof fn lemma_apply_one(acc: CtxModel, name: Seq<char>, x: Seq<char>)
    ensures
        apply_sfields(acc, seq![(name, x)]) == apply_ctx_field(acc, name, x),
{
    let l = seq![(name, x)];
    let acc2 = apply_ctx_field(acc, name, x);
    assert(l.len() == 1);
    assert(l[0] == (name, x));
    assert(l[0].0 == name && l[0].1 == x);
    assert(l.drop_first() =~= Seq::<(Seq<char>, Seq<char>)>::empty());
    assert(apply_sfields(acc2, Seq::<(Seq<char>, Seq<char>)>::empty()) == acc2);
    assert(apply_sfields(acc, l) == apply_sfields(apply_ctx_field(acc, l[0].0, l[0].1),
        l.drop_first()));
}

proof fn lemma_apply_opt(acc: CtxModel, name: Seq<char>, v: Option<Seq<char>>)
    ensures
        v is Some ==> apply_sfields(acc, opt_sfield(name, v)) == apply_ctx_field(
            acc,
            name,
            v->Some_0,
        ),
        v is None ==> apply_sfields(acc, opt_sfield(name, v)) == acc,
{
    match v {
        Some(x) => {
            lemma_apply_one(acc, name, x);
        },
        None => {},
    }
}

/// Replaying a context's own serialized fields onto an empty context
/// rebuilds it.
pub proof fn lemma_ctx_reconstruct(c: CtxModel)
    ensures
        apply_sfields(empty_ctx(), ctx_fields(c)) == c,
{
    let l1 = opt_sfield("channel"@, c.channel);
    let l2 = opt_sfield("to"@, c.to);
    let l3 = opt_sfield("accountId"@, c.account_id);
    let l4 = opt_sfield("threadId"@, c.thread_id);
    lemma_apply_sfields_append(empty_ctx(), l1, l2 + l3 + l4);
    let a1 = apply_sfields(empty_ctx(), l1);
    lemma_apply_sfields_append(a1, l2, l3 + l4);
    let a2 = apply_sfields(a1, l2);
    lemma_apply_sfields_append(a2, l3, l4);
    let a3 = apply_sfields(a2, l3);
    let a4 = apply_sfields(a3, l4);
    assert(ctx_fields(c) =~= l1 + (l2 + l3 + l4));
    assert(l2 + l3 + l4 =~= l2 + (l3 + l4));
    assert(apply_sfields(empty_ctx(), ctx_fields(c)) == a4);
    reveal_strlit("channel");
    reveal_strlit("to");
    reveal_strlit("accountId");
    reveal_strlit("threadId");
    assert("channel"@.len() == 7);
    assert("to"@.len() == 2);
    assert("accountId"@.len() == 9);
    assert("threadId"@.len() == 8);
    assert("to"@ != "channel"@);
    assert("accountId"@ != "channel"@ && "accountId"@ != "to"@);
    assert("threadId"@ != "channel"@ && "threadId"@ != "to"@ && "threadId"@ != "accountId"@);
    lemma_apply_opt(empty_ctx(), "channel"@, c.channel);
    lemma_apply_opt(a1, "to"@, c.to);
    lemma_apply_opt(a2, "accountId"@, c.account_id);
    lemma_apply_opt(a3, "threadId"@, c.thread_id);
    assert(a1.to is None && a1.account_id is None && a1.thread_id is None && a1.channel
        == c.channel);
    assert(a2.channel == c.channel && a2.to == c.to && a2.account_id is None && a2.thread_id
        is None);
    assert(a3.channel == c.channel && a3.to == c.to && a3.account_id == c.account_id
        && a3.thread_id is None);
    assert(a4 == c);
}

/// Parsing a serialized context recovers it.
pub proof fn lemma_parse_ctx_inv(s: Seq<char>, i: int, c: CtxModel)
    requires
        frag_at(s, i, ser_ctx(c)),
    ensures
        parse_ctx_spec(s, i) == Some((c, i + ser_ctx(c).len())),
{
    let fl = ctx_fields(c);
    assert(ser_ctx(c) =~= seq!['{'] + (ser_sfields(fl) + seq!['}']));
    lemma_frag_concat(s, i, seq!['{'], ser_sfields(fl) + seq!['}']);
    lemma_frag_index(s, i, seq!['{'], 0);
    if fl.len() == 0 {
        lemma_frag_index(s, i + 1, ser_sfields(fl) + seq!['}'], 0);
        assert(s[i + 1] == '}');
        assert(skip_ws_spec(s, i + 1) == i + 1);
        assert(c == empty_ctx());
    } else {
        assert(ser_sfields(fl)[0] == '"') by {
            assert(ser_sfields(fl) == ser_sfield(fl[0]) + ser_sfields_rest(fl.drop_first()));
            assert(ser_string(fl[0].0)[0] == '"');
        }
        lemma_frag_index(s, i + 1, ser_sfields(fl) + seq!['}'], 0);
        assert(s[i + 1] == '"');
        assert(skip_ws_spec(s, i + 1) == i + 1);
        lemma_parse_sfields_inv(s, i + 1, fl, empty_ctx());
        lemma_ctx_reconstruct(c);
    }
}

// ---------------------------------------------------------------------------
// Executable context writer and parser.
// ---------------------------------------------------------------------------

/// Appends a serialized delivery context to the output.
#[verifier::rlimit(100)]
#[verifier::spinoff_prover]
pub fn write_ctx(out: &mut String, c: &DeliveryContext)
    ensures
        final(out)@ == old(out)@ + ser_ctx(c@),
{
    string_push(out, '{');
    let ghost mut w: Seq<(Seq<char>, Seq<char>)> = Seq::empty();
    let mut first = true;
    proof {
        assert(out@ =~= old(out)@ + seq!['{'] + ser_sfields(w));
    }
    if let Some(x) = &c.channel {
        write_sfield(out, first, "channel", x.as_str());
        proof {
            lemma_ser_sfields_snoc(w, ("channel"@, x@));
            w = w.push(("channel"@, x@));
        }
        first = false;
    }
    proof {
        assert(first == (w.len() == 0));
        assert(out@ =~= old(out)@ + seq!['{'] + ser_sfields(w));
    }
    if let Some(x) = &c.to {
        write_sfield(out, first, "to", x.as_str());
        proof {
            lemma_ser_sfields_snoc(w, ("to"@, x@));
            w = w.push(("to"@, x@));
        }
        first = false;
    }
    proof {
        assert(first == (w.len() == 0));
        assert(out@ =~= old(out)@ + seq!['{'] + ser_sfields(w));
    }
    if let Some(x) = &c.account_id {
        write_sfield(out, first, "accountId", x.as_str());
        proof {
            lemma_ser_sfields_snoc(w, ("accountId"@, x@));
            w = w.push(("accountId"@, x@));
        }
        first = false;
    }
    proof {
        assert(first == (w.len() == 0));
        assert(out@ =~= old(out)@ + seq!['{'] + ser_sfields(w));
    }
    if let Some(x) = &c.thread_id {
        write_sfield(out, first, "threadId", x.as_str());
        proof {
            lemma_ser_sfields_snoc(w, ("threadId"@, x@));
            w = w.push(("threadId"@, x@));
        }
        first = false;
    }
    proof {
        assert(out@ =~= old(out)@ + seq!['{'] + ser_sfields(w));
    }
    string_push(out, '}');
    proof {
        assert(w =~= ctx_fields(c@));
        assert(final(out)@ =~= old(out)@ + ser_ctx(c@));
    }
}

/// Appends one string field, with its separating comma unless it is the
/// first.
fn write_sfield(out: &mut String, first: bool, name: &str, value: &str)
    ensures
        first ==> final(out)@ == old(out)@ + ser_sfield((name@, value@)),
        !first ==> final(out)@ == old(out)@ + seq![','] + ser_sfield((name@, value@)),
{
    if !first {
        string_push(out, ',');
    }
    write_json_string(out, name);
    string_push(out, ':');
    write_json_string(out, value);
    proof {
        if first {
            assert(final(out)@ =~= old(out)@ + ser_sfield((name@, value@)));
        } else {
            assert(final(out)@ =~= old(out)@ + seq![','] + ser_sfield((name@, value@)));
        }
    }
}

/// Applies one parsed string field to a delivery context under
/// construction.
fn apply_ctx_field_exec(acc: DeliveryContext, name: &str, value: String) -> (r: DeliveryContext)
    ensures
        r@ == apply_ctx_field(acc@, name@, value@),
{
    if str_eq(name, "channel") {
        DeliveryContext { channel: Some(value), to: acc.to, account_id: acc.account_id, thread_id: acc.thread_id }
    } else if str_eq(name, "to") {
        DeliveryContext { channel: acc.channel, to: Some(value), account_id: acc.account_id, thread_id: acc.thread_id }
    } else if str_eq(name, "accountId") {
        DeliveryContext { channel: acc.channel, to: acc.to, account_id: Some(value), thread_id: acc.thread_id }
    } else if str_eq(name, "threadId") {
        DeliveryContext { channel: acc.channel, to: acc.to, account_id: acc.account_id, thread_id: Some(value) }
    } else {
        acc
    }
}

/// Parses a context object starting exactly at i.
pub fn p_ctx(s: &str, i: usize) -> (r: Option<(DeliveryContext, usize)>)
    requires
        i <= s@.len(),
    ensures
        match r {
            Some(p) => {
                &&& parse_ctx_spec(s@, i as int) == Some((p.0@, p.1 as int))
                &&& i < p.1 <= s@.len()
            },
            None => parse_ctx_spec(s@, i as int) is None,
        },
{
    let n = s.unicode_len();
    if i >= n {
        return None;
    }
    if s.get_char(i) != '{' {
        return None;
    }
    let j = p_skip_ws(s, i + 1);
    if j < n && s.get_char(j) == '}' {
        return Some((
            DeliveryContext { channel: None, to: None, account_id: None, thread_id: None },
            j + 1,
        ));
    }
    match p_ctx_fields(
        s,
        j,
        DeliveryContext { channel: None, to: None, account_id: None, thread_id: None },
    ) {
        Some(p) => Some(p),
        None => None,
    }
}

/// Parses the fields of a context object from a cursor, folding them into
/// the accumulator.
fn p_ctx_fields(s: &str, i: usize, acc: DeliveryContext) -> (r: Option<(DeliveryContext, usize)>)
    requires
        i <= s@.len(),
    ensures
        match r {
            Some(p) => {
                &&& parse_ctx_fields_spec(s@, i as int, acc@) == Some((p.0@, p.1 as int))
                &&& i < p.1 <= s@.len()
            },
            None => parse_ctx_fields_spec(s@, i as int, acc@) is None,
        },
    decreases s@.len() - i,
{
    let n = s.unicode_len();
    let nk = match p_string(s, i) {
        Some(p) => p,
        None => {
            return None;
        },
    };
    let j = p_skip_ws(s, nk.1);
    if !(j < n && s.get_char(j) == ':') {
        return None;
    }
    let k = p_skip_ws(s, j + 1);
    let vv = match p_string(s, k) {
        Some(p) => p,
        None => {
            return None;
        },
    };
    let acc2 = apply_ctx_field_exec(acc, nk.0.as_str(), vv.0);
    let m = p_skip_ws(s, vv.1);
    if m < n && s.get_char(m) == ',' {
        let m2 = p_skip_ws(s, m + 1);
        p_ctx_fields(s, m2, acc2)
    } else if m < n && s.get_char(m) == '}' {
        Some((acc2, m + 1))
    } else {
        None
    }
}

// ---------------------------------------------------------------------------
// Entry objects: tagged field values.
// ---------------------------------------------------------------------------

/// A field value inside an entry object: a string, an integer, or a nested
/// delivery-context object.
pub enum JsonVal {
    VStr(Seq<char>),
    VNum(int),
    VCtx(CtxModel),
}

/// Value well-formedness for serialization: integers stay in the i64 range
/// the number codec covers.
pub open spec fn wf_jval(v: JsonVal) -> bool {
    match v {
        JsonVal::VNum(n) => 0 <= n <= 0x7fff_ffff_ffff_ffff,
        _ => true,
    }
}

pub open spec fn ser_jval(v: JsonVal) -> Seq<char> {
    match v {
        JsonVal::VStr(x) => ser_string(x),
        JsonVal::VNum(n) => ser_i64(n),
        JsonVal::VCtx(c) => ser_ctx(c),
    }
}

pub open spec fn ser_jfield(f: (Seq<char>, JsonVal)) -> Seq<char> {
    ser_string(f.0) + seq![':'] + ser_jval(f.1)
}

pub open spec fn ser_jfields_rest(l: Seq<(Seq<char>, JsonVal)>) -> Seq<char>
    decreases l.len(),
{
    if l.len() == 0 {
        Seq::empty()
    } else {
        seq![','] + ser_jfield(l[0]) + ser_jfields_rest(l.drop_first())
    }
}

pub open spec fn ser_jfields(l: Seq<(Seq<char>, JsonVal)>) -> Seq<char> {
    if l.len() == 0 {
        Seq::empty()
    } else {
        ser_jfield(l[0]) + ser_jfields_rest(l.drop_first())
    }
}

/// An entry's fields while parsing: everything optional until the object
/// closes.
pub struct EntryAcc {
    pub session_id: Option<Seq<char>>,
    pub updated_at: Option<int>,
    pub session_file: Option<Seq<char>>,
    pub delivery_context: Option<CtxModel>,
    pub last_channel: Option<Seq<char>>,
    pub last_to: Option<Seq<char>>,
    pub last_account_id: Option<Seq<char>>,
    pub last_thread_id: Option<Seq<char>>,
    pub webhook_message_id: Option<Seq<char>>,
    pub webhook_session_id: Option<Seq<char>>,
}

pub open spec fn empty_entry_acc() -> EntryAcc {
    EntryAcc {
        session_id: None,
        updated_at: None,
        session_file: None,
        delivery_context: None,
        last_channel: None,
        last_to: None,
        last_account_id: None,
        last_thread_id: None,
        webhook_message_id: None,
        webhook_session_id: None,
    }
}

/// An accumulated entry is complete once its required fields are present
/// and its timestamp is in range.
pub open spec fn entry_of_acc(a: EntryAcc) -> Option<EntryModel> {
    match a.session_id {
        Some(sid) => match a.updated_at {
            Some(t) => if !(0 <= t <= 0x7fff_ffff_ffff_ffff) {
                None
            } else {
                Some(
                    EntryModel {
                        session_id: sid,
                        updated_at: t,
                        session_file: a.session_file,
                        delivery_context: a.delivery_context,
                        last_channel: a.last_channel,
                        last_to: a.last_to,
                        last_account_id: a.last_account_id,
                        last_thread_id: a.last_thread_id,
                        webhook_message_id: a.webhook_message_id,
                        webhook_session_id: a.webhook_session_id,
                    },
                )
            },
            None => None,
        },
        None => None,
    }
}

/// How one parsed field lands in an entry: known names demand their value
/// shape, timestamps are clamped into range, unknown names are ignored.
pub open spec fn apply_entry_field(acc: EntryAcc, name: Seq<char>, v: JsonVal) -> Option<
    EntryAcc,
> {
    if name == "sessionId"@ {
        match v {
            JsonVal::VStr(x) => Some(EntryAcc { session_id: Some(x), ..acc }),
            _ => None,
        }
    } else if name == "updatedAt"@ {
        match v {
            JsonVal::VNum(n) => Some(EntryAcc { updated_at: Some(clamp_time(n)), ..acc }),
            _ => None,
        }
    } else if name == "sessionFile"@ {
        match v {
            JsonVal::VStr(x) => Some(EntryAcc { session_file: Some(x), ..acc }),
            _ => None,
        }
    } else if name == "deliveryContext"@ {
        match v {
            JsonVal::VCtx(c) => Some(EntryAcc { delivery_context: Some(c), ..acc }),
            _ => None,
        }
    } else if name == "lastChannel"@ {
        match v {
            JsonVal::VStr(x) => Some(EntryAcc { last_channel: Some(x), ..acc }),
            _ => None,
        }
    } else if name == "lastTo"@ {
        match v {
            JsonVal::VStr(x) => Some(EntryAcc { last_to: Some(x), ..acc }),
            _ => None,
        }
    } else if name == "lastAccountId"@ {
        match v {
            JsonVal::VStr(x) => Some(EntryAcc { last_account_id: Some(x), ..acc }),
            _ => None,
        }
    } else if name == "lastThreadId"@ {
        match v {
            JsonVal::VStr(x) => Some(EntryAcc { last_thread_id: Some(x), ..acc }),
            _ => None,
        }
    } else if name == "webhookMessageId"@ {
        match v {
            JsonVal::VStr(x) => Some(EntryAcc { webhook_message_id: Some(x), ..acc }),
            _ => None,
        }
    } else if name == "webhookSessionId"@ {
        match v {
            JsonVal::VStr(x) => Some(EntryAcc { webhook_session_id: Some(x), ..acc }),
            _ => None,
        }
    } else {
        Some(acc)
    }
}

pub open spec fn apply_jfields(acc: EntryAcc, l: Seq<(Seq<char>, JsonVal)>) -> Option<EntryAcc>
    decreases l.len(),
{
    if l.len() == 0 {
        Some(acc)
    } else {
        match apply_entry_field(acc, l[0].0, l[0].1) {
            Some(a2) => apply_jfields(a2, l.drop_first()),
            None => None,
        }
    }
}

pub open spec fn opt_jfield(name: Seq<char>, v: Option<Seq<char>>) -> Seq<(Seq<char>, JsonVal)> {
    match v {
        Some(x) => seq![(name, JsonVal::VStr(x))],
        None => Seq::empty(),
    }
}

/// The fields an entry serializes to: the required pair first, optional
/// fields only when present.
/// The optional fields an entry serializes to, present ones only.
pub open spec fn entry_opt_fields(e: EntryModel) -> Seq<(Seq<char>, JsonVal)> {
    opt_jfield("sessionFile"@, e.session_file) + ((match e.delivery_context {
        Some(c) => seq![("deliveryContext"@, JsonVal::VCtx(c))],
        None => Seq::empty(),
    }) + (opt_jfield("lastChannel"@, e.last_channel) + (opt_jfield("lastTo"@, e.last_to)
        + (opt_jfield("lastAccountId"@, e.last_account_id) + (opt_jfield(
        "lastThreadId"@,
        e.last_thread_id,
    ) + (opt_jfield("webhookMessageId"@, e.webhook_message_id) + opt_jfield(
        "webhookSessionId"@,
        e.webhook_session_id,
    )))))))
}

pub open spec fn entry_fields(e: EntryModel) -> Seq<(Seq<char>, JsonVal)> {
    seq![("sessionId"@, JsonVal::VStr(e.session_id)), ("updatedAt"@, JsonVal::VNum(e.updated_at))]
        + entry_opt_fields(e)
}

/// A serialized entry object.
pub open spec fn ser_entry(e: EntryModel) -> Seq<char> {
    seq!['{'] + ser_jfields(entry_fields(e)) + seq!['}']
}

/// A field value starting exactly at i, dispatched on its first character.
pub open spec fn parse_jval_spec(s: Seq<char>, i: int) -> Option<(JsonVal, int)> {
    if 0 <= i < s.len() {
        if s[i] == '"' {
            match parse_string_spec(s, i) {
                Some(p) => Some((JsonVal::VStr(p.0), p.1)),
                None => None,
            }
        } else if s[i] == '{' {
            match parse_ctx_spec(s, i) {
                Some(p) => Some((JsonVal::VCtx(p.0), p.1)),
                None => None,
            }
        } else {
            match parse_num_spec(s, i) {
                Some(p) => Some((JsonVal::VNum(p.0), p.1)),
                None => None,
            }
        }
    } else {
        None
    }
}

pub proof fn lemma_parse_jval_bounds(s: Seq<char>, i: int)
    ensures
        parse_jval_spec(s, i) matches Some(p) ==> i < p.1 <= s.len(),
{
    if 0 <= i < s.len() {
        lemma_parse_string_bounds(s, i);
        lemma_parse_ctx_bounds(s, i);
        if s[i] != '"' && s[i] != '{' {
            match parse_num_spec(s, i) {
                Some(p) => {
                    if s[i] == '-' {
                        lemma_digit_run_bounds(s, i + 1);
                    } else {
                        lemma_digit_run_bounds(s, i);
                    }
                },
                None => {},
            }
        }
    }
}

pub open spec fn parse_entry_fields_spec(s: Seq<char>, i: int, acc: EntryAcc) -> Option<
    (EntryAcc, int),
>
    decreases s.len() - i,
    via parse_entry_fields_dec
{
    match parse_string_spec(s, i) {
        Some(nk) => {
            let j = skip_ws_spec(s, nk.1);
            if j < s.len() && s[j] == ':' {
                let k = skip_ws_spec(s, j + 1);
                match parse_jval_spec(s, k) {
                    Some(vv) => match apply_entry_field(acc, nk.0, vv.0) {
                        Some(acc2) => {
                            let m = skip_ws_spec(s, vv.1);
                            if m < s.len() && s[m] == ',' {
                                let m2 = skip_ws_spec(s, m + 1);
                                parse_entry_fields_spec(s, m2, acc2)
                            } else if m < s.len() && s[m] == '}' {
                                Some((acc2, m + 1))
                            } else {
                                None
                            }
                        },
                        None => None,
                    },
                    None => None,
                }
            } else {
                None
            }
        },
        None => None,
    }
}

#[via_fn]
proof fn parse_entry_fields_dec(s: Seq<char>, i: int, acc: EntryAcc) {
    lemma_parse_string_bounds(s, i);
    match parse_string_spec(s, i) {
        Some(nk) => {
            lemma_skip_ws_bounds(s, nk.1);
            let j = skip_ws_spec(s, nk.1);
            if j < s.len() && s[j] == ':' {
                lemma_skip_ws_bounds(s, j + 1);
                let k = skip_ws_spec(s, j + 1);
                lemma_parse_jval_bounds(s, k);
                match parse_jval_spec(s, k) {
                    Some(vv) => {
                        lemma_skip_ws_bounds(s, vv.1);
                        let m = skip_ws_spec(s, vv.1);
                        if m < s.len() && s[m] == ',' {
                            lemma_skip_ws_bounds(s, m + 1);
                        }
                    },
                    None => {},
                }
            }
        },
        None => {},
    }
}

pub proof fn lemma_parse_entry_fields_bounds(s: Seq<char>, i: int, acc: EntryAcc)
    requires
        0 <= i,
    ensures
        parse_entry_fields_spec(s, i, acc) matches Some(p) ==> i < p.1 <= s.len(),
    decreases s.len() - i,
{
    lemma_parse_string_bounds(s, i);
    match parse_string_spec(s, i) {
        Some(nk) => {
            lemma_skip_ws_bounds(s, nk.1);
            let j = skip_ws_spec(s, nk.1);
            if j < s.len() && s[j] == ':' {
                lemma_skip_ws_bounds(s, j + 1);
                let k = skip_ws_spec(s, j + 1);
                lemma_parse_jval_bounds(s, k);
                match parse_jval_spec(s, k) {
                    Some(vv) => match apply_entry_field(acc, nk.0, vv.0) {
                        Some(acc2) => {
                            lemma_skip_ws_bounds(s, vv.1);
                            let m = skip_ws_spec(s, vv.1);
                            if m < s.len() && s[m] == ',' {
                                lemma_skip_ws_bounds(s, m + 1);
                                let m2 = skip_ws_spec(s, m + 1);
                                lemma_parse_entry_fields_bounds(s, m2, acc2);
                            }
                        },
                        None => {},
                    },
                    None => {},
                }
            }
        },
        None => {},
    }
}

/// An entry object starting exactly at i; an object without the required
/// fields is no entry.
pub open spec fn parse_entry_spec(s: Seq<char>, i: int) -> Option<(EntryModel, int)> {
    if 0 <= i < s.len() && s[i] == '{' {
        let j = skip_ws_spec(s, i + 1);
        if j < s.len() && s[j] == '}' {
            None
        } else {
            match parse_entry_fields_spec(s, j, empty_entry_acc()) {
                Some(p) => match entry_of_acc(p.0) {
                    Some(e) => Some((e, p.1)),
                    None => None,
                },
                None => None,
            }
        }
    } else {
        None
    }
}

pub proof fn lemma_parse_entry_bounds(s: Seq<char>, i: int)
    ensures
        parse_entry_spec(s, i) matches Some(p) ==> i < p.1 <= s.len(),
{
    if 0 <= i < s.len() && s[i] == '{' {
        lemma_skip_ws_bounds(s, i + 1);
        lemma_parse_entry_fields_bounds(s, skip_ws_spec(s, i + 1), empty_entry_acc());
    }
}

/// Parsing one serialized field value recovers it.
pub proof fn lemma_parse_jval_inv(s: Seq<char>, i: int, v: JsonVal)
    requires
        wf_jval(v),
        frag_at(s, i, ser_jval(v)),
        i + ser_jval(v).len() == s.len() || !is_digit_char(s[i + ser_jval(v).len()]),
    ensures
        parse_jval_spec(s, i) == Some((v, i + ser_jval(v).len())),
{
    match v {
        JsonVal::VStr(x) => {
            assert(ser_string(x)[0] == '"');
            lemma_frag_index(s, i, ser_jval(v), 0);
            lemma_parse_string_inv(s, i, x);
        },
        JsonVal::VNum(n) => {
            lemma_dec_digits_all_digits(n);
            lemma_frag_index(s, i, ser_jval(v), 0);
            assert(is_digit_char(s[i]));
            assert(s[i] != '"' && s[i] != '{');
            lemma_parse_num_inv(s, i, n);
        },
        JsonVal::VCtx(c) => {
            assert(ser_ctx(c)[0] == '{');
            lemma_frag_index(s, i, ser_jval(v), 0);
            lemma_parse_ctx_inv(s, i, c);
        },
    }
}

pub open spec fn wf_jfields(l: Seq<(Seq<char>, JsonVal)>) -> bool {
    forall|k: int| 0 <= k < l.len() ==> wf_jval(#[trigger] l[k].1)
}

/// Parsing a serialized entry field list (with its closing brace) folds
/// exactly those fields.
#[verifier::rlimit(100)]
#[verifier::spinoff_prover]
pub proof fn lemma_parse_jfields_inv(
    s: Seq<char>,
    i: int,
    l: Seq<(Seq<char>, JsonVal)>,
    acc: EntryAcc,
)
    requires
        l.len() >= 1,
        wf_jfields(l),
        frag_at(s, i, ser_jfields(l) + seq!['}']),
    ensures
        parse_entry_fields_spec(s, i, acc) == (match apply_jfields(acc, l) {
            Some(a) => Some((a, i + ser_jfields(l).len() + 1)),
            None => None,
        }),
    decreases l.len(),
{
    let f = l[0];
    let rest = l.drop_first();
    let f0 = ser_string(f.0);
    let f2 = ser_jval(f.1);
    assert(wf_jval(f.1));
    if rest.len() == 0 {
        assert(ser_jfields(l) + seq!['}'] =~= f0 + (seq![':'] + (f2 + seq!['}'])));
        lemma_frag_concat(s, i, f0, seq![':'] + (f2 + seq!['}']));
        lemma_frag_concat(s, i + f0.len(), seq![':'], f2 + seq!['}']);
        lemma_frag_concat(s, i + f0.len() + 1, f2, seq!['}']);
        lemma_parse_string_inv(s, i, f.0);
        let i1 = i + f0.len();
        lemma_frag_index(s, i1, seq![':'], 0);
        assert(skip_ws_spec(s, i1) == i1);
        let k = i1 + 1;
        let m = k + f2.len();
        lemma_frag_index(s, m, seq!['}'], 0);
        assert(s[m] == '}');
        lemma_parse_jval_inv(s, k, f.1);
        assert(skip_ws_spec(s, m) == m);
        match apply_entry_field(acc, f.0, f.1) {
            Some(acc2) => {
                assert(apply_jfields(acc, l) == apply_jfields(acc2, rest));
                assert(apply_jfields(acc2, rest) == Some(acc2));
            },
            None => {
                assert(apply_jfields(acc, l) is None);
            },
        }
    } else {
        assert(ser_jfields_rest(rest) == seq![','] + ser_jfield(rest[0]) + ser_jfields_rest(
            rest.drop_first(),
        ));
        assert(ser_jfields(l) + seq!['}'] =~= f0 + (seq![':'] + (f2 + (seq![','] + (ser_jfields(
            rest,
        ) + seq!['}'])))));
        lemma_frag_concat(s, i, f0, seq![':'] + (f2 + (seq![','] + (ser_jfields(rest)
            + seq!['}']))));
        lemma_frag_concat(s, i + f0.len(), seq![':'], f2 + (seq![','] + (ser_jfields(rest)
            + seq!['}'])));
        lemma_frag_concat(s, i + f0.len() + 1, f2, seq![','] + (ser_jfields(rest) + seq!['}']));
        lemma_frag_concat(s, i + f0.len() + 1 + f2.len(), seq![','], ser_jfields(rest)
            + seq!['}']);
        lemma_parse_string_inv(s, i, f.0);
        let i1 = i + f0.len();
        lemma_frag_index(s, i1, seq![':'], 0);
        assert(skip_ws_spec(s, i1) == i1);
        let k = i1 + 1;
        let m = k + f2.len();
        lemma_frag_index(s, m, seq![','], 0);
        assert(s[m] == ',');
        lemma_parse_jval_inv(s, k, f.1);
        assert(skip_ws_spec(s, m) == m);
        let m2 = m + 1;
        assert(ser_jfields(rest)[0] == '"') by {
            assert(ser_jfields(rest) == ser_jfield(rest[0]) + ser_jfields_rest(
                rest.drop_first(),
            ));
            assert(ser_string(rest[0].0)[0] == '"');
        }
        assert(frag_at(s, m2, ser_jfields(rest) + seq!['}']));
        lemma_frag_index(s, m2, ser_jfields(rest) + seq!['}'], 0);
        assert(s[m2] == '"');
        assert(skip_ws_spec(s, m2) == m2);
        assert(wf_jfields(rest)) by {
            assert(forall|k2: int| 0 <= k2 < rest.len() ==> rest[k2] == l[k2 + 1]);
        }
        match apply_entry_field(acc, f.0, f.1) {
            Some(acc2) => {
                lemma_parse_jfields_inv(s, m2, rest, acc2);
                assert(apply_jfields(acc, l) == apply_jfields(acc2, rest));
            },
            None => {
                assert(apply_jfields(acc, l) is None);
            },
        }
    }
}

proof fn lemma_apply_jone(acc: EntryAcc, name: Seq<char>, v: JsonVal)
    ensures
        apply_jfields(acc, seq![(name, v)]) == (match apply_entry_field(acc, name, v) {
            Some(a2) => Some(a2),
            None => None::<EntryAcc>,
        }),
{
    let l = seq![(name, v)];
    assert(l[0] == (name, v));
    assert(l[0].0 == name && l[0].1 == v);
    assert(l.drop_first() =~= Seq::<(Seq<char>, JsonVal)>::empty());
    match apply_entry_field(acc, name, v) {
        Some(a2) => {
            assert(apply_jfields(a2, Seq::<(Seq<char>, JsonVal)>::empty()) == Some(a2));
        },
        None => {},
    }
}

proof fn lemma_apply_jfields_append(
    acc: EntryAcc,
    a: Seq<(Seq<char>, JsonVal)>,
    b: Seq<(Seq<char>, JsonVal)>,
)
    ensures
        apply_jfields(acc, a + b) == (match apply_jfields(acc, a) {
            Some(m) => apply_jfields(m, b),
            None => None,
        }),
    decreases a.len(),
{
    if a.len() == 0 {
        assert(a + b =~= b);
    } else {
        assert((a + b)[0] == a[0]);
        assert((a + b).drop_first() =~= a.drop_first() + b);
        match apply_entry_field(acc, a[0].0, a[0].1) {
            Some(a2) => {
                lemma_apply_jfields_append(a2, a.drop_first(), b);
            },
            None => {},
        }
    }
}

/// The entry-field names, in the order the dispatch tries them.  Each
/// lemma below shows one name takes its own branch: every earlier name in
/// the chain differs, almost always by length alone.
proof fn lemma_name_facts()
    ensures
        "sessionId"@.len() == 9,
        "updatedAt"@.len() == 9,
        "sessionFile"@.len() == 11,
        "deliveryContext"@.len() == 15,
        "lastChannel"@.len() == 11,
        "lastTo"@.len() == 6,
        "lastAccountId"@.len() == 13,
        "lastThreadId"@.len() == 12,
        "webhookMessageId"@.len() == 16,
        "webhookSessionId"@.len() == 16,
        "updatedAt"@ != "sessionId"@,
        "lastChannel"@ != "sessionFile"@,
        "webhookSessionId"@ != "webhookMessageId"@,
{
    reveal_strlit("sessionId");
    reveal_strlit("updatedAt");
    reveal_strlit("sessionFile");
    reveal_strlit("deliveryContext");
    reveal_strlit("lastChannel");
    reveal_strlit("lastTo");
    reveal_strlit("lastAccountId");
    reveal_strlit("lastThreadId");
    reveal_strlit("webhookMessageId");
    reveal_strlit("webhookSessionId");
    assert("updatedAt"@[0] == 'u' && "sessionId"@[0] == 's');
    assert("lastChannel"@[0] == 'l' && "sessionFile"@[0] == 's');
    assert("webhookSessionId"@[7] == 'S' && "webhookMessageId"@[7] == 'M');
}

proof fn lemma_apply_req(acc: EntryAcc, sid: Seq<char>, t: int)
    requires
        0 <= t <= 0x7fff_ffff_ffff_ffff,
    ensures
        apply_jfields(
            acc,
            seq![("sessionId"@, JsonVal::VStr(sid)), ("updatedAt"@, JsonVal::VNum(t))],
        ) == Some(EntryAcc { session_id: Some(sid), updated_at: Some(t), ..acc }),
{
    lemma_name_facts();
    let g0 = seq![("sessionId"@, JsonVal::VStr(sid)), ("updatedAt"@, JsonVal::VNum(t))];
    let acc1 = EntryAcc { session_id: Some(sid), ..acc };
    assert(g0[0] == ("sessionId"@, JsonVal::VStr(sid)));
    assert(apply_entry_field(acc, "sessionId"@, JsonVal::VStr(sid)) == Some(acc1));
    assert(g0.drop_first() =~= seq![("updatedAt"@, JsonVal::VNum(t))]);
    lemma_apply_jone(acc1, "updatedAt"@, JsonVal::VNum(t));
    assert(clamp_time(t) == t);
}

proof fn lemma_apply_f_session_file(acc: EntryAcc, x: Option<Seq<char>>)
    ensures
        apply_jfields(acc, opt_jfield("sessionFile"@, x)) == Some(
            EntryAcc {
                session_file: (if x is Some {
                    x
                } else {
                    acc.session_file
                }),
                ..acc
            },
        ),
{
    lemma_name_facts();
    match x {
        Some(v) => {
            lemma_apply_jone(acc, "sessionFile"@, JsonVal::VStr(v));
        },
        None => {},
    }
}

proof fn lemma_apply_f_dctx(acc: EntryAcc, c: Option<CtxModel>)
    ensures
        apply_jfields(
            acc,
            match c {
                Some(cm) => seq![("deliveryContext"@, JsonVal::VCtx(cm))],
                None => Seq::empty(),
            },
        ) == Some(
            EntryAcc {
                delivery_context: (if c is Some {
                    c
                } else {
                    acc.delivery_context
                }),
                ..acc
            },
        ),
{
    lemma_name_facts();
    match c {
        Some(cm) => {
            lemma_apply_jone(acc, "deliveryContext"@, JsonVal::VCtx(cm));
        },
        None => {},
    }
}

proof fn lemma_apply_f_last_channel(acc: EntryAcc, x: Option<Seq<char>>)
    ensures
        apply_jfields(acc, opt_jfield("lastChannel"@, x)) == Some(
            EntryAcc {
                last_channel: (if x is Some {
                    x
                } else {
                    acc.last_channel
                }),
                ..acc
            },
        ),
{
    lemma_name_facts();
    match x {
        Some(v) => {
            lemma_apply_jone(acc, "lastChannel"@, JsonVal::VStr(v));
        },
        None => {},
    }
}

proof fn lemma_apply_f_last_to(acc: EntryAcc, x: Option<Seq<char>>)
    ensures
        apply_jfields(acc, opt_jfield("lastTo"@, x)) == Some(
            EntryAcc {
                last_to: (if x is Some {
                    x
                } else {
                    acc.last_to
                }),
                ..acc
            },
        ),
{
    lemma_name_facts();
    match x {
        Some(v) => {
            lemma_apply_jone(acc, "lastTo"@, JsonVal::VStr(v));
        },
        None => {},
    }
}

proof fn lemma_apply_f_last_account_id(acc: EntryAcc, x: Option<Seq<char>>)
    ensures
        apply_jfields(acc, opt_jfield("lastAccountId"@, x)) == Some(
            EntryAcc {
                last_account_id: (if x is Some {
                    x
                } else {
                    acc.last_account_id
                }),
                ..acc
            },
        ),
{
    lemma_name_facts();
    match x {
        Some(v) => {
            lemma_apply_jone(acc, "lastAccountId"@, JsonVal::VStr(v));
        },
        None => {},
    }
}

proof fn lemma_apply_f_last_thread_id(acc: EntryAcc, x: Option<Seq<char>>)
    ensures
        apply_jfields(acc, opt_jfield("lastThreadId"@, x)) == Some(
            EntryAcc {
                last_thread_id: (if x is Some {
                    x
                } else {
                    acc.last_thread_id
                }),
                ..acc
            },
        ),
{
    lemma_name_facts();
    match x {
        Some(v) => {
            lemma_apply_jone(acc, "lastThreadId"@, JsonVal::VStr(v));
        },
        None => {},
    }
}

proof fn lemma_apply_f_webhook_message_id(acc: EntryAcc, x: Option<Seq<char>>)
    ensures
        apply_jfields(acc, opt_jfield("webhookMessageId"@, x)) == Some(
            EntryAcc {
                webhook_message_id: (if x is Some {
                    x
                } else {
                    acc.webhook_message_id
                }),
                ..acc
            },
        ),
{
    lemma_name_facts();
    match x {
        Some(v) => {
            lemma_apply_jone(acc, "webhookMessageId"@, JsonVal::VStr(v));
        },
        None => {},
    }
}

proof fn lemma_apply_f_webhook_session_id(acc: EntryAcc, x: Option<Seq<char>>)
    ensures
        apply_jfields(acc, opt_jfield("webhookSessionId"@, x)) == Some(
            EntryAcc {
                webhook_session_id: (if x is Some {
                    x
                } else {
                    acc.webhook_session_id
                }),
                ..acc
            },
        ),
{
    lemma_name_facts();
    match x {
        Some(v) => {
            lemma_apply_jone(acc, "webhookSessionId"@, JsonVal::VStr(v));
        },
        None => {},
    }
}

#[verifier::rlimit(100)]
#[verifier::spinoff_prover]
proof fn lemma_entry_reconstruct_tail(e: EntryModel, b0: EntryAcc)
    requires
        b0.session_file is None,
        b0.delivery_context is None,
        b0.last_channel is None,
        b0.last_to is None,
        b0.last_account_id is None,
        b0.last_thread_id is None,
        b0.webhook_message_id is None,
        b0.webhook_session_id is None,
    ensures
        apply_jfields(b0, entry_opt_fields(e)) == Some(
            EntryAcc {
                session_file: e.session_file,
                delivery_context: e.delivery_context,
                last_channel: e.last_channel,
                last_to: e.last_to,
                last_account_id: e.last_account_id,
                last_thread_id: e.last_thread_id,
                webhook_message_id: e.webhook_message_id,
                webhook_session_id: e.webhook_session_id,
                ..b0
            },
        ),
{
    let g1 = opt_jfield("sessionFile"@, e.session_file);
    let g2: Seq<(Seq<char>, JsonVal)> = match e.delivery_context {
        Some(c) => seq![("deliveryContext"@, JsonVal::VCtx(c))],
        None => Seq::empty(),
    };
    let g3 = opt_jfield("lastChannel"@, e.last_channel);
    let g4 = opt_jfield("lastTo"@, e.last_to);
    let g5 = opt_jfield("lastAccountId"@, e.last_account_id);
    let g6 = opt_jfield("lastThreadId"@, e.last_thread_id);
    let g7 = opt_jfield("webhookMessageId"@, e.webhook_message_id);
    let g8 = opt_jfield("webhookSessionId"@, e.webhook_session_id);
    lemma_apply_jfields_append(b0, g1, g2 + (g3 + (g4 + (g5 + (g6 + (g7 + g8))))));
    lemma_apply_f_session_file(b0, e.session_file);
    let b1 = EntryAcc { session_file: e.session_file, ..b0 };
    lemma_apply_jfields_append(b1, g2, g3 + (g4 + (g5 + (g6 + (g7 + g8)))));
    lemma_apply_f_dctx(b1, e.delivery_context);
    let b2 = EntryAcc { delivery_context: e.delivery_context, ..b1 };
    lemma_apply_jfields_append(b2, g3, g4 + (g5 + (g6 + (g7 + g8))));
    lemma_apply_f_last_channel(b2, e.last_channel);
    let b3 = EntryAcc { last_channel: e.last_channel, ..b2 };
    lemma_apply_jfields_append(b3, g4, g5 + (g6 + (g7 + g8)));
    lemma_apply_f_last_to(b3, e.last_to);
    let b4 = EntryAcc { last_to: e.last_to, ..b3 };
    lemma_apply_jfields_append(b4, g5, g6 + (g7 + g8));
    lemma_apply_f_last_account_id(b4, e.last_account_id);
    let b5 = EntryAcc { last_account_id: e.last_account_id, ..b4 };
    lemma_apply_jfields_append(b5, g6, g7 + g8);
    lemma_apply_f_last_thread_id(b5, e.last_thread_id);
    let b6 = EntryAcc { last_thread_id: e.last_thread_id, ..b5 };
    lemma_apply_jfields_append(b6, g7, g8);
    lemma_apply_f_webhook_message_id(b6, e.webhook_message_id);
    let b7 = EntryAcc { webhook_message_id: e.webhook_message_id, ..b6 };
    lemma_apply_f_webhook_session_id(b7, e.webhook_session_id);
}

/// Replaying an entry's own serialized fields onto an empty accumulator
/// rebuilds the entry.
#[verifier::rlimit(100)]
#[verifier::spinoff_prover]
pub proof fn lemma_entry_reconstruct(e: EntryModel)
    requires
        wf_entry(e),
    ensures
        apply_jfields(empty_entry_acc(), entry_fields(e)) matches Some(a) && entry_of_acc(a)
            == Some(e),
{
    let g0 = seq![
        ("sessionId"@, JsonVal::VStr(e.session_id)),
        ("updatedAt"@, JsonVal::VNum(e.updated_at)),
    ];
    let acc0 = empty_entry_acc();
    lemma_apply_jfields_append(acc0, g0, entry_opt_fields(e));
    lemma_apply_req(acc0, e.session_id, e.updated_at);
    let b0 = EntryAcc { session_id: Some(e.session_id), updated_at: Some(e.updated_at), ..acc0 };
    lemma_entry_reconstruct_tail(e, b0);
}

/// Parsing a serialized entry recovers it.
pub proof fn lemma_parse_entry_inv(s: Seq<char>, i: int, e: EntryModel)
    requires
        wf_entry(e),
        frag_at(s, i, ser_entry(e)),
    ensures
        parse_entry_spec(s, i) == Some((e, i + ser_entry(e).len())),
{
    let fl = entry_fields(e);
    assert(fl.len() >= 2);
    assert(ser_entry(e) =~= seq!['{'] + (ser_jfields(fl) + seq!['}']));
    lemma_frag_concat(s, i, seq!['{'], ser_jfields(fl) + seq!['}']);
    lemma_frag_index(s, i, seq!['{'], 0);
    assert(ser_jfields(fl)[0] == '"') by {
        assert(ser_jfields(fl) == ser_jfield(fl[0]) + ser_jfields_rest(fl.drop_first()));
        assert(fl[0] == ("sessionId"@, JsonVal::VStr(e.session_id)));
        assert(ser_string(fl[0].0)[0] == '"');
    }
    lemma_frag_index(s, i + 1, ser_jfields(fl) + seq!['}'], 0);
    assert(s[i + 1] == '"');
    assert(skip_ws_spec(s, i + 1) == i + 1);
    lemma_entry_fields_wf(e);
    lemma_parse_jfields_inv(s, i + 1, fl, empty_entry_acc());
    lemma_entry_reconstruct(e);
}

proof fn lemma_wf_jfields_append(a: Seq<(Seq<char>, JsonVal)>, b: Seq<(Seq<char>, JsonVal)>)
    requires
        wf_jfields(a),
        wf_jfields(b),
    ensures
        wf_jfields(a + b),
{
    assert forall|k: int| 0 <= k < (a + b).len() implies wf_jval(#[trigger] (a + b)[k].1) by {
        if k < a.len() {
            assert((a + b)[k] == a[k]);
        } else {
            assert((a + b)[k] == b[k - a.len()]);
        }
    }
}

proof fn lemma_wf_opt_jfield(name: Seq<char>, x: Option<Seq<char>>)
    ensures
        wf_jfields(opt_jfield(name, x)),
{
}

/// Every value an entry serializes is within what the codec covers.
proof fn lemma_entry_fields_wf(e: EntryModel)
    requires
        wf_entry(e),
    ensures
        wf_jfields(entry_fields(e)),
{
    let g0 = seq![
        ("sessionId"@, JsonVal::VStr(e.session_id)),
        ("updatedAt"@, JsonVal::VNum(e.updated_at)),
    ];
    let g1 = opt_jfield("sessionFile"@, e.session_file);
    let g2: Seq<(Seq<char>, JsonVal)> = match e.delivery_context {
        Some(c) => seq![("deliveryContext"@, JsonVal::VCtx(c))],
        None => Seq::empty(),
    };
    let g3 = opt_jfield("lastChannel"@, e.last_channel);
    let g4 = opt_jfield("lastTo"@, e.last_to);
    let g5 = opt_jfield("lastAccountId"@, e.last_account_id);
    let g6 = opt_jfield("lastThreadId"@, e.last_thread_id);
    let g7 = opt_jfield("webhookMessageId"@, e.webhook_message_id);
    let g8 = opt_jfield("webhookSessionId"@, e.webhook_session_id);
    assert(wf_jfields(g0)) by {
        assert(g0[0].1 == JsonVal::VStr(e.session_id));
        assert(g0[1].1 == JsonVal::VNum(e.updated_at));
    }
    assert(wf_jfields(g2)) by {
        if e.delivery_context is Some {
            assert(g2[0].1 is VCtx);
        }
    }
    lemma_wf_opt_jfield("sessionFile"@, e.session_file);
    lemma_wf_opt_jfield("lastChannel"@, e.last_channel);
    lemma_wf_opt_jfield("lastTo"@, e.last_to);
    lemma_wf_opt_jfield("lastAccountId"@, e.last_account_id);
    lemma_wf_opt_jfield("lastThreadId"@, e.last_thread_id);
    lemma_wf_opt_jfield("webhookMessageId"@, e.webhook_message_id);
    lemma_wf_opt_jfield("webhookSessionId"@, e.webhook_session_id);
    lemma_wf_jfields_append(g7, g8);
    lemma_wf_jfields_append(g6, g7 + g8);
    lemma_wf_jfields_append(g5, g6 + (g7 + g8));
    lemma_wf_jfields_append(g4, g5 + (g6 + (g7 + g8)));
    lemma_wf_jfields_append(g3, g4 + (g5 + (g6 + (g7 + g8))));
    lemma_wf_jfields_append(g2, g3 + (g4 + (g5 + (g6 + (g7 + g8)))));
    lemma_wf_jfields_append(g1, g2 + (g3 + (g4 + (g5 + (g6 + (g7 + g8))))));
    lemma_wf_jfields_append(g0, entry_opt_fields(e));
}

// ---------------------------------------------------------------------------
// The store document: a JSON object mapping session keys to entries.
// ---------------------------------------------------------------------------

pub open spec fn ser_dfield(f: (Seq<char>, EntryModel)) -> Seq<char> {
    ser_string(f.0) + seq![':'] + ser_entry(f.1)
}

pub open spec fn ser_dfields_rest(l: Seq<(Seq<char>, EntryModel)>) -> Seq<char>
    decreases l.len(),
{
    if l.len() == 0 {
        Seq::empty()
    } else {
        seq![','] + ser_dfield(l[0]) + ser_dfields_rest(l.drop_first())
    }
}

pub open spec fn ser_dfields(l: Seq<(Seq<char>, EntryModel)>) -> Seq<char> {
    if l.len() == 0 {
        Seq::empty()
    } else {
        ser_dfield(l[0]) + ser_dfields_rest(l.drop_first())
    }
}

/// A serialized store document.
pub open spec fn ser_doc(l: Seq<(Seq<char>, EntryModel)>) -> Seq<char> {
    seq!['{'] + ser_dfields(l) + seq!['}']
}

pub proof fn lemma_ser_dfields_rest_snoc(l: Seq<(Seq<char>, EntryModel)>, f: (Seq<char>, EntryModel))
    ensures
        ser_dfields_rest(l.push(f)) == ser_dfields_rest(l) + seq![','] + ser_dfield(f),
    decreases l.len(),
{
    if l.len() == 0 {
        assert(l.push(f)[0] == f);
        assert(l.push(f).drop_first() =~= Seq::<(Seq<char>, EntryModel)>::empty());
        assert(ser_dfields_rest(Seq::<(Seq<char>, EntryModel)>::empty()) == Seq::<char>::empty());
        assert(ser_dfields_rest(l) == Seq::<char>::empty());
        assert(ser_dfields_rest(l.push(f)) =~= ser_dfields_rest(l) + seq![','] + ser_dfield(f));
    } else {
        lemma_ser_dfields_rest_snoc(l.drop_first(), f);
        assert(l.push(f)[0] == l[0]);
        assert(l.push(f).drop_first() =~= l.drop_first().push(f));
        assert(ser_dfields_rest(l.push(f)) == seq![','] + ser_dfield(l[0]) + ser_dfields_rest(
            l.drop_first().push(f),
        ));
        assert(ser_dfields_rest(l.push(f)) =~= ser_dfields_rest(l) + seq![','] + ser_dfield(f));
    }
}

pub proof fn lemma_ser_dfields_snoc(l: Seq<(Seq<char>, EntryModel)>, f: (Seq<char>, EntryModel))
    ensures
        l.len() == 0 ==> ser_dfields(l.push(f)) == ser_dfield(f),
        l.len() > 0 ==> ser_dfields(l.push(f)) == ser_dfields(l) + seq![','] + ser_dfield(f),
{
    if l.len() == 0 {
        assert(l.push(f)[0] == f);
        assert(l.push(f).drop_first() =~= Seq::<(Seq<char>, EntryModel)>::empty());
        assert(ser_dfields_rest(Seq::<(Seq<char>, EntryModel)>::empty()) == Seq::<char>::empty());
        assert(ser_dfields(l.push(f)) =~= ser_dfield(f));
    } else {
        lemma_ser_dfields_rest_snoc(l.drop_first(), f);
        assert(l.push(f)[0] == l[0]);
        assert(l.push(f).drop_first() =~= l.drop_first().push(f));
        assert(ser_dfields(l.push(f)) =~= ser_dfields(l) + seq![','] + ser_dfield(f));
    }
}

pub open spec fn dpairs_unique(l: Seq<(Seq<char>, EntryModel)>) -> bool {
    forall|a: int, b: int| 0 <= a < b < l.len() ==> l[a].0 != l[b].0
}

pub open spec fn dpairs_wf(l: Seq<(Seq<char>, EntryModel)>) -> bool {
    forall|k: int| 0 <= k < l.len() ==> wf_entry(#[trigger] l[k].1)
}

pub open spec fn pairs_has_key(l: Seq<(Seq<char>, EntryModel)>, key: Seq<char>) -> bool {
    exists|t: int| 0 <= t < l.len() && l[t].0 == key
}

/// The key/entry pairs of a store document from a cursor.  A document that
/// repeats a key is rejected as a whole (and so reads leniently as the
/// empty mapping); this library never writes one.
pub open spec fn parse_doc_pairs_spec(
    s: Seq<char>,
    i: int,
    acc: Seq<(Seq<char>, EntryModel)>,
) -> Option<(Seq<(Seq<char>, EntryModel)>, int)>
    decreases s.len() - i,
    via parse_doc_pairs_dec
{
    match parse_string_spec(s, i) {
        Some(nk) => {
            let j = skip_ws_spec(s, nk.1);
            if j < s.len() && s[j] == ':' {
                let k = skip_ws_spec(s, j + 1);
                match parse_entry_spec(s, k) {
                    Some(vv) => {
                        if pairs_has_key(acc, nk.0) {
                            None
                        } else {
                            let acc2 = acc.push((nk.0, vv.0));
                            let m = skip_ws_spec(s, vv.1);
                            if m < s.len() && s[m] == ',' {
                                let m2 = skip_ws_spec(s, m + 1);
                                parse_doc_pairs_spec(s, m2, acc2)
                            } else if m < s.len() && s[m] == '}' {
                                Some((acc2, m + 1))
                            } else {
                                None
                            }
                        }
                    },
                    None => None,
                }
            } else {
                None
            }
        },
        None => None,
    }
}

#[via_fn]
proof fn parse_doc_pairs_dec(s: Seq<char>, i: int, acc: Seq<(Seq<char>, EntryModel)>) {
    lemma_parse_string_bounds(s, i);
    match parse_string_spec(s, i) {
        Some(nk) => {
            lemma_skip_ws_bounds(s, nk.1);
            let j = skip_ws_spec(s, nk.1);
            if j < s.len() && s[j] == ':' {
                lemma_skip_ws_bounds(s, j + 1);
                let k = skip_ws_spec(s, j + 1);
                lemma_parse_entry_bounds(s, k);
                match parse_entry_spec(s, k) {
                    Some(vv) => {
                        lemma_skip_ws_bounds(s, vv.1);
                        let m = skip_ws_spec(s, vv.1);
                        if m < s.len() && s[m] == ',' {
                            lemma_skip_ws_bounds(s, m + 1);
                        }
                    },
                    None => {},
                }
            }
        },
        None => {},
    }
}

/// A store document starting exactly at i.
pub open spec fn parse_doc_spec(s: Seq<char>, i: int) -> Option<
    (Seq<(Seq<char>, EntryModel)>, int),
> {
    if 0 <= i < s.len() && s[i] == '{' {
        let j = skip_ws_spec(s, i + 1);
        if j < s.len() && s[j] == '}' {
            Some((Seq::empty(), j + 1))
        } else {
            parse_doc_pairs_spec(s, j, Seq::empty())
        }
    } else {
        None
    }
}

/// A whole text as one store document: nothing but whitespace around it.
pub open spec fn parse_doc_full_spec(s: Seq<char>) -> Option<Seq<(Seq<char>, EntryModel)>> {
    let i0 = skip_ws_spec(s, 0);
    match parse_doc_spec(s, i0) {
        Some(p) => if skip_ws_spec(s, p.1) == s.len() {
            Some(p.0)
        } else {
            None
        },
        None => None,
    }
}

/// Parsing a serialized pair list (with its closing brace) appends exactly
/// those pairs.
#[verifier::rlimit(100)]
#[verifier::spinoff_prover]
pub proof fn lemma_parse_dpairs_inv(
    s: Seq<char>,
    i: int,
    l: Seq<(Seq<char>, EntryModel)>,
    acc: Seq<(Seq<char>, EntryModel)>,
)
    requires
        l.len() >= 1,
        dpairs_unique(acc + l),
        dpairs_wf(l),
        frag_at(s, i, ser_dfields(l) + seq!['}']),
    ensures
        parse_doc_pairs_spec(s, i, acc) == Some((acc + l, i + ser_dfields(l).len() + 1)),
    decreases l.len(),
{
    let f = l[0];
    let rest = l.drop_first();
    let f0 = ser_string(f.0);
    let f2 = ser_entry(f.1);
    assert(wf_entry(f.1));
    assert(!pairs_has_key(acc, f.0)) by {
        assert((acc + l)[acc.len() as int] == f);
        assert(forall|t: int| 0 <= t < acc.len() ==> (acc + l)[t] == acc[t]);
    }
    if rest.len() == 0 {
        assert(ser_dfields(l) + seq!['}'] =~= f0 + (seq![':'] + (f2 + seq!['}'])));
        lemma_frag_concat(s, i, f0, seq![':'] + (f2 + seq!['}']));
        lemma_frag_concat(s, i + f0.len(), seq![':'], f2 + seq!['}']);
        lemma_frag_concat(s, i + f0.len() + 1, f2, seq!['}']);
        lemma_parse_string_inv(s, i, f.0);
        let i1 = i + f0.len();
        lemma_frag_index(s, i1, seq![':'], 0);
        assert(skip_ws_spec(s, i1) == i1);
        let k = i1 + 1;
        let m = k + f2.len();
        lemma_frag_index(s, m, seq!['}'], 0);
        assert(s[m] == '}');
        lemma_parse_entry_inv(s, k, f.1);
        assert(skip_ws_spec(s, m) == m);
        assert(acc.push(f) =~= acc + l);
    } else {
        assert(ser_dfields_rest(rest) == seq![','] + ser_dfield(rest[0]) + ser_dfields_rest(
            rest.drop_first(),
        ));
        assert(ser_dfields(l) + seq!['}'] =~= f0 + (seq![':'] + (f2 + (seq![','] + (ser_dfields(
            rest,
        ) + seq!['}'])))));
        lemma_frag_concat(s, i, f0, seq![':'] + (f2 + (seq![','] + (ser_dfields(rest)
            + seq!['}']))));
        lemma_frag_concat(s, i + f0.len(), seq![':'], f2 + (seq![','] + (ser_dfields(rest)
            + seq!['}'])));
        lemma_frag_concat(s, i + f0.len() + 1, f2, seq![','] + (ser_dfields(rest) + seq!['}']));
        lemma_frag_concat(s, i + f0.len() + 1 + f2.len(), seq![','], ser_dfields(rest)
            + seq!['}']);
        lemma_parse_string_inv(s, i, f.0);
        let i1 = i + f0.len();
        lemma_frag_index(s, i1, seq![':'], 0);
        assert(skip_ws_spec(s, i1) == i1);
        let k = i1 + 1;
        let m = k + f2.len();
        lemma_frag_index(s, m, seq![','], 0);
        assert(s[m] == ',');
        lemma_parse_entry_inv(s, k, f.1);
        assert(skip_ws_spec(s, m) == m);
        let m2 = m + 1;
        assert(ser_dfields(rest)[0] == '"') by {
            assert(ser_dfields(rest) == ser_dfield(rest[0]) + ser_dfields_rest(
                rest.drop_first(),
            ));
            assert(ser_string(rest[0].0)[0] == '"');
        }
        assert(frag_at(s, m2, ser_dfields(rest) + seq!['}']));
        lemma_frag_index(s, m2, ser_dfields(rest) + seq!['}'], 0);
        assert(s[m2] == '"');
        assert(skip_ws_spec(s, m2) == m2);
        assert(dpairs_wf(rest)) by {
            assert(forall|k2: int| 0 <= k2 < rest.len() ==> rest[k2] == l[k2 + 1]);
        }
        assert(acc.push(f) + rest =~= acc + l);
        assert(dpairs_unique(acc.push(f) + rest));
        lemma_parse_dpairs_inv(s, m2, rest, acc.push(f));
    }
}

/// Law: a store saved as a JSON document and read back parses to exactly
/// the key/entry pairs that were saved — the mapping survives the round
/// trip.
pub proof fn lemma_store_round_trip(l: Seq<(Seq<char>, EntryModel)>)
    requires
        dpairs_unique(l),
        dpairs_wf(l),
    ensures
        parse_doc_full_spec(ser_doc(l)) == Some(l),
{
    let s = ser_doc(l);
    assert(frag_at(s, 0, ser_doc(l))) by {
        assert(s.subrange(0, s.len() as int) =~= s);
    }
    assert(s =~= seq!['{'] + (ser_dfields(l) + seq!['}']));
    lemma_frag_concat(s, 0, seq!['{'], ser_dfields(l) + seq!['}']);
    lemma_frag_index(s, 0, seq!['{'], 0);
    assert(s[0] == '{');
    assert(skip_ws_spec(s, 0) == 0);
    if l.len() == 0 {
        lemma_frag_index(s, 1, ser_dfields(l) + seq!['}'], 0);
        assert(s[1] == '}');
        assert(skip_ws_spec(s, 1) == 1);
        assert(skip_ws_spec(s, 2) == 2 == s.len());
        assert(parse_doc_full_spec(s) == Some(Seq::<(Seq<char>, EntryModel)>::empty()));
        assert(Seq::<(Seq<char>, EntryModel)>::empty() =~= l);
    } else {
        assert(ser_dfields(l)[0] == '"') by {
            assert(ser_dfields(l) == ser_dfield(l[0]) + ser_dfields_rest(l.drop_first()));
            assert(ser_string(l[0].0)[0] == '"');
        }
        lemma_frag_index(s, 1, ser_dfields(l) + seq!['}'], 0);
        assert(s[1] == '"');
        assert(skip_ws_spec(s, 1) == 1);
        assert(Seq::<(Seq<char>, EntryModel)>::empty() + l =~= l);
        assert(dpairs_unique(Seq::<(Seq<char>, EntryModel)>::empty() + l));
        lemma_parse_dpairs_inv(s, 1, l, Seq::empty());
        let end: int = 1 + ser_dfields(l).len() as int + 1;
        assert(end == s.len());
        assert(skip_ws_spec(s, end) == end);
    }
}

// ---------------------------------------------------------------------------
// Executable entry and document writers.
// ---------------------------------------------------------------------------

/// Appends one serialized field value.
fn write_jval(out: &mut String, v: &JsonValX)
    ensures
        final(out)@ == old(out)@ + ser_jval(v@),
{
    match v {
        JsonValX::XStr(x) => {
            write_json_string(out, x.as_str());
        },
        JsonValX::XNum(n) => {
            write_i64(out, *n);
        },
        JsonValX::XCtx(c) => {
            write_ctx(out, c);
        },
    }
}

pub proof fn lemma_jrest_append(a: Seq<(Seq<char>, JsonVal)>, b: Seq<(Seq<char>, JsonVal)>)
    ensures
        ser_jfields_rest(a + b) == ser_jfields_rest(a) + ser_jfields_rest(b),
    decreases a.len(),
{
    if a.len() == 0 {
        assert(a + b =~= b);
        assert(ser_jfields_rest(a) + ser_jfields_rest(b) =~= ser_jfields_rest(b));
    } else {
        lemma_jrest_append(a.drop_first(), b);
        assert((a + b)[0] == a[0]);
        assert((a + b).drop_first() =~= a.drop_first() + b);
        assert(ser_jfields_rest(a + b) =~= ser_jfields_rest(a) + ser_jfields_rest(b));
    }
}

pub proof fn lemma_jrest_one(f: (Seq<char>, JsonVal))
    ensures
        ser_jfields_rest(seq![f]) == seq![','] + ser_jfield(f),
{
    assert(seq![f][0] == f);
    assert(seq![f].drop_first() =~= Seq::<(Seq<char>, JsonVal)>::empty());
    assert(ser_jfields_rest(Seq::<(Seq<char>, JsonVal)>::empty()) == Seq::<char>::empty());
    assert(ser_jfields_rest(seq![f]) =~= seq![','] + ser_jfield(f));
}

proof fn lemma_seq_assoc(a: Seq<char>, b: Seq<char>, c: Seq<char>)
    ensures
        a + (b + c) == (a + b) + c,
{
    assert(a + (b + c) =~= (a + b) + c);
}

/// The optional-field contribution to an entry's serialization: a leading
/// comma and one field for each present optional field.
pub open spec fn ser_jrest_opt(name: Seq<char>, v: Option<Seq<char>>) -> Seq<char> {
    ser_jfields_rest(opt_jfield(name, v))
}

proof fn lemma_jrest_opt(name: Seq<char>, v: Option<Seq<char>>)
    ensures
        v is Some ==> ser_jrest_opt(name, v) == seq![','] + ser_jfield(
            (name, JsonVal::VStr(v->Some_0)),
        ),
        v is None ==> ser_jrest_opt(name, v) == Seq::<char>::empty(),
{
    match v {
        Some(x) => {
            lemma_jrest_one((name, JsonVal::VStr(x)));
        },
        None => {},
    }
}

/// The serialization of an entry's field list, split into its head field
/// and the comma-led rest of the fields.
#[verifier::rlimit(100)]
#[verifier::spinoff_prover]
proof fn lemma_entry_fields_split(e: EntryModel)
    ensures
        ser_jfields(entry_fields(e)) == ser_jfield(("sessionId"@, JsonVal::VStr(e.session_id)))
            + (seq![','] + ser_jfield(("updatedAt"@, JsonVal::VNum(e.updated_at))))
            + ser_jrest_opt("sessionFile"@, e.session_file) + ser_jfields_rest(
            match e.delivery_context {
                Some(c) => seq![("deliveryContext"@, JsonVal::VCtx(c))],
                None => Seq::<(Seq<char>, JsonVal)>::empty(),
            },
        ) + ser_jrest_opt("lastChannel"@, e.last_channel) + ser_jrest_opt("lastTo"@, e.last_to)
            + ser_jrest_opt("lastAccountId"@, e.last_account_id) + ser_jrest_opt(
            "lastThreadId"@,
            e.last_thread_id,
        ) + ser_jrest_opt("webhookMessageId"@, e.webhook_message_id) + ser_jrest_opt(
            "webhookSessionId"@,
            e.webhook_session_id,
        ),
{
    let f0 = ("sessionId"@, JsonVal::VStr(e.session_id));
    let f1 = ("updatedAt"@, JsonVal::VNum(e.updated_at));
    let g1 = opt_jfield("sessionFile"@, e.session_file);
    let g2: Seq<(Seq<char>, JsonVal)> = match e.delivery_context {
        Some(c) => seq![("deliveryContext"@, JsonVal::VCtx(c))],
        None => Seq::empty(),
    };
    let g3 = opt_jfield("lastChannel"@, e.last_channel);
    let g4 = opt_jfield("lastTo"@, e.last_to);
    let g5 = opt_jfield("lastAccountId"@, e.last_account_id);
    let g6 = opt_jfield("lastThreadId"@, e.last_thread_id);
    let g7 = opt_jfield("webhookMessageId"@, e.webhook_message_id);
    let g8 = opt_jfield("webhookSessionId"@, e.webhook_session_id);
    let fl = entry_fields(e);
    assert(fl[0] == f0);
    assert(fl.drop_first() =~= seq![f1] + (g1 + (g2 + (g3 + (g4 + (g5 + (g6 + (g7 + g8))))))));
    assert(ser_jfields(fl) == ser_jfield(f0) + ser_jfields_rest(fl.drop_first()));
    lemma_jrest_append(seq![f1], g1 + (g2 + (g3 + (g4 + (g5 + (g6 + (g7 + g8)))))));
    lemma_jrest_append(g1, g2 + (g3 + (g4 + (g5 + (g6 + (g7 + g8))))));
    lemma_jrest_append(g2, g3 + (g4 + (g5 + (g6 + (g7 + g8)))));
    lemma_jrest_append(g3, g4 + (g5 + (g6 + (g7 + g8))));
    lemma_jrest_append(g4, g5 + (g6 + (g7 + g8)));
    lemma_jrest_append(g5, g6 + (g7 + g8));
    lemma_jrest_append(g6, g7 + g8);
    lemma_jrest_append(g7, g8);
    lemma_jrest_one(f1);
    let c1 = seq![','] + ser_jfield(f1);
    let r1 = ser_jfields_rest(g1);
    let r2 = ser_jfields_rest(g2);
    let r3 = ser_jfields_rest(g3);
    let r4 = ser_jfields_rest(g4);
    let r5 = ser_jfields_rest(g5);
    let r6 = ser_jfields_rest(g6);
    let r7 = ser_jfields_rest(g7);
    let r8 = ser_jfields_rest(g8);
    assert(ser_jfields(fl) == ser_jfield(f0) + (c1 + (r1 + (r2 + (r3 + (r4 + (r5 + (r6 + (r7
        + r8)))))))));
    lemma_seq_assoc(ser_jfield(f0), c1, r1 + (r2 + (r3 + (r4 + (r5 + (r6 + (r7 + r8)))))));
    let t1 = ser_jfield(f0) + c1;
    lemma_seq_assoc(t1, r1, r2 + (r3 + (r4 + (r5 + (r6 + (r7 + r8))))));
    let t2 = t1 + r1;
    lemma_seq_assoc(t2, r2, r3 + (r4 + (r5 + (r6 + (r7 + r8)))));
    let t3 = t2 + r2;
    lemma_seq_assoc(t3, r3, r4 + (r5 + (r6 + (r7 + r8))));
    let t4 = t3 + r3;
    lemma_seq_assoc(t4, r4, r5 + (r6 + (r7 + r8)));
    let t5 = t4 + r4;
    lemma_seq_assoc(t5, r5, r6 + (r7 + r8));
    let t6 = t5 + r5;
    lemma_seq_assoc(t6, r6, r7 + r8);
    let t7 = t6 + r6;
    lemma_seq_assoc(t7, r7, r8);
}

/// The optional fields' contribution to an entry's serialization.
pub open spec fn opts_contrib(e: EntryModel) -> Seq<char> {
    ser_jrest_opt("sessionFile"@, e.session_file) + ser_jfields_rest(
        match e.delivery_context {
            Some(c) => seq![("deliveryContext"@, JsonVal::VCtx(c))],
            None => Seq::<(Seq<char>, JsonVal)>::empty(),
        },
    ) + ser_jrest_opt("lastChannel"@, e.last_channel) + ser_jrest_opt("lastTo"@, e.last_to)
        + ser_jrest_opt("lastAccountId"@, e.last_account_id) + ser_jrest_opt(
        "lastThreadId"@,
        e.last_thread_id,
    ) + ser_jrest_opt("webhookMessageId"@, e.webhook_message_id) + ser_jrest_opt(
        "webhookSessionId"@,
        e.webhook_session_id,
    )
}

/// The first half of the optional fields' contribution.
pub open spec fn opts_contrib_a(e: EntryModel) -> Seq<char> {
    ser_jrest_opt("sessionFile"@, e.session_file) + ser_jfields_rest(
        match e.delivery_context {
            Some(c) => seq![("deliveryContext"@, JsonVal::VCtx(c))],
            None => Seq::<(Seq<char>, JsonVal)>::empty(),
        },
    ) + ser_jrest_opt("lastChannel"@, e.last_channel) + ser_jrest_opt("lastTo"@, e.last_to)
}

/// The second half of the optional fields' contribution.
pub open spec fn opts_contrib_b(e: EntryModel) -> Seq<char> {
    ser_jrest_opt("lastAccountId"@, e.last_account_id) + ser_jrest_opt(
        "lastThreadId"@,
        e.last_thread_id,
    ) + ser_jrest_opt("webhookMessageId"@, e.webhook_message_id) + ser_jrest_opt(
        "webhookSessionId"@,
        e.webhook_session_id,
    )
}

proof fn lemma_opts_contrib_halves(e: EntryModel)
    ensures
        opts_contrib(e) == opts_contrib_a(e) + opts_contrib_b(e),
{
    let a = opts_contrib_a(e);
    let r5 = ser_jrest_opt("lastAccountId"@, e.last_account_id);
    let r6 = ser_jrest_opt("lastThreadId"@, e.last_thread_id);
    let r7 = ser_jrest_opt("webhookMessageId"@, e.webhook_message_id);
    let r8 = ser_jrest_opt("webhookSessionId"@, e.webhook_session_id);
    lemma_seq_assoc(a, r5, r6);
    lemma_seq_assoc(a, r5 + r6, r7);
    lemma_seq_assoc(a, (r5 + r6) + r7, r8);
}

#[verifier::rlimit(100)]
#[verifier::spinoff_prover]
fn write_entry_opts_a(out: &mut String, e: &SessionEntry)
    ensures
        final(out)@ == old(out)@ + opts_contrib_a(e@),
{
    let ghost base = old(out)@;
    if let Some(x) = &e.session_file {
        write_opt_str_field(out, "sessionFile", x.as_str());
    }
    let ghost r1 = ser_jrest_opt("sessionFile"@, opt_of(&e.session_file));
    let ghost mut inner = r1;
    proof {
        lemma_jrest_opt("sessionFile"@, opt_of(&e.session_file));
        assert(out@ == base + inner);
    }
    if let Some(c) = &e.delivery_context {
        string_push(out, ',');
        write_json_string(out, "deliveryContext");
        string_push(out, ':');
        write_ctx(out, c);
        proof {
            lemma_jrest_one(("deliveryContext"@, JsonVal::VCtx(c@)));
            assert(out@ =~= (base + inner) + ser_jfields_rest(
                seq![("deliveryContext"@, JsonVal::VCtx(c@))],
            ));
        }
    }
    let ghost g2: Seq<(Seq<char>, JsonVal)> = match &e.delivery_context {
        Some(c) => seq![("deliveryContext"@, JsonVal::VCtx(c@))],
        None => Seq::empty(),
    };
    proof {
        if e.delivery_context is None {
            assert(ser_jfields_rest(g2) == Seq::<char>::empty());
            assert((base + inner) + ser_jfields_rest(g2) =~= base + inner);
        }
        lemma_seq_assoc(base, inner, ser_jfields_rest(g2));
        inner = inner + ser_jfields_rest(g2);
        assert(out@ == base + inner);
    }
    if let Some(x) = &e.last_channel {
        write_opt_str_field(out, "lastChannel", x.as_str());
    }
    proof {
        lemma_jrest_opt("lastChannel"@, opt_of(&e.last_channel));
        lemma_seq_assoc(base, inner, ser_jrest_opt("lastChannel"@, opt_of(&e.last_channel)));
        inner = inner + ser_jrest_opt("lastChannel"@, opt_of(&e.last_channel));
        assert(out@ == base + inner);
    }
    if let Some(x) = &e.last_to {
        write_opt_str_field(out, "lastTo", x.as_str());
    }
    proof {
        lemma_jrest_opt("lastTo"@, opt_of(&e.last_to));
        lemma_seq_assoc(base, inner, ser_jrest_opt("lastTo"@, opt_of(&e.last_to)));
        inner = inner + ser_jrest_opt("lastTo"@, opt_of(&e.last_to));
        assert(out@ == base + inner);
        assert(inner == opts_contrib_a(e@));
    }
}

#[verifier::rlimit(100)]
#[verifier::spinoff_prover]
fn write_entry_opts_b(out: &mut String, e: &SessionEntry)
    ensures
        final(out)@ == old(out)@ + opts_contrib_b(e@),
{
    let ghost base = old(out)@;
    if let Some(x) = &e.last_account_id {
        write_opt_str_field(out, "lastAccountId", x.as_str());
    }
    let ghost mut inner = ser_jrest_opt("lastAccountId"@, opt_of(&e.last_account_id));
    proof {
        lemma_jrest_opt("lastAccountId"@, opt_of(&e.last_account_id));
        assert(out@ == base + inner);
    }
    if let Some(x) = &e.last_thread_id {
        write_opt_str_field(out, "lastThreadId", x.as_str());
    }
    proof {
        lemma_jrest_opt("lastThreadId"@, opt_of(&e.last_thread_id));
        lemma_seq_assoc(base, inner, ser_jrest_opt("lastThreadId"@, opt_of(&e.last_thread_id)));
        inner = inner + ser_jrest_opt("lastThreadId"@, opt_of(&e.last_thread_id));
        assert(out@ == base + inner);
    }
    if let Some(x) = &e.webhook_message_id {
        write_opt_str_field(out, "webhookMessageId", x.as_str());
    }
    proof {
        lemma_jrest_opt("webhookMessageId"@, opt_of(&e.webhook_message_id));
        lemma_seq_assoc(base, inner, ser_jrest_opt(
            "webhookMessageId"@,
            opt_of(&e.webhook_message_id),
        ));
        inner = inner + ser_jrest_opt("webhookMessageId"@, opt_of(&e.webhook_message_id));
        assert(out@ == base + inner);
    }
    if let Some(x) = &e.webhook_session_id {
        write_opt_str_field(out, "webhookSessionId", x.as_str());
    }
    proof {
        lemma_jrest_opt("webhookSessionId"@, opt_of(&e.webhook_session_id));
        lemma_seq_assoc(base, inner, ser_jrest_opt(
            "webhookSessionId"@,
            opt_of(&e.webhook_session_id),
        ));
        inner = inner + ser_jrest_opt("webhookSessionId"@, opt_of(&e.webhook_session_id));
        assert(out@ == base + inner);
        assert(inner == opts_contrib_b(e@));
    }
}

/// Appends the optional fields of an entry, each with its leading comma.
fn write_entry_opts(out: &mut String, e: &SessionEntry)
    ensures
        final(out)@ == old(out)@ + opts_contrib(e@),
{
    let ghost base = old(out)@;
    write_entry_opts_a(out, e);
    write_entry_opts_b(out, e);
    proof {
        lemma_seq_assoc(base, opts_contrib_a(e@), opts_contrib_b(e@));
        lemma_opts_contrib_halves(e@);
    }
}

/// An entry's serialization, as the head fields followed by the optional
/// fields' contribution.
proof fn lemma_entry_assemble(e: EntryModel)
    ensures
        ser_entry(e) == seq!['{'] + (ser_jfield(("sessionId"@, JsonVal::VStr(e.session_id))) + (
        seq![','] + ser_jfield(("updatedAt"@, JsonVal::VNum(e.updated_at)))) + opts_contrib(e))
            + seq!['}'],
{
    lemma_entry_fields_split(e);
    let f0s = ser_jfield(("sessionId"@, JsonVal::VStr(e.session_id)));
    let c1 = seq![','] + ser_jfield(("updatedAt"@, JsonVal::VNum(e.updated_at)));
    let t1 = f0s + c1;
    let r1 = ser_jrest_opt("sessionFile"@, e.session_file);
    let r2 = ser_jfields_rest(
        match e.delivery_context {
            Some(c) => seq![("deliveryContext"@, JsonVal::VCtx(c))],
            None => Seq::<(Seq<char>, JsonVal)>::empty(),
        },
    );
    let r3 = ser_jrest_opt("lastChannel"@, e.last_channel);
    let r4 = ser_jrest_opt("lastTo"@, e.last_to);
    let r5 = ser_jrest_opt("lastAccountId"@, e.last_account_id);
    let r6 = ser_jrest_opt("lastThreadId"@, e.last_thread_id);
    let r7 = ser_jrest_opt("webhookMessageId"@, e.webhook_message_id);
    let r8 = ser_jrest_opt("webhookSessionId"@, e.webhook_session_id);
    lemma_seq_assoc(t1, r1, r2);
    lemma_seq_assoc(t1, r1 + r2, r3);
    lemma_seq_assoc(t1, r1 + r2 + r3, r4);
    lemma_seq_assoc(t1, r1 + r2 + r3 + r4, r5);
    lemma_seq_assoc(t1, r1 + r2 + r3 + r4 + r5, r6);
    lemma_seq_assoc(t1, r1 + r2 + r3 + r4 + r5 + r6, r7);
    lemma_seq_assoc(t1, r1 + r2 + r3 + r4 + r5 + r6 + r7, r8);
}

/// Appends a serialized entry object to the output.
#[verifier::rlimit(100)]
#[verifier::spinoff_prover]
pub fn write_entry(out: &mut String, e: &SessionEntry)
    ensures
        final(out)@ == old(out)@ + ser_entry(e@),
{
    let ghost base = old(out)@ + seq!['{'];
    string_push(out, '{');
    write_json_string(out, "sessionId");
    string_push(out, ':');
    write_json_string(out, e.session_id.as_str());
    string_push(out, ',');
    write_json_string(out, "updatedAt");
    string_push(out, ':');
    write_i64(out, e.updated_at);
    let ghost f0s = ser_jfield(("sessionId"@, JsonVal::VStr(e.session_id@)));
    let ghost c1 = seq![','] + ser_jfield(("updatedAt"@, JsonVal::VNum(e.updated_at as int)));
    let ghost head = f0s + c1;
    proof {
        assert(old(out)@.push('{') =~= base);
        assert(out@ =~= base + head);
    }
    write_entry_opts(out, e);
    proof {
        lemma_seq_assoc(base, head, opts_contrib(e@));
        assert(out@ == base + (head + opts_contrib(e@)));
    }
    string_push(out, '}');
    proof {
        lemma_entry_assemble(e@);
        let inner = head + opts_contrib(e@);
        assert((base + inner).push('}') =~= base + inner + seq!['}']);
        lemma_seq_assoc(old(out)@, seq!['{'], inner);
        lemma_seq_assoc(old(out)@, seq!['{'] + inner, seq!['}']);
        lemma_seq_assoc(seq!['{'], inner, seq!['}']);
        assert(final(out)@ == old(out)@ + ser_entry(e@));
    }
}

/// View of a borrowed optional string.
pub open spec fn opt_of(o: &Option<String>) -> Option<Seq<char>> {
    match o {
        Some(s) => Some(s@),
        None => None,
    }
}

/// Appends a comma and one string-valued field.
fn write_opt_str_field(out: &mut String, name: &str, value: &str)
    ensures
        final(out)@ == old(out)@ + seq![','] + ser_jfield((name@, JsonVal::VStr(value@))),
{
    string_push(out, ',');
    write_json_string(out, name);
    string_push(out, ':');
    write_json_string(out, value);
    proof {
        assert(final(out)@ =~= old(out)@ + seq![','] + ser_jfield(
            (name@, JsonVal::VStr(value@)),
        ));
    }
}

/// The key/entry pairs a stored mapping denotes, in storage order.
pub open spec fn pairs_of(entries: Seq<(String, SessionEntry)>) -> Seq<(Seq<char>, EntryModel)> {
    Seq::new(entries.len(), |i: int| (entries[i].0@, entries[i].1@))
}

/// Serializes the whole mapping as one compact JSON object.
#[verifier::rlimit(100)]
#[verifier::spinoff_prover]
pub fn serialize_store(m: &SessionMap) -> (out: String)
    ensures
        out@ == ser_doc(pairs_of(m.entries@)),
{
    let mut out = String::new();
    string_push(&mut out, '{');
    let ghost mut w: Seq<(Seq<char>, EntryModel)> = Seq::empty();
    let n = m.entries.len();
    let mut i: usize = 0;
    while i < n
        invariant
            n == m.entries@.len(),
            0 <= i <= n,
            w == pairs_of(m.entries@.subrange(0, i as int)),
            w.len() == i,
            out@ == seq!['{'] + ser_dfields(w),
        decreases n - i,
    {
        if i > 0 {
            string_push(&mut out, ',');
        }
        let pair = &m.entries[i];
        write_json_string(&mut out, pair.0.as_str());
        string_push(&mut out, ':');
        write_entry(&mut out, &pair.1);
        proof {
            lemma_ser_dfields_snoc(w, (pair.0@, pair.1@));
            w = w.push((pair.0@, pair.1@));
            assert(w =~= pairs_of(m.entries@.subrange(0, i + 1 as int)));
            assert(out@ =~= seq!['{'] + ser_dfields(w));
        }
        i += 1;
    }
    string_push(&mut out, '}');
    proof {
        assert(m.entries@.subrange(0, n as int) =~= m.entries@);
        assert(out@ =~= ser_doc(pairs_of(m.entries@)));
    }
    out
}

// ---------------------------------------------------------------------------
// Executable entry and document parsers.
// ---------------------------------------------------------------------------

/// A parsed field value.
pub enum JsonValX {
    XStr(String),
    XNum(i64),
    XCtx(DeliveryContext),
}

impl View for JsonValX {
    type V = JsonVal;

    open spec fn view(&self) -> JsonVal {
        match self {
            JsonValX::XStr(x) => JsonVal::VStr(x@),
            JsonValX::XNum(n) => JsonVal::VNum(*n as int),
            JsonValX::XCtx(c) => JsonVal::VCtx(c@),
        }
    }
}

/// Parses one field value starting exactly at i.
fn p_jval(s: &str, i: usize) -> (r: Option<(JsonValX, usize)>)
    requires
        i <= s@.len(),
    ensures
        match r {
            Some(p) => {
                &&& parse_jval_spec(s@, i as int) == Some((p.0@, p.1 as int))
                &&& i < p.1 <= s@.len()
            },
            None => parse_jval_spec(s@, i as int) is None,
        },
{
    let n = s.unicode_len();
    if i >= n {
        return None;
    }
    let c = s.get_char(i);
    if c == '"' {
        match p_string(s, i) {
            Some(p) => Some((JsonValX::XStr(p.0), p.1)),
            None => None,
        }
    } else if c == '{' {
        match p_ctx(s, i) {
            Some(p) => Some((JsonValX::XCtx(p.0), p.1)),
            None => None,
        }
    } else {
        match p_num(s, i) {
            Some(p) => Some((JsonValX::XNum(p.0), p.1)),
            None => None,
        }
    }
}

/// An entry's fields while parsing.
pub struct EntryAccX {
    pub session_id: Option<String>,
    pub updated_at: Option<i64>,
    pub session_file: Option<String>,
    pub delivery_context: Option<DeliveryContext>,
    pub last_channel: Option<String>,
    pub last_to: Option<String>,
    pub last_account_id: Option<String>,
    pub last_thread_id: Option<String>,
    pub webhook_message_id: Option<String>,
    pub webhook_session_id: Option<String>,
}

impl View for EntryAccX {
    type V = EntryAcc;

    open spec fn view(&self) -> EntryAcc {
        EntryAcc {
            session_id: match self.session_id {
                Some(x) => Some(x@),
                None => None,
            },
            updated_at: match self.updated_at {
                Some(t) => Some(t as int),
                None => None,
            },
            session_file: match self.session_file {
                Some(x) => Some(x@),
                None => None,
            },
            delivery_context: match self.delivery_context {
                Some(c) => Some(c@),
                None => None,
            },
            last_channel: match self.last_channel {
                Some(x) => Some(x@),
                None => None,
            },
            last_to: match self.last_to {
                Some(x) => Some(x@),
                None => None,
            },
            last_account_id: match self.last_account_id {
                Some(x) => Some(x@),
                None => None,
            },
            last_thread_id: match self.last_thread_id {
                Some(x) => Some(x@),
                None => None,
            },
            webhook_message_id: match self.webhook_message_id {
                Some(x) => Some(x@),
                None => None,
            },
            webhook_session_id: match self.webhook_session_id {
                Some(x) => Some(x@),
                None => None,
            },
        }
    }
}

/// Applies one parsed field to an entry under construction.
#[verifier::rlimit(100)]
#[verifier::spinoff_prover]
fn apply_entry_field_x(acc: EntryAccX, name: &str, v: JsonValX) -> (r: Option<EntryAccX>)
    ensures
        match r {
            Some(a2) => apply_entry_field(acc@, name@, v@) == Some(a2@),
            None => apply_entry_field(acc@, name@, v@) is None,
        },
{
    if str_eq(name, "sessionId") {
        match v {
            JsonValX::XStr(x) => Some(EntryAccX { session_id: Some(x), ..acc }),
            _ => None,
        }
    } else if str_eq(name, "updatedAt") {
        match v {
            JsonValX::XNum(n) => Some(EntryAccX { updated_at: Some(clamp_time_exec(n)), ..acc }),
            _ => None,
        }
    } else if str_eq(name, "sessionFile") {
        match v {
            JsonValX::XStr(x) => Some(EntryAccX { session_file: Some(x), ..acc }),
            _ => None,
        }
    } else if str_eq(name, "deliveryContext") {
        match v {
            JsonValX::XCtx(c) => Some(EntryAccX { delivery_context: Some(c), ..acc }),
            _ => None,
        }
    } else if str_eq(name, "lastChannel") {
        match v {
            JsonValX::XStr(x) => Some(EntryAccX { last_channel: Some(x), ..acc }),
            _ => None,
        }
    } else if str_eq(name, "lastTo") {
        match v {
            JsonValX::XStr(x) => Some(EntryAccX { last_to: Some(x), ..acc }),
            _ => None,
        }
    } else if str_eq(name, "lastAccountId") {
        match v {
            JsonValX::XStr(x) => Some(EntryAccX { last_account_id: Some(x), ..acc }),
            _ => None,
        }
    } else if str_eq(name, "lastThreadId") {
        match v {
            JsonValX::XStr(x) => Some(EntryAccX { last_thread_id: Some(x), ..acc }),
            _ => None,
        }
    } else if str_eq(name, "webhookMessageId") {
        match v {
            JsonValX::XStr(x) => Some(EntryAccX { webhook_message_id: Some(x), ..acc }),
            _ => None,
        }
    } else if str_eq(name, "webhookSessionId") {
        match v {
            JsonValX::XStr(x) => Some(EntryAccX { webhook_session_id: Some(x), ..acc }),
            _ => None,
        }
    } else {
        Some(acc)
    }
}

/// Parses the fields of an entry object from a cursor.
fn p_entry_fields(s: &str, i: usize, acc: EntryAccX) -> (r: Option<(EntryAccX, usize)>)
    requires
        i <= s@.len(),
    ensures
        match r {
            Some(p) => {
                &&& parse_entry_fields_spec(s@, i as int, acc@) == Some((p.0@, p.1 as int))
                &&& i < p.1 <= s@.len()
            },
            None => parse_entry_fields_spec(s@, i as int, acc@) is None,
        },
    decreases s@.len() - i,
{
    let n = s.unicode_len();
    let nk = match p_string(s, i) {
        Some(p) => p,
        None => {
            return None;
        },
    };
    let j = p_skip_ws(s, nk.1);
    if !(j < n && s.get_char(j) == ':') {
        return None;
    }
    let k = p_skip_ws(s, j + 1);
    let vv = match p_jval(s, k) {
        Some(p) => p,
        None => {
            return None;
        },
    };
    let acc2 = match apply_entry_field_x(acc, nk.0.as_str(), vv.0) {
        Some(a) => a,
        None => {
            return None;
        },
    };
    let m = p_skip_ws(s, vv.1);
    if m < n && s.get_char(m) == ',' {
        let m2 = p_skip_ws(s, m + 1);
        p_entry_fields(s, m2, acc2)
    } else if m < n && s.get_char(m) == '}' {
        Some((acc2, m + 1))
    } else {
        None
    }
}

/// Parses an entry object starting exactly at i.
pub fn p_entry(s: &str, i: usize) -> (r: Option<(SessionEntry, usize)>)
    requires
        i <= s@.len(),
    ensures
        match r {
            Some(p) => {
                &&& parse_entry_spec(s@, i as int) == Some((p.0@, p.1 as int))
                &&& i < p.1 <= s@.len()
                &&& wf_entry(p.0@)
            },
            None => parse_entry_spec(s@, i as int) is None,
        },
{
    let n = s.unicode_len();
    if i >= n {
        return None;
    }
    if s.get_char(i) != '{' {
        return None;
    }
    let j = p_skip_ws(s, i + 1);
    if j < n && s.get_char(j) == '}' {
        return None;
    }
    let acc0 = EntryAccX {
        session_id: None,
        updated_at: None,
        session_file: None,
        delivery_context: None,
        last_channel: None,
        last_to: None,
        last_account_id: None,
        last_thread_id: None,
        webhook_message_id: None,
        webhook_session_id: None,
    };
    let (accx, end) = match p_entry_fields(s, j, acc0) {
        Some(p) => p,
        None => {
            return None;
        },
    };
    let sid = match accx.session_id {
        Some(x) => x,
        None => {
            return None;
        },
    };
    let t = match accx.updated_at {
        Some(t) => t,
        None => {
            return None;
        },
    };
    if t < 0 {
        return None;
    }
    Some((
        SessionEntry {
            session_id: sid,
            updated_at: t,
            session_file: accx.session_file,
            delivery_context: accx.delivery_context,
            last_channel: accx.last_channel,
            last_to: accx.last_to,
            last_account_id: accx.last_account_id,
            last_thread_id: accx.last_thread_id,
            webhook_message_id: accx.webhook_message_id,
            webhook_session_id: accx.webhook_session_id,
        },
        end,
    ))
}

/// Parses the key/entry pairs of a store document from a cursor, rejecting
/// duplicate keys.
fn p_doc_pairs(s: &str, i: usize, acc: SessionMap) -> (r: Option<(SessionMap, usize)>)
    requires
        i <= s@.len(),
        acc.wf(),
    ensures
        match r {
            Some(p) => {
                &&& p.0.wf()
                &&& parse_doc_pairs_spec(s@, i as int, pairs_of(acc.entries@)) == Some(
                    (pairs_of(p.0.entries@), p.1 as int),
                )
                &&& i < p.1 <= s@.len()
            },
            None => parse_doc_pairs_spec(s@, i as int, pairs_of(acc.entries@)) is None,
        },
    decreases s@.len() - i,
{
    let n = s.unicode_len();
    let nk = match p_string(s, i) {
        Some(p) => p,
        None => {
            return None;
        },
    };
    let j = p_skip_ws(s, nk.1);
    if !(j < n && s.get_char(j) == ':') {
        return None;
    }
    let k = p_skip_ws(s, j + 1);
    let vv = match p_entry(s, k) {
        Some(p) => p,
        None => {
            return None;
        },
    };
    let mut acc2 = acc;
    match acc2.find_index(nk.0.as_str()) {
        Some(ix) => {
            proof {
                assert(pairs_of(acc2.entries@)[ix as int].0 == acc2.entries@[ix as int].0@);
                assert(pairs_has_key(pairs_of(acc2.entries@), nk.0@));
            }
            return None;
        },
        None => {},
    }
    proof {
        assert(!pairs_has_key(pairs_of(acc2.entries@), nk.0@)) by {
            assert(forall|t: int| 0 <= t < acc2.entries@.len() ==> pairs_of(acc2.entries@)[t].0
                == acc2.entries@[t].0@);
        }
    }
    let ghost old_entries = acc2.entries@;
    let ghost old_pairs = pairs_of(acc2.entries@);
    let ghost new_key: Seq<char> = nk.0@;
    let ghost new_entry = vv.0@;
    acc2.entries.push((nk.0, vv.0));
    proof {
        assert(forall|t: int| 0 <= t < old_entries.len() ==> acc2.entries@[t] == old_entries[t]);
        assert(acc2.entries@.last().0@ == new_key && acc2.entries@.last().1@ == new_entry);
        assert(pairs_of(acc2.entries@) =~= old_pairs.push((new_key, new_entry)));
        assert(unique_keys(acc2.entries@));
        assert(forall|t: int| 0 <= t < acc2.entries@.len() ==> wf_entry(
            #[trigger] acc2.entries@[t].1@,
        ));
        assert(acc2.wf());
    }
    let m = p_skip_ws(s, vv.1);
    if m < n && s.get_char(m) == ',' {
        let m2 = p_skip_ws(s, m + 1);
        p_doc_pairs(s, m2, acc2)
    } else if m < n && s.get_char(m) == '}' {
        Some((acc2, m + 1))
    } else {
        None
    }
}

/// Parses a whole text as a store document.
pub fn parse_store(text: &str) -> (r: Option<SessionMap>)
    ensures
        match r {
            Some(m) => m.wf() && parse_doc_full_spec(text@) == Some(pairs_of(m.entries@)),
            None => parse_doc_full_spec(text@) is None,
        },
{
    let n = text.unicode_len();
    let i0 = p_skip_ws(text, 0);
    if i0 >= n {
        return None;
    }
    if text.get_char(i0) != '{' {
        return None;
    }
    let j = p_skip_ws(text, i0 + 1);
    if j < n && text.get_char(j) == '}' {
        let fin = p_skip_ws(text, j + 1);
        if fin == n {
            let m = SessionMap::new();
            proof {
                assert(pairs_of(m.entries@) =~= Seq::<(Seq<char>, EntryModel)>::empty());
            }
            return Some(m);
        } else {
            return None;
        }
    }
    let empty = SessionMap::new();
    proof {
        assert(pairs_of(empty.entries@) =~= Seq::<(Seq<char>, EntryModel)>::empty());
    }
    match p_doc_pairs(text, j, empty) {
        Some(p) => {
            let fin = p_skip_ws(text, p.1);
            if fin == n {
                Some(p.0)
            } else {
                None
            }
        },
        None => None,
    }
}

/// Reads a store document leniently: empty or unparsable text is an empty
/// mapping, never an error.
pub fn load_store_text(text: &str) -> (r: SessionMap)
    ensures
        r.wf(),
        parse_doc_full_spec(text@) matches Some(p) ==> pairs_of(r.entries@) == p,
        parse_doc_full_spec(text@) is None ==> r.entries@.len() == 0,
{
    match parse_store(text) {
        Some(m) => m,
        None => SessionMap::new(),
    }
}

/// Two stores whose key/entry pairs agree denote the same mapping.
pub proof fn lemma_pairs_determine_mapping(a: SessionMap, b: SessionMap)
    requires
        pairs_of(a.entries@) == pairs_of(b.entries@),
    ensures
        a@ == b@,
{
    assert(a.entries@.len() == b.entries@.len()) by {
        assert(pairs_of(a.entries@).len() == a.entries@.len());
        assert(pairs_of(b.entries@).len() == b.entries@.len());
    }
    assert forall|i: int| 0 <= i < a.entries@.len() implies #[trigger] a.entries@[i].0@
        == b.entries@[i].0@ && a.entries@[i].1@ == b.entries@[i].1@ by {
        assert(pairs_of(a.entries@)[i] == (a.entries@[i].0@, a.entries@[i].1@));
        assert(pairs_of(b.entries@)[i] == (b.entries@[i].0@, b.entries@[i].1@));
        assert(pairs_of(a.entries@)[i] == pairs_of(b.entries@)[i]);
    }
    crate::store::lemma_map_of_pairs_congruence(a.entries@, b.entries@);
}

/// A well-formed store serializes to pairs the round-trip law covers.
pub proof fn lemma_wf_store_pairs(m: SessionMap)
    requires
        m.wf(),
    ensures
        dpairs_unique(pairs_of(m.entries@)),
        dpairs_wf(pairs_of(m.entries@)),
{
    assert(forall|i: int| 0 <= i < m.entries@.len() ==> #[trigger] pairs_of(m.entries@)[i]
        == (m.entries@[i].0@, m.entries@[i].1@));
}

/// Law: saving a well-formed store and reading the document back yields a
/// mapping equal to the one saved.
pub proof fn lemma_save_load_round_trip(m: SessionMap, m2: SessionMap)
    requires
        m.wf(),
        parse_doc_full_spec(ser_doc(pairs_of(m.entries@))) == Some(pairs_of(m2.entries@)),
    ensures
        m2@ == m@,
{
    lemma_wf_store_pairs(m);
    lemma_store_round_trip(pairs_of(m.entries@));
    lemma_pairs_determine_mapping(m2, m);
}

} // verus!

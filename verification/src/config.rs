//! The persisted configuration: the accent color, stored in a flat
//! key/value line `rectangle_color=<decimal>`.  Encoding and parsing of the
//! format are verified; reading and writing the file is the host's concern.

use vstd::prelude::*;

use crate::color::DEFAULT_ACCENT_COLOR;

verus! {

/// The persisted settings: the fill color of the key rectangles.
pub struct Config {
    pub rectangle_color: u32,
}

/// The ASCII bytes of `rectangle_color=`, the line's key and separator.
pub open spec fn key_bytes() -> Seq<u8> {
    seq![114u8, 101u8, 99u8, 116u8, 97u8, 110u8, 103u8, 108u8, 101u8, 95u8, 99u8, 111u8, 108u8, 111u8, 114u8, 61u8]
}

/// Whether a byte is an ASCII decimal digit.
pub open spec fn is_digit(b: u8) -> bool {
    48 <= b <= 57
}

/// The decimal digits of `n`, most significant first.
pub open spec fn dec_bytes(n: int) -> Seq<u8>
    decreases n,
{
    if n < 10 {
        seq![(48 + (if n >= 0 { n } else { 0 })) as u8]
    } else {
        dec_bytes(n / 10).push((48 + n % 10) as u8)
    }
}

/// The value of a digit string, most significant first.
pub open spec fn digits_value(s: Seq<u8>) -> int
    decreases s.len(),
{
    if s.len() == 0 {
        0
    } else {
        digits_value(s.drop_last()) * 10 + (s.last() - 48)
    }
}

/// The first position at or after `i` that does not hold a digit, or the
/// length of the sequence.
pub open spec fn digits_end(s: Seq<u8>, i: int) -> int
    decreases s.len() - i,
{
    if i < 0 || i >= s.len() || !is_digit(s[i]) {
        i
    } else {
        digits_end(s, i + 1)
    }
}

/// Whether position `i` starts a valid line ending: nothing, a bare line
/// feed, or a carriage return and line feed.
pub open spec fn valid_ending(s: Seq<u8>, i: int) -> bool {
    ||| i == s.len()
    ||| s.skip(i) == seq![10u8]
    ||| s.skip(i) == seq![13u8, 10u8]
}

/// The accent color a configuration text denotes: the key, one or more
/// decimal digits whose value fits the color word, and a line ending.
/// Anything else denotes nothing.
pub open spec fn spec_parse_config(s: Seq<u8>) -> Option<u32> {
    if s.len() < 16 || s.subrange(0, 16) != key_bytes() {
        Option::None
    } else {
        let e = digits_end(s, 16);
        if e > 16 && digits_value(s.subrange(16, e)) <= u32::MAX && valid_ending(s, e) {
            Option::Some(digits_value(s.subrange(16, e)) as u32)
        } else {
            Option::None
        }
    }
}

/// The encoded form of a configuration: the key, the color in decimal, and
/// a carriage return and line feed.
pub open spec fn spec_encode_config(c: Config) -> Seq<u8> {
    key_bytes() + dec_bytes(c.rectangle_color as int) + seq![13u8, 10u8]
}

impl Config {
    /// The configuration used when no persisted value can be read: the
    /// default accent color.
    pub fn fallback() -> (r: Config)
        ensures
            r.rectangle_color == DEFAULT_ACCENT_COLOR,
    {
        Config { rectangle_color: DEFAULT_ACCENT_COLOR }
    }
}

/// The exact bytes of the key and separator, as executable data.
fn key_bytes_exec() -> (r: Vec<u8>)
    ensures
        r@ == key_bytes(),
{
    let mut v: Vec<u8> = Vec::new();
    v.push(114);
    v.push(101);
    v.push(99);
    v.push(116);
    v.push(97);
    v.push(110);
    v.push(103);
    v.push(108);
    v.push(101);
    v.push(95);
    v.push(99);
    v.push(111);
    v.push(108);
    v.push(111);
    v.push(114);
    v.push(61);
    proof {
        assert(v@ =~= key_bytes());
    }
    v
}

/// Appends the decimal digits of `n` to the output, most significant first.
fn push_decimal(n: u32, out: &mut Vec<u8>)
    ensures
        final(out)@ == old(out)@ + dec_bytes(n as int),
    decreases n,
{
    if n < 10 {
        out.push(48 + n as u8);
        proof {
            assert(out@ =~= old(out)@ + dec_bytes(n as int));
        }
    } else {
        push_decimal(n / 10, out);
        out.push(48 + (n % 10) as u8);
        proof {
            assert(out@ =~= old(out)@ + dec_bytes(n as int));
        }
    }
}

/// Encodes a configuration into the bytes of its key/value line.
pub fn encode_config(c: &Config) -> (r: Vec<u8>)
    ensures
        r@ == spec_encode_config(*c),
{
    let mut out = key_bytes_exec();
    push_decimal(c.rectangle_color, &mut out);
    out.push(13);
    out.push(10);
    proof {
        assert(out@ =~= spec_encode_config(*c));
    }
    out
}

/// A digit-string prefix never exceeds the whole string's value.
proof fn lemma_digits_value_mono(s: Seq<u8>, k: int)
    requires
        0 <= k <= s.len(),
        forall|i: int| 0 <= i < s.len() ==> is_digit(#[trigger] s[i]),
    ensures
        0 <= digits_value(s.take(k)) <= digits_value(s),
    decreases s.len() - k,
{
    if k == s.len() {
        assert(s.take(k) =~= s);
        lemma_digits_value_nonneg(s);
    } else {
        lemma_digits_value_mono(s, k + 1);
        assert(s.take(k + 1).drop_last() =~= s.take(k));
        lemma_digits_value_nonneg(s.take(k));
    }
}

/// The value of a digit string is nonnegative.
proof fn lemma_digits_value_nonneg(s: Seq<u8>)
    requires
        forall|i: int| 0 <= i < s.len() ==> is_digit(#[trigger] s[i]),
    ensures
        digits_value(s) >= 0,
    decreases s.len(),
{
    if s.len() > 0 {
        assert(forall|i: int|
            0 <= i < s.drop_last().len() ==> is_digit(#[trigger] s.drop_last()[i]));
        lemma_digits_value_nonneg(s.drop_last());
    }
}

/// Parses the bytes of a configuration line; `None` when they do not denote
/// one (wrong key, no digits, a value above the color range, or trailing
/// bytes other than a line ending).
pub fn parse_config(bytes: &[u8]) -> (r: Option<Config>)
    ensures
        r is Some <==> spec_parse_config(bytes@) is Some,
        r is Some ==> r->0.rectangle_color == spec_parse_config(bytes@)->0,
{
    let n = bytes.len();
    if n < 16 {
        return None;
    }
    let key = key_bytes_exec();
    let mut i: usize = 0;
    while i < 16
        invariant
            i <= 16,
            n == bytes@.len(),
            n >= 16,
            key@ == key_bytes(),
            forall|j: int| 0 <= j < i ==> bytes@[j] == key_bytes()[j],
        decreases 16 - i,
    {
        if bytes[i] != key[i] {
            proof {
                assert(bytes@.subrange(0, 16)[i as int] != key_bytes()[i as int]);
            }
            return None;
        }
        i = i + 1;
    }
    proof {
        assert(bytes@.subrange(0, 16) =~= key_bytes());
    }

    let mut acc: u32 = 0;
    let mut pos: usize = 16;
    let mut seen: bool = false;
    while pos < n && bytes[pos] >= 48 && bytes[pos] <= 57
        invariant
            16 <= pos <= n,
            n == bytes@.len(),
            seen <==> pos > 16,
            forall|j: int| 16 <= j < pos ==> is_digit(#[trigger] bytes@[j]),
            digits_end(bytes@, pos as int) == digits_end(bytes@, 16),
            acc == digits_value(bytes@.subrange(16, pos as int)),
        decreases n - pos,
    {
        let d: u32 = (bytes[pos] - 48) as u32;
        proof {
            assert(bytes@.subrange(16, pos as int + 1).drop_last() =~= bytes@.subrange(
                16,
                pos as int,
            ));
        }
        if acc > (u32::MAX - d) / 10 {
            proof {
                let e = digits_end(bytes@, 16);
                lemma_digits_end_range(bytes@, 16);
                assert(pos < e);
                let digits = bytes@.subrange(16, e);
                assert(forall|j: int| 0 <= j < digits.len() ==> is_digit(#[trigger] digits[j]));
                lemma_digits_value_mono(digits, pos as int + 1 - 16);
                assert(digits.take(pos as int + 1 - 16) =~= bytes@.subrange(16, pos as int + 1));
                assert(acc * 10 + d > u32::MAX) by (nonlinear_arith)
                    requires
                        acc > (u32::MAX as int - d) / 10,
                        0 <= d <= 9,
                        acc >= 0,
                ;
            }
            return None;
        }
        acc = acc * 10 + d;
        pos = pos + 1;
        seen = true;
    }
    proof {
        assert(digits_end(bytes@, pos as int) == pos as int);
        assert(digits_end(bytes@, 16) == pos as int);
    }
    if !seen {
        return None;
    }
    if pos == n {
        return Some(Config { rectangle_color: acc });
    }
    if pos + 1 == n && bytes[pos] == 10 {
        proof {
            assert(bytes@.skip(pos as int) =~= seq![10u8]);
        }
        return Some(Config { rectangle_color: acc });
    }
    if n - pos == 2 && bytes[pos] == 13 && bytes[pos + 1] == 10 {
        proof {
            assert(bytes@.skip(pos as int) =~= seq![13u8, 10u8]);
        }
        return Some(Config { rectangle_color: acc });
    }
    proof {
        assert(!valid_ending(bytes@, pos as int)) by {
            if bytes@.skip(pos as int) == seq![10u8] {
                assert(bytes@.skip(pos as int).len() == 1);
                assert(bytes@[pos as int] == bytes@.skip(pos as int)[0]);
            } else if bytes@.skip(pos as int) == seq![13u8, 10u8] {
                assert(bytes@.skip(pos as int).len() == 2);
                assert(bytes@[pos as int] == bytes@.skip(pos as int)[0]);
                assert(bytes@[pos as int + 1] == bytes@.skip(pos as int)[1]);
            }
        }
    }
    None
}

/// Digit scanning stops no earlier than any position whose prefix is all
/// digits, and the scan's end lies between `i` and the length.
proof fn lemma_digits_end_range(s: Seq<u8>, i: int)
    requires
        0 <= i <= s.len(),
    ensures
        i <= digits_end(s, i) <= s.len(),
        forall|j: int| i <= j < digits_end(s, i) ==> is_digit(#[trigger] s[j]),
        digits_end(s, i) < s.len() ==> !is_digit(s[digits_end(s, i)]),
    decreases s.len() - i,
{
    if i < s.len() && is_digit(s[i]) {
        lemma_digits_end_range(s, i + 1);
    }
}

/// The decimal digits of a nonnegative number are digits.
proof fn lemma_dec_bytes_are_digits(n: int)
    requires
        0 <= n,
    ensures
        dec_bytes(n).len() >= 1,
        forall|i: int| 0 <= i < dec_bytes(n).len() ==> is_digit(#[trigger] dec_bytes(n)[i]),
    decreases n,
{
    if n >= 10 {
        lemma_dec_bytes_are_digits(n / 10);
    }
}

/// Reading the decimal digits of a number back yields the number.
proof fn lemma_digits_value_of_dec_bytes(n: int)
    requires
        0 <= n,
    ensures
        digits_value(dec_bytes(n)) == n,
    decreases n,
{
    if n < 10 {
        assert(dec_bytes(n).drop_last() =~= Seq::<u8>::empty());
        assert(digits_value(dec_bytes(n)) == digits_value(Seq::<u8>::empty()) * 10 + ((48
            + n) as u8 - 48));
    } else {
        lemma_digits_value_of_dec_bytes(n / 10);
        assert(dec_bytes(n).drop_last() =~= dec_bytes(n / 10));
        vstd::arithmetic::div_mod::lemma_fundamental_div_mod(n, 10);
        assert(digits_value(dec_bytes(n)) == digits_value(dec_bytes(n / 10)) * 10 + ((48 + n
            % 10) as u8 - 48));
    }
}

/// Parsing an encoded configuration yields the configuration back: the
/// round trip through the persistence format is the identity.
pub proof fn lemma_config_round_trip(c: Config)
    ensures
        spec_parse_config(spec_encode_config(c)) == Some(c.rectangle_color),
{
    let n = c.rectangle_color as int;
    let s = spec_encode_config(c);
    lemma_dec_bytes_are_digits(n);
    lemma_digits_value_of_dec_bytes(n);
    let d = dec_bytes(n);
    assert(s.len() == 16 + d.len() + 2);
    assert(s.subrange(0, 16) =~= key_bytes());
    let e = 16 + d.len() as int;
    assert(s[e] == 13 && s[e + 1] == 10);
    assert(!is_digit(s[e]));
    lemma_digits_end_from(s, 16, e);
    assert(s.subrange(16, e) =~= d);
    assert(s.skip(e) =~= seq![13u8, 10u8]);
}

/// Digit scanning from `i` ends exactly at `e` when everything before `e`
/// is a digit and `e` holds none.
proof fn lemma_digits_end_from(s: Seq<u8>, i: int, e: int)
    requires
        0 <= i <= e <= s.len(),
        forall|j: int| i <= j < e ==> is_digit(#[trigger] s[j]),
        e < s.len() ==> !is_digit(s[e]),
    ensures
        digits_end(s, i) == e,
    decreases e - i,
{
    if i < e {
        lemma_digits_end_from(s, i + 1, e);
    }
}

} // verus!

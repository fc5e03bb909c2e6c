//! Resolution of Unicode code-point descriptors.
//!
//! A descriptor is a free-text field whose first space-separated token is a
//! two-character prefix followed by hexadecimal digits naming a code point;
//! anything after the first space is ignored. Resolution decodes the digits
//! and converts the value to a character.

use vstd::prelude::*;

verus! {

/// Why resolving a code-point descriptor failed.
#[derive(Clone, Copy, Debug, PartialEq, Eq, Structural)]
pub enum ResolveError {
    /// No hexadecimal digits follow the two-character prefix.
    EmptyHex,
    /// The code-point field holds a character that is not a hexadecimal digit.
    InvalidDigit,
    /// The hexadecimal value does not fit in 32 bits.
    Overflow,
    /// The decoded value is not a Unicode scalar value.
    InvalidCodePoint,
}

/// Whether `c` is an ASCII hexadecimal digit.
pub open spec fn is_hex_digit(c: char) -> bool {
    ||| '0' as u32 <= c as u32 && c as u32 <= '9' as u32
    ||| 'a' as u32 <= c as u32 && c as u32 <= 'f' as u32
    ||| 'A' as u32 <= c as u32 && c as u32 <= 'F' as u32
}

/// The numeric value of a hexadecimal digit.
pub open spec fn hex_digit_value(c: char) -> nat
    recommends
        is_hex_digit(c),
{
    if '0' as u32 <= c as u32 && c as u32 <= '9' as u32 {
        (c as u32 - '0' as u32) as nat
    } else if 'a' as u32 <= c as u32 && c as u32 <= 'f' as u32 {
        (c as u32 - 'a' as u32 + 10) as nat
    } else {
        (c as u32 - 'A' as u32 + 10) as nat
    }
}

/// The numeric value of one hexadecimal digit, or `None` for any other character.
pub fn hex_digit(c: char) -> (r: Option<u32>)
    ensures
        r is Some <==> is_hex_digit(c),
        r matches Some(v) ==> v == hex_digit_value(c) && v < 16,
{
    let u = c as u32;
    if '0' as u32 <= u && u <= '9' as u32 {
        Some(u - '0' as u32)
    } else if 'a' as u32 <= u && u <= 'f' as u32 {
        Some(u - 'a' as u32 + 10)
    } else if 'A' as u32 <= u && u <= 'F' as u32 {
        Some(u - 'A' as u32 + 10)
    } else {
        None
    }
}

/// The index of the first occurrence of `sep` in `s` at or after `i`, or
/// `s.len()` if there is none.
pub open spec fn scan_to(s: Seq<char>, sep: char, i: int) -> int
    decreases s.len() - i,
{
    if i < 0 || i >= s.len() {
        s.len() as int
    } else if s[i] == sep {
        i
    } else {
        scan_to(s, sep, i + 1)
    }
}

/// Position and content facts that characterize `scan_to`.
pub proof fn lemma_scan_to_props(s: Seq<char>, sep: char, i: int)
    requires
        0 <= i <= s.len(),
    ensures
        i <= scan_to(s, sep, i) <= s.len(),
        forall|j: int| i <= j < scan_to(s, sep, i) ==> s[j] != sep,
        scan_to(s, sep, i) < s.len() ==> s[scan_to(s, sep, i)] == sep,
    decreases s.len() - i,
{
    if i < s.len() && s[i] != sep {
        lemma_scan_to_props(s, sep, i + 1);
    }
}

/// A region with no separator followed by a separator (or the end) pins the
/// scan result.
pub proof fn lemma_scan_to_found(s: Seq<char>, sep: char, from: int, i: int)
    requires
        0 <= from <= i <= s.len(),
        forall|j: int| from <= j < i ==> s[j] != sep,
        i == s.len() || s[i] == sep,
    ensures
        scan_to(s, sep, from) == i,
    decreases i - from,
{
    if from < i {
        lemma_scan_to_found(s, sep, from + 1, i);
    }
}

/// Reads hexadecimal digits left to right, accumulating into a 32-bit value
/// exactly as far as it fits.
pub open spec fn parse_hex_digits(s: Seq<char>, acc: u32) -> Result<u32, ResolveError>
    decreases s.len(),
{
    if s.len() == 0 {
        Ok(acc)
    } else if !is_hex_digit(s[0]) {
        Err(ResolveError::InvalidDigit)
    } else if acc as int * 16 + hex_digit_value(s[0]) > u32::MAX {
        Err(ResolveError::Overflow)
    } else {
        parse_hex_digits(s.skip(1), (acc as int * 16 + hex_digit_value(s[0])) as u32)
    }
}

/// The value of a base-16 numeral, with `acc` as the value already read.
pub open spec fn hex_value_acc(s: Seq<char>, acc: nat) -> nat
    decreases s.len(),
{
    if s.len() == 0 {
        acc
    } else {
        hex_value_acc(s.skip(1), acc * 16 + hex_digit_value(s[0]))
    }
}

/// The value of a base-16 numeral.
pub open spec fn hex_value(s: Seq<char>) -> nat {
    hex_value_acc(s, 0)
}

/// The whole code-point field read as a base-16 integer: an optional leading
/// plus sign, then at least one hexadecimal digit, with the value limited to
/// 32 bits.
pub open spec fn parse_hex(s: Seq<char>) -> Result<u32, ResolveError> {
    let digits = if s.len() > 0 && s[0] == '+' {
        s.skip(1)
    } else {
        s
    };
    if digits.len() == 0 {
        Err(ResolveError::EmptyHex)
    } else {
        parse_hex_digits(digits, 0)
    }
}

/// Whether `v` is a Unicode scalar value: in range and not a surrogate.
pub open spec fn is_scalar_value(v: int) -> bool {
    (0 <= v < 0xD800) || (0xE000 <= v <= 0x10FFFF)
}

/// Finds the first occurrence of `sep` in `s` at or after `from`.
pub fn scan_for(s: &str, sep: char, from: usize) -> (i: usize)
    requires
        from <= s@.len(),
    ensures
        i == scan_to(s@, sep, from as int),
        from <= i <= s@.len(),
        i < s@.len() ==> s@[i as int] == sep,
        forall|j: int| from <= j < i ==> s@[j] != sep,
{
    let n = s.unicode_len();
    let mut i = from;
    while i < n && s.get_char(i) != sep
        invariant
            from <= i <= n,
            n == s@.len(),
            forall|j: int| from <= j < i ==> s@[j] != sep,
        decreases n - i,
    {
        i += 1;
    }
    proof {
        lemma_scan_to_found(s@, sep, from as int, i as int);
    }
    i
}

/// The descriptor's first space-separated token.
pub open spec fn first_token(d: Seq<char>) -> Seq<char> {
    d.take(scan_to(d, ' ', 0))
}

/// The outcome of resolving a descriptor, as the code point it names.
///
/// The first token's leading two characters are the prefix; the rest of the
/// token is read as a base-16 integer, which must be a Unicode scalar value.
pub open spec fn resolve_spec(d: Seq<char>) -> Result<u32, ResolveError> {
    let token = first_token(d);
    if token.len() < 2 {
        Err(ResolveError::EmptyHex)
    } else {
        match parse_hex(token.skip(2)) {
            Ok(v) => if is_scalar_value(v as int) {
                Ok(v)
            } else {
                Err(ResolveError::InvalidCodePoint)
            },
            Err(e) => Err(e),
        }
    }
}

/// Relies on `char::from_u32`: it returns `Some` exactly when the argument is
/// a Unicode scalar value (not a surrogate, at most 0x10FFFF), and the
/// returned character's code point is the argument.
pub assume_specification[ char::from_u32 ](v: u32) -> (r: Option<char>)
    ensures
        r is Some <==> is_scalar_value(v as int),
        r matches Some(c) ==> c as u32 == v,
;

/// Resolves one descriptor to its character, or reports why it does not name
/// one.
pub fn resolve_descriptor(d: &str) -> (r: Result<char, ResolveError>)
    ensures
        match r {
            Ok(c) => resolve_spec(d@) == Ok::<u32, ResolveError>(c as u32),
            Err(e) => resolve_spec(d@) == Err::<u32, ResolveError>(e),
        },
{
    let n = d.unicode_len();
    let end = scan_for(d, ' ', 0);
    proof {
        assert(first_token(d@) == d@.take(end as int));
        assert(first_token(d@).len() == end as int);
    }
    if end < 2 {
        return Err(ResolveError::EmptyHex);
    }
    let ghost field = first_token(d@).skip(2);
    proof {
        assert(field =~= d@.subrange(2, end as int));
    }
    let mut i: usize = 2;
    if i < end && d.get_char(i) == '+' {
        i = 3;
        proof {
            assert(field[0] == '+');
            assert(field.skip(1) =~= d@.subrange(3, end as int));
        }
    } else {
        proof {
            assert(field.len() > 0 ==> field[0] != '+');
        }
    }
    let ghost digits = d@.subrange(i as int, end as int);
    if i == end {
        proof {
            assert(digits.len() == 0);
            assert(parse_hex(field) == Err::<u32, ResolveError>(ResolveError::EmptyHex));
        }
        return Err(ResolveError::EmptyHex);
    }
    proof {
        assert(digits.len() > 0);
        assert(parse_hex(field) == parse_hex_digits(digits, 0));
    }
    let mut acc: u32 = 0;
    let ghost start = i as int;
    while i < end
        invariant
            start <= i as int <= end,
            2 <= start,
            end <= n == d@.len(),
            first_token(d@).len() == end as int,
            field == first_token(d@).skip(2),
            digits == d@.subrange(start, end as int),
            parse_hex(field) == parse_hex_digits(digits, 0),
            parse_hex_digits(digits, 0) == parse_hex_digits(
                d@.subrange(i as int, end as int),
                acc,
            ),
        decreases end - i,
    {
        let ghost rest = d@.subrange(i as int, end as int);
        let c = d.get_char(i);
        proof {
            assert(rest[0] == c);
            assert(rest.skip(1) =~= d@.subrange(i + 1, end as int));
        }
        match hex_digit(c) {
            None => {
                return Err(ResolveError::InvalidDigit);
            },
            Some(v) => {
                if acc > 0x0FFF_FFFF {
                    proof {
                        assert(acc as int * 16 + hex_digit_value(c) > u32::MAX);
                    }
                    return Err(ResolveError::Overflow);
                }
                proof {
                    assert(acc as int * 16 + hex_digit_value(c) <= u32::MAX);
                }
                acc = acc * 16 + v;
            },
        }
        i += 1;
    }
    proof {
        assert(d@.subrange(end as int, end as int).len() == 0);
        assert(parse_hex_digits(digits, 0) == Ok::<u32, ResolveError>(acc));
    }
    match char::from_u32(acc) {
        Some(c) => Ok(c),
        None => Err(ResolveError::InvalidCodePoint),
    }
}

/// Accumulating more digits never lowers the value.
proof fn lemma_hex_value_acc_lower_bound(s: Seq<char>, acc: nat)
    ensures
        hex_value_acc(s, acc) >= acc,
    decreases s.len(),
{
    if s.len() > 0 {
        lemma_hex_value_acc_lower_bound(s.skip(1), acc * 16 + hex_digit_value(s[0]));
    }
}

/// On hexadecimal digits whose value fits in 32 bits, the reader returns
/// exactly that value.
proof fn lemma_parse_hex_digits_ok(s: Seq<char>, acc: nat)
    requires
        forall|i: int| 0 <= i < s.len() ==> is_hex_digit(#[trigger] s[i]),
        acc <= u32::MAX,
        hex_value_acc(s, acc) <= u32::MAX,
    ensures
        parse_hex_digits(s, acc as u32) == Ok::<u32, ResolveError>(hex_value_acc(s, acc) as u32),
    decreases s.len(),
{
    if s.len() > 0 {
        let acc2 = acc * 16 + hex_digit_value(s[0]);
        lemma_hex_value_acc_lower_bound(s.skip(1), acc2);
        assert(forall|i: int| 0 <= i < s.skip(1).len() ==> is_hex_digit(#[trigger] s.skip(1)[i]));
        lemma_parse_hex_digits_ok(s.skip(1), acc2);
    }
}

/// A sequence holding a character that is not a hexadecimal digit is never
/// read to a value.
proof fn lemma_parse_hex_digits_err(s: Seq<char>, acc: u32, w: int)
    requires
        0 <= w < s.len(),
        !is_hex_digit(s[w]),
    ensures
        parse_hex_digits(s, acc) is Err,
    decreases s.len(),
{
    if is_hex_digit(s[0]) && acc as int * 16 + hex_digit_value(s[0]) <= u32::MAX {
        lemma_parse_hex_digits_err(
            s.skip(1),
            (acc as int * 16 + hex_digit_value(s[0])) as u32,
            w - 1,
        );
    }
}

/// The digits a descriptor offers as its code point: the first token with
/// the two-character prefix and an optional plus sign removed.
pub open spec fn hex_digits_of(d: Seq<char>) -> Seq<char> {
    let token = first_token(d);
    if token.len() < 2 {
        Seq::empty()
    } else {
        let field = token.skip(2);
        if field.len() > 0 && field[0] == '+' {
            field.skip(1)
        } else {
            field
        }
    }
}

/// Whether `s` is a non-empty run of hexadecimal digits.
pub open spec fn is_hex_string(s: Seq<char>) -> bool {
    s.len() > 0 && forall|i: int| 0 <= i < s.len() ==> is_hex_digit(#[trigger] s[i])
}

/// Every descriptor of the regular form resolves to the code point its
/// digits denote: a two-character prefix, a non-empty run of hexadecimal
/// digits whose value is a Unicode scalar value, and an optional remainder
/// that starts with a space.
pub proof fn lemma_valid_descriptor_resolves(p: Seq<char>, h: Seq<char>, rest: Seq<char>)
    requires
        p.len() == 2,
        p[0] != ' ',
        p[1] != ' ',
        h.len() > 0,
        forall|i: int| 0 <= i < h.len() ==> is_hex_digit(#[trigger] h[i]),
        is_scalar_value(hex_value(h) as int),
        rest.len() == 0 || rest[0] == ' ',
    ensures
        resolve_spec(p + h + rest) == Ok::<u32, ResolveError>(hex_value(h) as u32),
{
    let d = p + h + rest;
    let e = 2 + h.len() as int;
    assert forall|j: int| 0 <= j < e implies d[j] != ' ' by {
        if j >= 2 {
            assert(d[j] == h[j - 2]);
            assert(is_hex_digit(h[j - 2]));
        }
    }
    assert(e == d.len() || d[e] == ' ');
    lemma_scan_to_found(d, ' ', 0, e);
    assert(first_token(d) =~= p + h);
    assert((p + h).skip(2) =~= h);
    assert(h[0] != '+');
    lemma_hex_value_acc_lower_bound(h, 0);
    lemma_parse_hex_digits_ok(h, 0);
}

/// A descriptor whose code-point field is not a non-empty run of
/// hexadecimal digits never resolves.
pub proof fn lemma_invalid_hex_fails(d: Seq<char>)
    requires
        !is_hex_string(hex_digits_of(d)),
    ensures
        resolve_spec(d) is Err,
{
    lemma_scan_to_props(d, ' ', 0);
    let token = first_token(d);
    if token.len() >= 2 {
        let field = token.skip(2);
        if field.len() > 0 && field[0] == '+' {
            let digits = field.skip(1);
            if digits.len() > 0 {
                let w = choose|i: int| 0 <= i < digits.len() && !is_hex_digit(digits[i]);
                assert(field[w + 1] == digits[w]);
                lemma_parse_hex_digits_err(digits, 0, w);
            }
        } else {
            if field.len() > 0 {
                let w = choose|i: int| 0 <= i < field.len() && !is_hex_digit(field[i]);
                lemma_parse_hex_digits_err(field, 0, w);
            }
        }
    }
}

} // verus!

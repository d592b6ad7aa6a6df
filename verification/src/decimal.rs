//! Parsing of the public inputs, which callers pass as base-10 strings:
//! surrounding whitespace is trimmed, and the rest must be an unsigned
//! 128-bit decimal integer (an optional leading `+`, then one or more
//! digits), which is then reduced into the field.

use crate::field::{field_new, is_canonical, reduce, MODULUS};
use vstd::arithmetic::div_mod::lemma_small_mod;
use vstd::prelude::*;
use vstd::string::*;

verus! {

/// The characters of a string slice, in order.
pub fn chars_of(s: &str) -> (cs: Vec<char>)
    ensures
        cs@ == s@,
{
    let mut cs: Vec<char> = Vec::new();
    for c in it: s.chars()
        invariant
            cs@ == it.seq().take(it.index() as int),
    {
        cs.push(c);
    }
    cs
}

/// Whitespace as `char::is_whitespace` defines it: the characters with the
/// Unicode `White_Space` property.
pub open spec fn is_whitespace(c: char) -> bool {
    let u = c as u32;
    ||| 0x09 <= u <= 0x0D
    ||| u == 0x20
    ||| u == 0x85
    ||| u == 0xA0
    ||| u == 0x1680
    ||| 0x2000 <= u <= 0x200A
    ||| u == 0x2028
    ||| u == 0x2029
    ||| u == 0x202F
    ||| u == 0x205F
    ||| u == 0x3000
}

/// Decides whether a character is whitespace.
pub fn char_is_whitespace(c: char) -> (b: bool)
    ensures
        b == is_whitespace(c),
{
    let u = c as u32;
    (0x09 <= u && u <= 0x0D) || u == 0x20 || u == 0x85 || u == 0xA0 || u == 0x1680 || (0x2000
        <= u && u <= 0x200A) || u == 0x2028 || u == 0x2029 || u == 0x202F || u == 0x205F || u
        == 0x3000
}

/// The characters left after removing leading whitespace.
pub open spec fn trim_start_spec(cs: Seq<char>) -> Seq<char>
    decreases cs.len(),
{
    if cs.len() > 0 && is_whitespace(cs[0]) {
        trim_start_spec(cs.drop_first())
    } else {
        cs
    }
}

/// The characters left after removing trailing whitespace.
pub open spec fn trim_end_spec(cs: Seq<char>) -> Seq<char>
    decreases cs.len(),
{
    if cs.len() > 0 && is_whitespace(cs.last()) {
        trim_end_spec(cs.drop_last())
    } else {
        cs
    }
}

/// The characters left after removing leading and trailing whitespace, as
/// `str::trim` leaves them.
pub open spec fn trim_spec(cs: Seq<char>) -> Seq<char> {
    trim_end_spec(trim_start_spec(cs))
}

/// Removes leading and trailing whitespace.
pub fn trim(cs: &Vec<char>) -> (t: Vec<char>)
    ensures
        t@ == trim_spec(cs@),
{
    let n = cs.len();
    let mut lo: usize = 0;
    assert(cs@.subrange(0, n as int) =~= cs@);
    while lo < n && char_is_whitespace(cs[lo])
        invariant
            n == cs@.len(),
            lo <= n,
            trim_start_spec(cs@) == trim_start_spec(cs@.subrange(lo as int, n as int)),
        decreases n - lo,
    {
        assert(cs@.subrange(lo as int, n as int).drop_first() =~= cs@.subrange(lo + 1, n as int));
        lo = lo + 1;
    }
    assert(trim_start_spec(cs@) == cs@.subrange(lo as int, n as int));
    let mut hi: usize = n;
    while hi > lo && char_is_whitespace(cs[hi - 1])
        invariant
            n == cs@.len(),
            lo <= hi <= n,
            trim_spec(cs@) == trim_end_spec(cs@.subrange(lo as int, hi as int)),
        decreases hi,
    {
        assert(cs@.subrange(lo as int, hi as int).drop_last() =~= cs@.subrange(lo as int, hi - 1));
        hi = hi - 1;
    }
    let mut t: Vec<char> = Vec::new();
    let mut i = lo;
    while i < hi
        invariant
            n == cs@.len(),
            lo <= i <= hi <= n,
            t@ == cs@.subrange(lo as int, i as int),
        decreases hi - i,
    {
        t.push(cs[i]);
        assert(t@ =~= cs@.subrange(lo as int, i + 1));
        i = i + 1;
    }
    t
}

/// A decimal digit `0`-`9`.
pub open spec fn is_digit(c: char) -> bool {
    48 <= c as u32 <= 57
}

/// The value of a decimal digit.
pub open spec fn digit_value(c: char) -> int {
    c as u32 - 48
}

/// All characters are decimal digits.
pub open spec fn all_digits(ds: Seq<char>) -> bool {
    forall|i: int| 0 <= i < ds.len() ==> is_digit(#[trigger] ds[i])
}

/// The number that a string of decimal digits spells, most significant
/// digit first.
pub open spec fn decimal_value(ds: Seq<char>) -> int
    decreases ds.len(),
{
    if ds.len() == 0 {
        0
    } else {
        decimal_value(ds.drop_last()) * 10 + digit_value(ds.last())
    }
}

/// The digits of an unsigned decimal literal: a single leading `+` is
/// dropped.
pub open spec fn unsigned_digits(t: Seq<char>) -> Seq<char> {
    if t.len() > 0 && t[0] == '+' {
        t.drop_first()
    } else {
        t
    }
}

/// The `u128` that a decimal literal denotes, as `u128::from_str` reads it:
/// an optional `+`, then one or more digits, with a value that fits in
/// 128 bits; `None` for anything else.
pub open spec fn parse_u128_spec(t: Seq<char>) -> Option<u128> {
    let ds = unsigned_digits(t);
    if ds.len() > 0 && all_digits(ds) && decimal_value(ds) <= u128::MAX {
        Some(decimal_value(ds) as u128)
    } else {
        None
    }
}

/// The value of a digit string is not negative.
pub proof fn lemma_decimal_value_nonneg(ds: Seq<char>)
    requires
        all_digits(ds),
    ensures
        decimal_value(ds) >= 0,
    decreases ds.len(),
{
    if ds.len() > 0 {
        assert(is_digit(ds[ds.len() - 1]));
        lemma_decimal_value_nonneg(ds.drop_last());
    }
}

/// The value of a digit string is at least the value of any prefix of it.
pub proof fn lemma_decimal_value_prefix(ds: Seq<char>, k: int)
    requires
        all_digits(ds),
        0 <= k <= ds.len(),
    ensures
        decimal_value(ds) >= decimal_value(ds.take(k)),
    decreases ds.len(),
{
    if k < ds.len() {
        let front = ds.drop_last();
        assert(is_digit(ds[ds.len() - 1]));
        lemma_decimal_value_nonneg(front);
        lemma_decimal_value_prefix(front, k);
        assert(front.take(k) =~= ds.take(k));
    } else {
        assert(ds.take(k) =~= ds);
    }
}

/// Reads an unsigned 128-bit decimal literal.
pub fn parse_u128(t: &Vec<char>) -> (r: Option<u128>)
    ensures
        r == parse_u128_spec(t@),
{
    let n = t.len();
    let start: usize = if n > 0 && t[0] == '+' {
        1
    } else {
        0
    };
    let ghost ds = unsigned_digits(t@);
    proof {
        assert(ds =~= t@.subrange(start as int, n as int));
    }
    if start == n {
        return None;
    }
    let mut value: u128 = 0;
    let mut i = start;
    while i < n
        invariant
            n == t@.len(),
            start <= i <= n,
            ds == t@.subrange(start as int, n as int),
            ds == unsigned_digits(t@),
            all_digits(ds.take(i - start)),
            value == decimal_value(ds.take(i - start)),
        decreases n - i,
    {
        let c = t[i];
        let u = c as u32;
        proof {
            assert(ds[i - start] == c);
        }
        if u < 48 || u > 57 {
            proof {
                assert(!is_digit(ds[i - start]));
            }
            return None;
        }
        let ghost k: int = i - start;
        proof {
            assert(ds.take(k + 1).drop_last() =~= ds.take(k));
            assert(ds.take(k + 1).last() == c);
            assert(decimal_value(ds.take(k + 1)) == value * 10 + digit_value(c));
            assert(all_digits(ds.take(k + 1))) by {
                assert forall|j: int| 0 <= j < k + 1 implies is_digit(#[trigger] ds.take(k + 1)[j]) by {
                    if j < k {
                        assert(ds.take(k + 1)[j] == ds.take(k)[j]);
                    }
                }
            }
        }
        let digit = (u - 48) as u128;
        match value.checked_mul(10) {
            None => {
                proof {
                    lemma_digits_overflow(ds, k + 1);
                }
                return None;
            },
            Some(tens) => match tens.checked_add(digit) {
                None => {
                    proof {
                        lemma_digits_overflow(ds, k + 1);
                    }
                    return None;
                },
                Some(next) => {
                    value = next;
                },
            },
        }
        i = i + 1;
    }
    proof {
        assert(ds.take(n - start) =~= ds);
    }
    Some(value)
}

/// The message given for a public input that is not a decimal `u128`.
pub open spec fn parse_error_text(s: Seq<char>) -> Seq<char> {
    "could not parse '"@ + s + "' as a u128 decimal integer"@
}

/// The field element that a public input string denotes, if it denotes one:
/// the trimmed string read as a `u128`, reduced into the field.
pub open spec fn base_element_spec(s: Seq<char>) -> Option<u128> {
    match parse_u128_spec(trim_spec(s)) {
        Some(n) => Some(reduce(n as int)),
        None => None,
    }
}

/// Reads a public input: a base-10 `u128`, possibly surrounded by
/// whitespace, reduced into the field. Fails, naming the input, when the
/// trimmed string is not a decimal `u128`.
pub fn parse_base_element(s: &str) -> (r: Result<u128, String>)
    ensures
        r is Ok <==> base_element_spec(s@) is Some,
        r matches Ok(x) ==> base_element_spec(s@) == Some(x) && is_canonical(x),
        r is Ok <==> parse_u128_spec(trim_spec(s@)) is Some,
        r matches Ok(x) ==> x as int == parse_u128_spec(trim_spec(s@)).unwrap() as int % (
        MODULUS as int),
        r matches Err(m) ==> m@ == parse_error_text(s@),
{
    proof {
        lemma_base_element_reduces(s@);
    }
    let cs = chars_of(s);
    let t = trim(&cs);
    match parse_u128(&t) {
        Some(n) => Ok(field_new(n)),
        None => {
            let mut m = String::from_str("could not parse '");
            m.append(s);
            m.append("' as a u128 decimal integer");
            Err(m)
        },
    }
}

/// The base-10 digits of a natural number, most significant first, without
/// leading zeros, as `Display` writes an unsigned integer.
pub open spec fn decimal_spec(n: nat) -> Seq<char>
    decreases n,
{
    if n < 10 {
        seq![(48 + n) as char]
    } else {
        decimal_spec(n / 10) + seq![(48 + n % 10) as char]
    }
}

/// The one-character string holding a decimal digit.
fn digit_str(d: u128) -> (s: &'static str)
    requires
        d < 10,
    ensures
        s@ == seq![(48 + d) as char],
{
    match d {
        0 => { proof { reveal_strlit("0"); } "0" },
        1 => { proof { reveal_strlit("1"); } "1" },
        2 => { proof { reveal_strlit("2"); } "2" },
        3 => { proof { reveal_strlit("3"); } "3" },
        4 => { proof { reveal_strlit("4"); } "4" },
        5 => { proof { reveal_strlit("5"); } "5" },
        6 => { proof { reveal_strlit("6"); } "6" },
        7 => { proof { reveal_strlit("7"); } "7" },
        8 => { proof { reveal_strlit("8"); } "8" },
        _ => { proof { reveal_strlit("9"); } "9" },
    }
}

/// Appends the base-10 digits of `n`.
fn append_decimal(s: &mut String, n: u128)
    ensures
        final(s)@ == old(s)@ + decimal_spec(n as nat),
    decreases n,
{
    if n >= 10 {
        append_decimal(s, n / 10);
    }
    s.append(digit_str(n % 10));
    proof {
        if n < 10 {
            assert(n % 10 == n);
        }
    }
}

/// Writes a field element in base 10, as its `Display` impl does.
pub fn to_decimal(n: u128) -> (s: String)
    ensures
        s@ == decimal_spec(n as nat),
{
    let mut s = String::new();
    append_decimal(&mut s, n);
    proof {
        assert(s@ =~= decimal_spec(n as nat));
    }
    s
}

/// The digits of a number are digits and spell the number.
pub proof fn lemma_decimal_spec_value(n: nat)
    ensures
        decimal_spec(n).len() > 0,
        all_digits(decimal_spec(n)),
        decimal_value(decimal_spec(n)) == n,
    decreases n,
{
    let d = decimal_spec(n);
    if n < 10 {
        assert(d.drop_last() =~= Seq::<char>::empty());
        assert(d.last() == (48 + n) as char);
        assert(digit_value(d.last()) == n);
        assert(decimal_value(d) == decimal_value(d.drop_last()) * 10 + digit_value(d.last()));
    } else {
        lemma_decimal_spec_value(n / 10);
        let front = decimal_spec(n / 10);
        assert(d.drop_last() =~= front);
        vstd::arithmetic::div_mod::lemma_fundamental_div_mod(n as int, 10);
        assert(d.last() == (48 + n % 10) as char);
        assert(digit_value(d.last()) == n % 10);
        assert forall|i: int| 0 <= i < d.len() implies is_digit(#[trigger] d[i]) by {
            if i < front.len() {
                assert(d[i] == front[i]);
            }
        }
    }
}

/// A field element written in base 10 reads back as itself: the public
/// inputs that the prover prints are the ones the verifier parses.
pub proof fn lemma_decimal_round_trip(v: u128)
    requires
        is_canonical(v),
    ensures
        base_element_spec(decimal_spec(v as nat)) == Some(v),
{
    let d = decimal_spec(v as nat);
    lemma_decimal_spec_value(v as nat);
    assert(is_digit(d[0]));
    assert(is_digit(d[d.len() - 1]));
    assert(trim_start_spec(d) == d);
    assert(trim_end_spec(d) == d);
    assert(unsigned_digits(d) == d);
    lemma_small_mod(v as nat, MODULUS as nat);
}

/// A public input denotes a field element exactly when its trimmed text is
/// a decimal `u128`, and that element is the number modulo the field
/// modulus.
pub proof fn lemma_base_element_reduces(s: Seq<char>)
    ensures
        base_element_spec(s) is Some <==> parse_u128_spec(trim_spec(s)) is Some,
        base_element_spec(s) matches Some(v) ==> v as int == parse_u128_spec(trim_spec(s)).unwrap()
            as int % (MODULUS as int),
{
    if let Some(n) = parse_u128_spec(trim_spec(s)) {
        vstd::arithmetic::div_mod::lemma_mod_bound(n as int, MODULUS as int);
    }
}

/// `10^k`.
pub open spec fn pow10(k: nat) -> nat
    decreases k,
{
    if k == 0 {
        1
    } else {
        10 * pow10((k - 1) as nat)
    }
}

/// A string of `k` digits spells a number below `10^k`.
pub proof fn lemma_decimal_value_bound(ds: Seq<char>)
    requires
        all_digits(ds),
    ensures
        decimal_value(ds) < pow10(ds.len()),
    decreases ds.len(),
{
    if ds.len() > 0 {
        assert(is_digit(ds[ds.len() - 1]));
        assert(all_digits(ds.drop_last())) by {
            assert forall|i: int| 0 <= i < ds.drop_last().len() implies is_digit(
                #[trigger] ds.drop_last()[i],
            ) by {
                assert(ds.drop_last()[i] == ds[i]);
            }
        }
        lemma_decimal_value_bound(ds.drop_last());
    }
}

/// Every string of one to 38 digits, optionally after a `+`, is read as the
/// number it spells: all of them fit in 128 bits, so none is refused for
/// its size.
pub proof fn lemma_short_decimals_are_read(ds: Seq<char>)
    requires
        0 < ds.len() <= 38,
        all_digits(ds),
    ensures
        parse_u128_spec(ds) == Some(decimal_value(ds) as u128),
        parse_u128_spec(seq!['+'] + ds) == Some(decimal_value(ds) as u128),
{
    lemma_decimal_value_bound(ds);
    lemma_pow10_monotone(ds.len(), 38);
    assert(pow10(38) == 100000000000000000000000000000000000000nat) by {
        reveal_with_fuel(pow10, 39);
    }
    assert(ds[0] != '+') by {
        assert(is_digit(ds[0]));
    }
    assert((seq!['+'] + ds).drop_first() =~= ds);
}

proof fn lemma_pow10_monotone(a: nat, c: nat)
    requires
        a <= c,
    ensures
        pow10(a) <= pow10(c),
    decreases c,
{
    if a < c {
        lemma_pow10_monotone(a, (c - 1) as nat);
    }
}

/// Every `u128` written in base 10 reads back as itself, with or without a
/// leading `+` and surrounding whitespace removed.
pub proof fn lemma_u128_decimal_round_trip(n: u128)
    ensures
        parse_u128_spec(decimal_spec(n as nat)) == Some(n),
        parse_u128_spec(trim_spec(decimal_spec(n as nat))) == Some(n),
        parse_u128_spec(seq!['+'] + decimal_spec(n as nat)) == Some(n),
{
    let d = decimal_spec(n as nat);
    lemma_decimal_spec_value(n as nat);
    assert(is_digit(d[0]));
    assert(is_digit(d[d.len() - 1]));
    assert(trim_start_spec(d) == d);
    assert(trim_end_spec(d) == d);
    assert((seq!['+'] + d).drop_first() =~= d);
}

/// Once a prefix of the digits overflows 128 bits, the literal cannot be
/// read as a `u128`, whatever follows.
proof fn lemma_digits_overflow(ds: Seq<char>, k: int)
    requires
        0 < k <= ds.len(),
        all_digits(ds.take(k)),
        decimal_value(ds.take(k)) > u128::MAX,
    ensures
        !(all_digits(ds) && decimal_value(ds) <= u128::MAX),
{
    if all_digits(ds) {
        lemma_decimal_value_prefix(ds, k);
    }
}

} // verus!

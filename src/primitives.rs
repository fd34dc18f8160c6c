use vstd::prelude::*;
use vstd::string::{StrSliceExecFns, StringExecFns};

verus! {

/// `std::num::ParseIntError`, the error of `str::parse::<i32>`, carried
/// through unopened.
#[verifier::external_type_specification]
#[verifier::external_body]
pub struct ExParseIntError(std::num::ParseIntError);

/// Whether `c` has Unicode's Alphabetic property.
pub uninterp spec fn alphabetic(c: char) -> bool;

/// Whether `c` is in one of Unicode's numeric categories (Nd, Nl, No).
pub uninterp spec fn numeric(c: char) -> bool;

/// Whether `c` has Unicode's White_Space property.
pub uninterp spec fn whitespace(c: char) -> bool;

/// The first character of the Unicode lower-case mapping of `c`.
pub uninterp spec fn lowercase_char(c: char) -> char;

/// The first character of the Unicode upper-case mapping of `c`.
pub uninterp spec fn uppercase_char(c: char) -> char;

/// The Unicode lower-case mapping of the string `s`.
pub uninterp spec fn lowercase_of(s: Seq<char>) -> Seq<char>;

/// The Unicode upper-case mapping of the string `s`.
pub uninterp spec fn uppercase_of(s: Seq<char>) -> Seq<char>;

/// Relies on `char::is_alphabetic`: the answer depends on `c` alone.
#[verifier::external_body]
fn char_alphabetic(c: char) -> (r: bool)
    ensures
        r == alphabetic(c),
{
    c.is_alphabetic()
}

/// Relies on `char::is_numeric`: the answer depends on `c` alone.
#[verifier::external_body]
fn char_numeric(c: char) -> (r: bool)
    ensures
        r == numeric(c),
{
    c.is_numeric()
}

/// Relies on `char::is_whitespace`: the answer depends on `c` alone.
#[verifier::external_body]
fn char_whitespace(c: char) -> (r: bool)
    ensures
        r == whitespace(c),
{
    c.is_whitespace()
}

/// Relies on `char::to_lowercase`, whose mapping always yields at least one
/// character and depends on `c` alone.
#[verifier::external_body]
fn char_lowercase(c: char) -> (r: char)
    ensures
        r == lowercase_char(c),
{
    c.to_lowercase().next().unwrap()
}

/// Relies on `char::to_uppercase`, whose mapping always yields at least one
/// character and depends on `c` alone.
#[verifier::external_body]
fn char_uppercase(c: char) -> (r: char)
    ensures
        r == uppercase_char(c),
{
    c.to_uppercase().next().unwrap()
}

/// `sub` occurs in `s` as a run of consecutive characters.
pub open spec fn has_substring(s: Seq<char>, sub: Seq<char>) -> bool {
    exists|i: int| 0 <= i <= s.len() - sub.len() && #[trigger] s.subrange(i, i + sub.len()) == sub
}

/// Relies on `str::contains` with a `&str` pattern: whether the pattern occurs
/// in the string.
#[verifier::external_body]
fn str_contains(s: &str, sub: &str) -> (r: bool)
    ensures
        r == has_substring(s@, sub@),
{
    s.contains(sub)
}

/// Relies on `str::to_lowercase`: the result depends on the characters alone.
#[verifier::external_body]
fn str_lowercase(s: &str) -> (r: String)
    ensures
        r@ == lowercase_of(s@),
{
    s.to_lowercase()
}

/// Relies on `str::to_uppercase`: the result depends on the characters alone.
#[verifier::external_body]
fn str_uppercase(s: &str) -> (r: String)
    ensures
        r@ == uppercase_of(s@),
{
    s.to_uppercase()
}

/// The decimal digits of `n`, most significant first, with no leading zero.
pub open spec fn digits_of(n: nat) -> Seq<char>
    decreases n,
{
    let d = seq!['0', '1', '2', '3', '4', '5', '6', '7', '8', '9'];
    if n < 10 {
        seq![d[n as int]]
    } else {
        digits_of(n / 10).push(d[(n % 10) as int])
    }
}

/// `i` written in decimal, with a minus sign where it is negative.
pub open spec fn decimal_of(i: int) -> Seq<char> {
    if i < 0 {
        seq!['-'] + digits_of((-i) as nat)
    } else {
        digits_of(i as nat)
    }
}

/// Relies on `ToString` for `i32`, which writes the number in decimal.
#[verifier::external_body]
fn i32_decimal(i: i32) -> (r: String)
    ensures
        r@ == decimal_of(i as int),
{
    i.to_string()
}

pub open spec fn is_ascii_digit(c: char) -> bool {
    '0' <= c <= '9'
}

/// The number that the decimal digits `s` write.
pub open spec fn digits_value(s: Seq<char>) -> int
    decreases s.len(),
{
    if s.len() == 0 {
        0
    } else {
        digits_value(s.drop_last()) * 10 + (s.last() as int - '0' as int)
    }
}

/// `s` without its leading `+` or `-`, if it has one.
pub open spec fn unsigned_part(s: Seq<char>) -> Seq<char> {
    if s.len() > 0 && (s[0] == '-' || s[0] == '+') {
        s.drop_first()
    } else {
        s
    }
}

/// What `str::parse::<i32>` reads from `s`: an optional `+` or `-`, then one
/// or more ASCII digits, whose value must fit in an `i32`.
pub open spec fn parsed_i32(s: Seq<char>) -> Option<i32> {
    let body = unsigned_part(s);
    let v = if s.len() > 0 && s[0] == '-' {
        -digits_value(body)
    } else {
        digits_value(body)
    };
    if body.len() > 0 && (forall|k: int|
        0 <= k < body.len() ==> is_ascii_digit(#[trigger] unsigned_part(s)[k])) && i32::MIN <= v
        <= i32::MAX {
        Some(v as i32)
    } else {
        None
    }
}

/// Relies on `str::parse::<i32>`, which reads an optional sign and decimal
/// digits and fails on anything else or on a value out of range.
#[verifier::external_body]
fn parse_i32(s: &str) -> (r: Result<i32, std::num::ParseIntError>)
    ensures
        match r {
            Ok(v) => parsed_i32(s@) == Some(v),
            Err(_) => parsed_i32(s@) is None,
        },
{
    s.parse::<i32>()
}

/// Small operations on Rust's primitive and compound types, each with the
/// meaning it has in Rust.
pub struct Primitives {}

/// Rust's `/` on integers: the quotient of the magnitudes, negated where the
/// signs differ, so that it rounds toward zero. (`/` on `int` rounds so that
/// the remainder is not negative.)
pub open spec fn trunc_div(x: int, d: int) -> int {
    if x == 0 {
        0
    } else if x > 0 && d > 0 {
        x / d
    } else if x < 0 && d < 0 {
        (x * -1) / (d * -1)
    } else if x < 0 {
        ((x * -1) / d) * -1
    } else {
        (x / (d * -1)) * -1
    }
}

/// Rust's `%` on integers: the remainder that goes with `trunc_div`, which has
/// the sign of `x`.
pub open spec fn trunc_rem(x: int, d: int) -> int {
    if x == 0 {
        0
    } else if x > 0 && d > 0 {
        x % d
    } else if x < 0 && d < 0 {
        ((x * -1) % (d * -1)) * -1
    } else if x < 0 {
        ((x * -1) % d) * -1
    } else {
        x % (d * -1)
    }
}

/// The sum of `s`, added from the first element on.
pub open spec fn seq_sum(s: Seq<i32>) -> int
    decreases s.len(),
{
    if s.len() == 0 {
        0
    } else {
        seq_sum(s.drop_last()) + s.last()
    }
}

impl Primitives {
    pub fn get_max_i8() -> (r: i8)
        ensures
            r == 127,
    {
        i8::MAX
    }

    pub fn get_min_i8() -> (r: i8)
        ensures
            r == -128,
    {
        i8::MIN
    }

    pub fn get_max_u8() -> (r: u8)
        ensures
            r == 255,
    {
        u8::MAX
    }

    pub fn get_min_u8() -> (r: u8)
        ensures
            r == 0,
    {
        u8::MIN
    }

    pub fn bitwise_and(a: u8, b: u8) -> (r: u8)
        ensures
            r == a & b,
    {
        a & b
    }

    pub fn bitwise_or(a: u8, b: u8) -> (r: u8)
        ensures
            r == a | b,
    {
        a | b
    }

    pub fn bitwise_xor(a: u8, b: u8) -> (r: u8)
        ensures
            r == a ^ b,
    {
        a ^ b
    }

    pub fn bitwise_not(a: u8) -> (r: u8)
        ensures
            r == 255 - a,
    {
        let r = !a;
        assert(r == 255 - a) by (bit_vector)
            requires
                r == !a,
        ;
        r
    }

    /// Shifts left by `b` bits, dropping the bits shifted out.
    pub fn left_shift(a: u8, b: u32) -> (r: u8)
        requires
            b < 8,
        ensures
            r == a << b,
    {
        a << b
    }

    pub fn right_shift(a: u8, b: u32) -> (r: u8)
        requires
            b < 8,
        ensures
            r == a as nat / vstd::arithmetic::power2::pow2(b as nat),
    {
        let r = a >> b;
        proof {
            vstd::bits::lemma_u8_shr_is_div(a, b as u8);
        }
        r
    }

    pub fn checked_add(a: u8, b: u8) -> (r: Option<u8>)
        ensures
            r == (if a + b > 255 {
                None
            } else {
                Some((a + b) as u8)
            }),
    {
        a.checked_add(b)
    }

    pub fn saturating_add(a: u8, b: u8) -> (r: u8)
        ensures
            r == (if a + b > 255 {
                255
            } else {
                a + b
            }),
    {
        a.saturating_add(b)
    }

    pub fn add_integers(a: i32, b: i32) -> (r: i32)
        requires
            i32::MIN <= a + b <= i32::MAX,
        ensures
            r == a + b,
    {
        a + b
    }

    pub fn subtract_integers(a: i32, b: i32) -> (r: i32)
        requires
            i32::MIN <= a - b <= i32::MAX,
        ensures
            r == a - b,
    {
        a - b
    }

    pub fn multiply_integers(a: i32, b: i32) -> (r: i32)
        requires
            i32::MIN <= a * b <= i32::MAX,
        ensures
            r == a * b,
    {
        a * b
    }

    pub fn divide_integers(a: i32, b: i32) -> (r: i32)
        requires
            b != 0,
            !(a == i32::MIN && b == -1),
        ensures
            r == trunc_div(a as int, b as int),
    {
        proof {
            let (x, d) = (a as int, b as int);
            if x < 0 && d < 0 {
                assert(0 <= (x * -1) / (d * -1)) by (nonlinear_arith)
                    requires
                        x < 0,
                        d < 0,
                ;
                if d < -1 {
                    vstd::arithmetic::div_mod::lemma_div_is_ordered_by_denominator(x * -1, 2, d * -1);
                    assert((x * -1) / 2 <= i32::MAX);
                } else {
                    assert(d * -1 == 1);
                    assert((x * -1) / 1 == x * -1);
                }
            } else if x < 0 {
                assert(0 <= (x * -1) / d <= x * -1) by (nonlinear_arith)
                    requires
                        x < 0,
                        d > 0,
                ;
            } else if x > 0 && d < 0 {
                assert(0 <= x / (d * -1) <= x) by (nonlinear_arith)
                    requires
                        x > 0,
                        d < 0,
                ;
            } else if x > 0 {
                assert(0 <= x / d <= x) by (nonlinear_arith)
                    requires
                        x > 0,
                        d > 0,
                ;
            }
        }
        match a.checked_div(b) {
            Some(q) => q,
            None => 0,
        }
    }

    pub fn remainder_integers(a: i32, b: i32) -> (r: i32)
        requires
            b != 0,
            !(a == i32::MIN && b == -1),
        ensures
            r == trunc_rem(a as int, b as int),
    {
        match a.checked_rem(b) {
            Some(q) => q,
            None => 0,
        }
    }

    pub fn wrapping_add_u8(a: u8, b: u8) -> (r: u8)
        ensures
            r == (a + b) % 256,
    {
        a.wrapping_add(b)
    }

    pub fn is_char_alphabetic(c: char) -> (r: bool)
        ensures
            r == alphabetic(c),
    {
        char_alphabetic(c)
    }

    pub fn is_char_numeric(c: char) -> (r: bool)
        ensures
            r == numeric(c),
    {
        char_numeric(c)
    }

    pub fn is_char_whitespace(c: char) -> (r: bool)
        ensures
            r == whitespace(c),
    {
        char_whitespace(c)
    }

    pub fn is_char_ascii(c: char) -> (r: bool)
        ensures
            r == (c as u32 <= 0x7f),
    {
        (c as u32) <= 0x7f
    }

    pub fn char_to_lowercase(c: char) -> (r: char)
        ensures
            r == lowercase_char(c),
    {
        char_lowercase(c)
    }

    pub fn char_to_uppercase(c: char) -> (r: char)
        ensures
            r == uppercase_char(c),
    {
        char_uppercase(c)
    }

    pub fn logical_and(a: bool, b: bool) -> (r: bool)
        ensures
            r == (a && b),
    {
        a && b
    }

    pub fn logical_or(a: bool, b: bool) -> (r: bool)
        ensures
            r == (a || b),
    {
        a || b
    }

    pub fn logical_not(a: bool) -> (r: bool)
        ensures
            r == !a,
    {
        !a
    }

    pub fn is_equal(a: i32, b: i32) -> (r: bool)
        ensures
            r == (a == b),
    {
        a == b
    }

    pub fn is_not_equal(a: i32, b: i32) -> (r: bool)
        ensures
            r == (a != b),
    {
        a != b
    }

    pub fn is_greater(a: i32, b: i32) -> (r: bool)
        ensures
            r == (a > b),
    {
        a > b
    }

    pub fn is_less(a: i32, b: i32) -> (r: bool)
        ensures
            r == (a < b),
    {
        a < b
    }

    pub fn is_greater_or_equal(a: i32, b: i32) -> (r: bool)
        ensures
            r == (a >= b),
    {
        a >= b
    }

    pub fn is_less_or_equal(a: i32, b: i32) -> (r: bool)
        ensures
            r == (a <= b),
    {
        a <= b
    }

    pub fn is_even(n: i32) -> (r: bool)
        ensures
            r == (n % 2 == 0),
    {
        n % 2 == 0
    }

    /// The code point of `c`.
    pub fn char_to_unicode(c: char) -> (r: u32)
        ensures
            r == c as u32,
    {
        c as u32
    }

    pub fn create_array() -> (r: [i32; 5])
        ensures
            r@ == seq![1i32, 2, 3, 4, 5],
    {
        let r = [1, 2, 3, 4, 5];
        assert(r@ =~= seq![1i32, 2, 3, 4, 5]);
        r
    }

    /// `length` copies of `value`.
    pub fn create_repeated_array(value: i32, length: usize) -> (r: Vec<i32>)
        ensures
            r@ == Seq::new(length as nat, |i: int| value),
    {
        let mut r: Vec<i32> = Vec::new();
        let mut i: usize = 0;
        while i < length
            invariant
                i <= length,
                r@ == Seq::new(i as nat, |k: int| value),
            decreases length - i,
        {
            r.push(value);
            i = i + 1;
            assert(r@ =~= Seq::new(i as nat, |k: int| value));
        }
        r
    }

    /// The element at `index`, if there is one.
    pub fn get_array_element(arr: &[i32], index: usize) -> (r: Option<i32>)
        ensures
            r == (if index < arr@.len() {
                Some(arr@[index as int])
            } else {
                None
            }),
    {
        if index < arr.len() {
            Some(arr[index])
        } else {
            None
        }
    }

    /// The elements from `start` up to, not including, `end`.
    pub fn get_array_slice(arr: &[i32], start: usize, end: usize) -> (r: &[i32])
        requires
            start <= end <= arr@.len(),
        ensures
            r@ == arr@.subrange(start as int, end as int),
    {
        vstd::slice::slice_subrange(arr, start, end)
    }

    /// The sum of the elements, added from the first on; every partial sum
    /// must fit in an `i32`.
    pub fn sum_array(arr: &[i32]) -> (r: i32)
        requires
            forall|k: int|
                0 <= k <= arr@.len() ==> i32::MIN <= #[trigger] seq_sum(arr@.subrange(0, k))
                    <= i32::MAX,
        ensures
            r == seq_sum(arr@),
    {
        let mut acc: i32 = 0;
        let mut i: usize = 0;
        while i < arr.len()
            invariant
                i <= arr@.len(),
                acc == seq_sum(arr@.subrange(0, i as int)),
                forall|k: int|
                    0 <= k <= arr@.len() ==> i32::MIN <= #[trigger] seq_sum(arr@.subrange(0, k))
                        <= i32::MAX,
            decreases arr@.len() - i,
        {
            assert(arr@.subrange(0, i + 1).drop_last() =~= arr@.subrange(0, i as int));
            assert(i32::MIN <= seq_sum(arr@.subrange(0, i + 1)) <= i32::MAX);
            acc = acc + arr[i];
            i = i + 1;
        }
        assert(arr@.subrange(0, i as int) =~= arr@);
        acc
    }

    /// The elements of `arr1`, then those of `arr2`.
    pub fn concatenate_arrays(arr1: &[i32], arr2: &[i32]) -> (r: Vec<i32>)
        ensures
            r@ == arr1@ + arr2@,
    {
        let mut r: Vec<i32> = Vec::new();
        let mut i: usize = 0;
        while i < arr1.len()
            invariant
                i <= arr1@.len(),
                r@ == arr1@.subrange(0, i as int),
            decreases arr1@.len() - i,
        {
            r.push(arr1[i]);
            i = i + 1;
            assert(r@ =~= arr1@.subrange(0, i as int));
        }
        let mut j: usize = 0;
        while j < arr2.len()
            invariant
                i == arr1@.len(),
                j <= arr2@.len(),
                r@ == arr1@ + arr2@.subrange(0, j as int),
            decreases arr2@.len() - j,
        {
            r.push(arr2[j]);
            j = j + 1;
            assert(r@ =~= arr1@ + arr2@.subrange(0, j as int));
        }
        assert(arr1@.subrange(0, i as int) =~= arr1@);
        assert(arr2@.subrange(0, j as int) =~= arr2@);
        r
    }

    /// The length of `s` in bytes of UTF-8.
    pub fn string_length(s: &str) -> (r: usize)
        ensures
            r == vstd::utf8::encode_utf8(s@).len() as usize,
    {
        s.len()
    }

    /// The number of characters of `s`.
    pub fn string_char_count(s: &str) -> (r: usize)
        ensures
            r == s@.len(),
    {
        s.unicode_len()
    }

    pub fn string_concatenate(s1: &str, s2: &str) -> (r: String)
        ensures
            r@ == s1@ + s2@,
    {
        let first = <String as StringExecFns>::from_str(s1);
        first.concat(s2)
    }

    pub fn string_contains(s: &str, substring: &str) -> (r: bool)
        ensures
            r == has_substring(s@, substring@),
    {
        str_contains(s, substring)
    }

    pub fn string_to_uppercase(s: &str) -> (r: String)
        ensures
            r@ == uppercase_of(s@),
    {
        str_uppercase(s)
    }

    pub fn string_to_lowercase(s: &str) -> (r: String)
        ensures
            r@ == lowercase_of(s@),
    {
        str_lowercase(s)
    }

    pub fn i32_to_string(i: i32) -> (r: String)
        ensures
            r@ == decimal_of(i as int),
    {
        i32_decimal(i)
    }

    pub fn string_to_i32(s: &str) -> (r: Result<i32, std::num::ParseIntError>)
        ensures
            match r {
                Ok(v) => parsed_i32(s@) == Some(v),
                Err(_) => parsed_i32(s@) is None,
            },
    {
        parse_i32(s)
    }
}

} // verus!

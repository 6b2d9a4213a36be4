//! The grammars of the literals found in element text: numbers in four
//! notations, don't-care bits, and the decimal rendering used when encoding.

use vstd::prelude::*;
use vstd::slice::slice_subrange;
use crate::error::LiteralFault;
use crate::search::{first_position, lemma_first_position, lemma_first_position_is};
use crate::text::{push_char, text_chars};

verus! {

/// The value of `c` as a digit of `radix`: `0`-`9`, then letters of either case
/// for ten and above; `None` where `c` is no digit of that radix.
pub open spec fn digit_value(c: char, radix: int) -> Option<int> {
    let code = c as int;
    let v = if 48 <= code <= 57 {
        code - 48
    } else if 97 <= code <= 122 {
        code - 97 + 10
    } else if 65 <= code <= 90 {
        code - 65 + 10
    } else {
        36
    };
    if v < radix {
        Some(v)
    } else {
        None
    }
}

/// Every character of `s` is a digit of `radix`.
pub open spec fn all_digits(s: Seq<char>, radix: int) -> bool {
    forall|i: int| 0 <= i < s.len() ==> (#[trigger] digit_value(s[i], radix)) is Some
}

/// The number that the digits `s` denote in `radix`, most significant digit first.
pub open spec fn digits_value(s: Seq<char>, radix: int) -> int
    decreases s.len(),
{
    if s.len() == 0 {
        0
    } else {
        digits_value(s.drop_last(), radix) * radix + digit_value(s.last(), radix).unwrap()
    }
}

/// `s` without one leading `+`.
pub open spec fn unsigned_digits(s: Seq<char>) -> Seq<char> {
    if s.len() > 0 && s[0] == '+' {
        s.drop_first()
    } else {
        s
    }
}

/// What `s` denotes as an unsigned 32-bit number in `radix`: an optional `+`, then
/// one digit or more.
pub open spec fn radix_literal(s: Seq<char>, radix: int) -> Result<u32, LiteralFault> {
    let digits = unsigned_digits(s);
    if s.len() == 0 {
        Err(LiteralFault::Empty)
    } else if digits.len() == 0 || !all_digits(digits, radix) {
        Err(LiteralFault::InvalidDigit)
    } else if digits_value(digits, radix) > u32::MAX {
        Err(LiteralFault::Overflow)
    } else {
        Ok(digits_value(digits, radix) as u32)
    }
}

/// `c`, or `0` where `c` is the don't-care bit `x` or `X`.
pub open spec fn zero_dont_care(c: char) -> char {
    if c == 'x' || c == 'X' {
        '0'
    } else {
        c
    }
}

/// `s` with every don't-care bit replaced by `0`.
pub open spec fn zero_dont_cares(s: Seq<char>) -> Seq<char> {
    s.map_values(|c: char| zero_dont_care(c))
}

/// `text` starts with `0x` or `0X`.
pub open spec fn is_hex_form(text: Seq<char>) -> bool {
    text.len() >= 2 && text[0] == '0' && (text[1] == 'x' || text[1] == 'X')
}

/// `text` starts with `#`.
pub open spec fn is_hash_form(text: Seq<char>) -> bool {
    text.len() >= 1 && text[0] == '#'
}

/// `text` starts with `0b`.
pub open spec fn is_binary_form(text: Seq<char>) -> bool {
    text.len() >= 2 && text[0] == '0' && text[1] == 'b'
}

/// The number that `text` denotes. The notation is chosen by prefix, in this
/// order: `0x` or `0X` for hexadecimal, `#` for binary, `0b` for binary, and
/// decimal without a prefix. In both binary forms a don't-care bit counts as `0`.
pub open spec fn integer_literal(text: Seq<char>) -> Result<u32, LiteralFault> {
    if is_hex_form(text) {
        radix_literal(text.skip(2), 16)
    } else if is_hash_form(text) {
        radix_literal(zero_dont_cares(text.skip(1)), 2)
    } else if is_binary_form(text) {
        radix_literal(zero_dont_cares(text.skip(2)), 2)
    } else {
        radix_literal(text, 10)
    }
}

/// The value of `c` as a digit of `radix`.
pub fn digit_of(c: char, radix: u32) -> (r: Option<u32>)
    requires
        2 <= radix <= 36,
    ensures
        match r {
            Some(v) => digit_value(c, radix as int) == Some(v as int),
            None => digit_value(c, radix as int) is None,
        },
{
    let code: u32 = c as u32;
    let v: u32 = if 48 <= code && code <= 57 {
        code - 48
    } else if 97 <= code && code <= 122 {
        code - 97 + 10
    } else if 65 <= code && code <= 90 {
        code - 65 + 10
    } else {
        36
    };
    if v < radix {
        Some(v)
    } else {
        None
    }
}

/// Appending a digit multiplies the value by the radix and adds the digit.
pub proof fn lemma_digits_value_push(s: Seq<char>, c: char, radix: int)
    ensures
        digits_value(s.push(c), radix) == digits_value(s, radix) * radix + digit_value(
            c,
            radix,
        ).unwrap(),
{
    assert(s.push(c).drop_last() =~= s);
}

/// The value of valid digits is not negative.
pub proof fn lemma_digits_value_nonnegative(s: Seq<char>, radix: int)
    requires
        all_digits(s, radix),
        radix >= 1,
    ensures
        digits_value(s, radix) >= 0,
    decreases s.len(),
{
    if s.len() > 0 {
        lemma_digits_value_nonnegative(s.drop_last(), radix);
        let d = digit_value(s.last(), radix);
        assert(d is Some);
        assert(digits_value(s.drop_last(), radix) * radix >= 0) by (nonlinear_arith)
            requires
                digits_value(s.drop_last(), radix) >= 0,
                radix >= 1,
        ;
    }
}

/// Decodes the digits of an unsigned 32-bit number written in `radix`, with an
/// optional leading `+`.
pub fn parse_radix(digits: &[char], radix: u32) -> (r: Result<u32, LiteralFault>)
    requires
        2 <= radix <= 36,
    ensures
        r == radix_literal(digits@, radix as int),
{
    let n = digits.len();
    if n == 0 {
        return Err(LiteralFault::Empty);
    }
    let start: usize = if digits[0] == '+' {
        1
    } else {
        0
    };
    if start == n {
        assert(unsigned_digits(digits@).len() == 0);
        return Err(LiteralFault::InvalidDigit);
    }
    let ghost body = unsigned_digits(digits@);
    assert(body =~= digits@.skip(start as int));
    let mut acc: u64 = 0;
    let mut overflow = false;
    let mut i: usize = start;
    assert(body.take(0) =~= Seq::<char>::empty());
    while i < n
        invariant
            2 <= radix <= 36,
            n == digits.len(),
            start <= i <= n,
            body == digits@.skip(start as int),
            body == unsigned_digits(digits@),
            all_digits(body.take(i - start), radix as int),
            !overflow ==> acc == digits_value(body.take(i - start), radix as int) && acc
                <= u32::MAX,
            overflow ==> digits_value(body.take(i - start), radix as int) > u32::MAX,
        decreases n - i,
    {
        let ghost k = i - start;
        let ghost before = body.take(k);
        let c = digits[i];
        assert(body[k] == c);
        assert(body.take(k + 1) =~= before.push(c));
        match digit_of(c, radix) {
            None => {
                assert(digit_value(body[k], radix as int) is None);
                return Err(LiteralFault::InvalidDigit);
            },
            Some(d) => {
                proof {
                    lemma_digits_value_push(before, c, radix as int);
                    lemma_digits_value_nonnegative(before, radix as int);
                    assert forall|j: int| 0 <= j < before.push(c).len() implies (
                    #[trigger] digit_value(before.push(c)[j], radix as int)) is Some by {
                        if j < k {
                            assert(before.push(c)[j] == before[j]);
                        }
                    }
                }
                if !overflow {
                    assert(acc * radix + d <= 0xffff_ffff * 36 + 35) by (nonlinear_arith)
                        requires
                            acc <= 0xffff_ffff,
                            radix <= 36,
                            d < radix,
                    ;
                    let next: u64 = acc * (radix as u64) + (d as u64);
                    if next > 0xffff_ffff {
                        overflow = true;
                    } else {
                        acc = next;
                    }
                } else {
                    assert(digits_value(before, radix as int) * radix + d >= digits_value(
                        before,
                        radix as int,
                    )) by (nonlinear_arith)
                        requires
                            digits_value(before, radix as int) >= 0,
                            radix >= 1,
                            d >= 0,
                    ;
                }
            },
        }
        i += 1;
    }
    assert(body.take(n - start) =~= body);
    if overflow {
        Err(LiteralFault::Overflow)
    } else {
        Ok(acc as u32)
    }
}

/// Replaces every don't-care bit of `digits` by `0`.
pub fn normalize_dont_care(digits: &[char]) -> (r: Vec<char>)
    ensures
        r@ == zero_dont_cares(digits@),
{
    let mut out: Vec<char> = Vec::new();
    let mut i: usize = 0;
    while i < digits.len()
        invariant
            i <= digits.len(),
            out@ == zero_dont_cares(digits@.take(i as int)),
        decreases digits.len() - i,
    {
        let c = digits[i];
        let z = if c == 'x' || c == 'X' {
            '0'
        } else {
            c
        };
        out.push(z);
        assert(zero_dont_cares(digits@.take(i + 1)) =~= zero_dont_cares(
            digits@.take(i as int),
        ).push(zero_dont_care(c)));
        i += 1;
    }
    assert(digits@.take(digits.len() as int) =~= digits@);
    out
}

/// Decodes a number from the characters of its literal.
pub fn parse_integer_chars(text: &[char]) -> (r: Result<u32, LiteralFault>)
    ensures
        r == integer_literal(text@),
{
    let n = text.len();
    if n >= 2 && text[0] == '0' && (text[1] == 'x' || text[1] == 'X') {
        parse_radix(slice_subrange(text, 2, n), 16)
    } else if n >= 1 && text[0] == '#' {
        let bits = normalize_dont_care(slice_subrange(text, 1, n));
        parse_radix(bits.as_slice(), 2)
    } else if n >= 2 && text[0] == '0' && text[1] == 'b' {
        let bits = normalize_dont_care(slice_subrange(text, 2, n));
        parse_radix(bits.as_slice(), 2)
    } else {
        parse_radix(text, 10)
    }
}

/// Decodes a number from its literal.
pub fn parse_integer(text: &str) -> (r: Result<u32, LiteralFault>)
    ensures
        r == integer_literal(text@),
{
    let chars = text_chars(text);
    parse_integer_chars(chars.as_slice())
}

/// A character that is no digit of the radix makes the whole literal invalid.
pub proof fn lemma_invalid_digit(s: Seq<char>, radix: int, i: int)
    requires
        0 <= i < unsigned_digits(s).len(),
        digit_value(unsigned_digits(s)[i], radix) is None,
    ensures
        radix_literal(s, radix) == Err::<u32, LiteralFault>(LiteralFault::InvalidDigit),
{
}

/// Valid digits are no sign, so nothing is taken off them.
pub proof fn lemma_digits_unsigned(digits: Seq<char>, radix: int)
    requires
        all_digits(digits, radix),
        radix <= 36,
    ensures
        unsigned_digits(digits) == digits,
{
    if digits.len() > 0 {
        assert(digit_value(digits[0], radix) is Some);
    }
}

/// Hexadecimal digits behind `0x` or `0X` denote their value, where it fits in
/// 32 bits.
pub proof fn lemma_hexadecimal_literal(digits: Seq<char>, upper: bool)
    requires
        digits.len() > 0,
        all_digits(digits, 16),
        digits_value(digits, 16) <= u32::MAX,
    ensures
        integer_literal(
            seq![
                '0',
                if upper {
                    'X'
                } else {
                    'x'
                },
            ] + digits,
        ) == Ok::<u32, LiteralFault>(digits_value(digits, 16) as u32),
{
    let text = seq![
        '0',
        if upper {
            'X'
        } else {
            'x'
        },
    ] + digits;
    assert(text.skip(2) =~= digits);
    lemma_digits_unsigned(digits, 16);
    lemma_digits_value_nonnegative(digits, 16);
}

/// Bits behind `#` or `0b` denote their value with every don't-care bit
/// counted as `0`, where it fits in 32 bits.
pub proof fn lemma_binary_literal(bits: Seq<char>, hash: bool)
    requires
        bits.len() > 0,
        all_digits(zero_dont_cares(bits), 2),
        digits_value(zero_dont_cares(bits), 2) <= u32::MAX,
    ensures
        integer_literal(
            if hash {
                seq!['#'] + bits
            } else {
                seq!['0', 'b'] + bits
            },
        ) == Ok::<u32, LiteralFault>(digits_value(zero_dont_cares(bits), 2) as u32),
{
    let zeroed = zero_dont_cares(bits);
    lemma_digits_unsigned(zeroed, 2);
    lemma_digits_value_nonnegative(zeroed, 2);
    if hash {
        assert((seq!['#'] + bits).skip(1) =~= bits);
    } else {
        assert((seq!['0', 'b'] + bits).skip(2) =~= bits);
    }
}

/// Decimal digits without a prefix denote their value, where it fits in 32 bits.
pub proof fn lemma_decimal_literal(digits: Seq<char>)
    requires
        digits.len() > 0,
        all_digits(digits, 10),
        digits_value(digits, 10) <= u32::MAX,
    ensures
        integer_literal(digits) == Ok::<u32, LiteralFault>(digits_value(digits, 10) as u32),
{
    lemma_digits_unsigned(digits, 10);
    lemma_digits_value_nonnegative(digits, 10);
    assert(digit_value(digits[0], 10) is Some);
    if digits.len() >= 2 {
        assert(digit_value(digits[1], 10) is Some);
    }
}

/// The character that writes the digit `d` of a decimal number.
pub open spec fn digit_char(d: int) -> char {
    if d == 0 {
        '0'
    } else if d == 1 {
        '1'
    } else if d == 2 {
        '2'
    } else if d == 3 {
        '3'
    } else if d == 4 {
        '4'
    } else if d == 5 {
        '5'
    } else if d == 6 {
        '6'
    } else if d == 7 {
        '7'
    } else if d == 8 {
        '8'
    } else {
        '9'
    }
}

/// The decimal notation of `n`: no sign, no leading zero but for zero itself.
pub open spec fn decimal_digits(n: nat) -> Seq<char>
    decreases n,
{
    if n < 10 {
        seq![digit_char(n as int)]
    } else {
        decimal_digits(n / 10).push(digit_char((n % 10) as int))
    }
}

/// The decimal notation is made of decimal digits, starts with one, and denotes
/// the number it was made from.
pub proof fn lemma_decimal_digits(n: nat)
    ensures
        decimal_digits(n).len() > 0,
        all_digits(decimal_digits(n), 10),
        digits_value(decimal_digits(n), 10) == n,
        forall|i: int|
            0 <= i < decimal_digits(n).len() ==> 48 <= (#[trigger] decimal_digits(n)[i]) as int
                <= 57,
    decreases n,
{
    let d = decimal_digits(n);
    if n < 10 {
        assert(d.drop_last() =~= Seq::<char>::empty());
        assert(digits_value(d.drop_last(), 10) == 0);
        assert(d.last() == digit_char(n as int));
    } else {
        let head = decimal_digits(n / 10);
        let c = digit_char((n % 10) as int);
        lemma_decimal_digits(n / 10);
        lemma_digits_value_push(head, c, 10);
        assert forall|i: int| 0 <= i < d.len() implies (#[trigger] digit_value(d[i], 10)) is Some by {
            if i < head.len() {
                assert(d[i] == head[i]);
            }
        }
        assert forall|i: int| 0 <= i < d.len() implies 48 <= (#[trigger] d[i]) as int <= 57 by {
            if i < head.len() {
                assert(d[i] == head[i]);
            }
        }
    }
}

/// Reading the decimal notation of a 32-bit number gives the number back.
pub proof fn lemma_decimal_round_trip(n: u32)
    ensures
        radix_literal(decimal_digits(n as nat), 10) == Ok::<u32, LiteralFault>(n),
        integer_literal(decimal_digits(n as nat)) == Ok::<u32, LiteralFault>(n),
{
    let d = decimal_digits(n as nat);
    lemma_decimal_digits(n as nat);
    assert(48 <= d[0] as int <= 57);
    assert(unsigned_digits(d) == d);
    if d.len() >= 2 {
        assert(48 <= d[1] as int <= 57);
    }
}

/// The character that writes `d`.
fn digit_to_char(d: u32) -> (r: char)
    requires
        d < 10,
    ensures
        r == digit_char(d as int),
{
    if d == 0 {
        '0'
    } else if d == 1 {
        '1'
    } else if d == 2 {
        '2'
    } else if d == 3 {
        '3'
    } else if d == 4 {
        '4'
    } else if d == 5 {
        '5'
    } else if d == 6 {
        '6'
    } else if d == 7 {
        '7'
    } else if d == 8 {
        '8'
    } else {
        '9'
    }
}

/// What is left to write of `m`: its decimal notation, or nothing for zero.
spec fn leading_digits(m: nat) -> Seq<char> {
    if m == 0 {
        Seq::empty()
    } else {
        decimal_digits(m)
    }
}

proof fn lemma_leading_digits(m: nat)
    ensures
        decimal_digits(m) == leading_digits(m / 10).push(digit_char((m % 10) as int)),
{
    if m < 10 {
        assert(m / 10 == 0);
        assert(decimal_digits(m) =~= Seq::<char>::empty().push(digit_char(m as int)));
    }
}

/// The decimal notation of `n`.
pub fn decimal_text(n: u32) -> (r: String)
    ensures
        r@ == decimal_digits(n as nat),
{
    // The digits are found from the least significant one up.
    let mut low_first: Vec<char> = Vec::new();
    let mut m: u32 = n;
    proof {
        lemma_leading_digits(n as nat);
    }
    low_first.push(digit_to_char(m % 10));
    m = m / 10;
    while m > 0
        invariant
            low_first@.len() > 0,
            decimal_digits(n as nat) == leading_digits(m as nat) + low_first@.reverse(),
        decreases m,
    {
        proof {
            lemma_leading_digits(m as nat);
            let c = digit_char((m % 10) as int);
            assert(low_first@.push(c).reverse() =~= seq![c] + low_first@.reverse());
            assert(leading_digits((m / 10) as nat).push(c) + low_first@.reverse() =~= leading_digits(
                (m / 10) as nat,
            ) + (seq![c] + low_first@.reverse()));
        }
        low_first.push(digit_to_char(m % 10));
        m = m / 10;
    }
    assert(decimal_digits(n as nat) =~= low_first@.reverse());
    let mut out = String::new();
    let len = low_first.len();
    let mut i: usize = 0;
    while i < len
        invariant
            len == low_first.len(),
            i <= len,
            out@ == low_first@.reverse().take(i as int),
        decreases len - i,
    {
        push_char(&mut out, low_first[len - 1 - i]);
        assert(low_first@.reverse().take(i + 1) =~= low_first@.reverse().take(i as int).push(
            low_first@[len - 1 - i],
        ));
        i += 1;
    }
    assert(low_first@.reverse().take(len as int) =~= low_first@.reverse());
    out
}

/// What `text` denotes as a truth value: `0` and `false` are false, `1` and
/// `true` are true, anything else is no truth value.
pub open spec fn boolean_literal(text: Seq<char>) -> Option<bool> {
    if text == seq!['0'] || text == seq!['f', 'a', 'l', 's', 'e'] {
        Some(false)
    } else if text == seq!['1'] || text == seq!['t', 'r', 'u', 'e'] {
        Some(true)
    } else {
        None
    }
}

/// Decodes a truth value from the characters of its literal.
pub fn parse_boolean_chars(text: &[char]) -> (r: Option<bool>)
    ensures
        r == boolean_literal(text@),
{
    let n = text.len();
    if n == 1 && text[0] == '0' {
        assert(text@ =~= seq!['0']);
        Some(false)
    } else if n == 1 && text[0] == '1' {
        assert(text@ =~= seq!['1']);
        Some(true)
    } else if n == 4 && text[0] == 't' && text[1] == 'r' && text[2] == 'u' && text[3] == 'e' {
        assert(text@ =~= seq!['t', 'r', 'u', 'e']);
        Some(true)
    } else if n == 5 && text[0] == 'f' && text[1] == 'a' && text[2] == 'l' && text[3] == 's'
        && text[4] == 'e' {
        assert(text@ =~= seq!['f', 'a', 'l', 's', 'e']);
        Some(false)
    } else {
        None
    }
}

/// Decodes a truth value from its literal.
pub fn parse_boolean(text: &str) -> (r: Option<bool>)
    ensures
        r == boolean_literal(text@),
{
    let chars = text_chars(text);
    parse_boolean_chars(chars.as_slice())
}

/// The literal that writes `value`: `true` or `false`.
pub open spec fn boolean_text(value: bool) -> Seq<char> {
    if value {
        seq!['t', 'r', 'u', 'e']
    } else {
        seq!['f', 'a', 'l', 's', 'e']
    }
}

/// Reading the literal of a truth value gives the value back.
pub proof fn lemma_boolean_round_trip(value: bool)
    ensures
        boolean_literal(boolean_text(value)) == Some(value),
{
    assert(seq!['t', 'r', 'u', 'e'].len() == 4);
    assert(seq!['f', 'a', 'l', 's', 'e'].len() == 5);
    assert(seq!['t', 'r', 'u', 'e'][0] == 't');
    assert(seq!['f', 'a', 'l', 's', 'e'][0] == 'f');
    assert(seq!['0'].len() == 1);
    assert(seq!['1'].len() == 1);
}

/// The literal of a truth value.
pub fn boolean_string(value: bool) -> (r: String)
    ensures
        r@ == boolean_text(value),
{
    let mut out = String::new();
    if value {
        push_char(&mut out, 't');
        push_char(&mut out, 'r');
        push_char(&mut out, 'u');
        push_char(&mut out, 'e');
        assert(out@ =~= seq!['t', 'r', 'u', 'e']);
    } else {
        push_char(&mut out, 'f');
        push_char(&mut out, 'a');
        push_char(&mut out, 'l');
        push_char(&mut out, 's');
        push_char(&mut out, 'e');
        assert(out@ =~= seq!['f', 'a', 'l', 's', 'e']);
    }
    out
}

/// The test "is the character `c`".
pub open spec fn is_char(c: char) -> spec_fn(char) -> bool {
    |x: char| x == c
}

/// The position of the first `c` in `s`, or the length of `s` where there is none.
pub open spec fn position_of(s: Seq<char>, c: char) -> int {
    first_position(s, is_char(c))
}

/// `c` occurs in `s`.
pub open spec fn has_char(s: Seq<char>, c: char) -> bool {
    position_of(s, c) < s.len()
}

/// The position of the first `c` in `s`, or the length of `s` where there is none.
pub fn find_char(s: &[char], c: char) -> (r: usize)
    ensures
        r == position_of(s@, c),
        r <= s.len(),
{
    let mut i: usize = 0;
    while i < s.len()
        invariant
            i <= s.len(),
            forall|j: int| 0 <= j < i ==> !is_char(c)(#[trigger] s@[j]),
        decreases s.len() - i,
    {
        if s[i] == c {
            proof {
                lemma_first_position_is(s@, is_char(c), i as int);
            }
            return i;
        }
        i += 1;
    }
    proof {
        lemma_first_position_is(s@, is_char(c), i as int);
    }
    i
}

/// The pieces of `s` between its commas, in order; an empty piece where two
/// commas meet or where `s` starts or ends with one.
pub open spec fn comma_split(s: Seq<char>) -> Seq<Seq<char>>
    decreases s.len(),
{
    let i = position_of(s, ',');
    if 0 <= i < s.len() {
        seq![s.take(i)] + comma_split(s.skip(i + 1))
    } else {
        seq![s]
    }
}

/// The decimal notations of the numbers from `start` to `end`, both included,
/// in ascending order; nothing where `start` exceeds `end`.
pub open spec fn decimal_range(start: int, end: int) -> Seq<Seq<char>> {
    Seq::new(
        if start <= end {
            (end - start + 1) as nat
        } else {
            0
        },
        |i: int| decimal_digits((start + i) as nat),
    )
}

/// The index suffixes that `text` lists. Where `text` holds a `-`, the parts
/// before and after the first one are the decimal bounds of a range. Else,
/// where it holds a comma, the pieces between the commas are the suffixes as
/// they stand.
pub open spec fn index_list(text: Seq<char>) -> Result<Seq<Seq<char>>, LiteralFault> {
    let dash = position_of(text, '-');
    if has_char(text, '-') {
        match radix_literal(text.take(dash), 10) {
            Err(f) => Err(f),
            Ok(start) => match radix_literal(text.skip(dash + 1), 10) {
                Err(f) => Err(f),
                Ok(end) => Ok(decimal_range(start as int, end as int)),
            },
        }
    } else if has_char(text, ',') {
        Ok(comma_split(text))
    } else {
        Err(LiteralFault::NotIndexList)
    }
}

/// The models of `items`, in order.
pub open spec fn strings_view(items: Seq<String>) -> Seq<Seq<char>> {
    Seq::new(items.len(), |i: int| items[i]@)
}

/// The decimal notations of the numbers from `start` to `end`, both included.
pub fn decimal_range_texts(start: u32, end: u32) -> (r: Vec<String>)
    ensures
        strings_view(r@) == decimal_range(start as int, end as int),
{
    let mut out: Vec<String> = Vec::new();
    if start > end {
        assert(strings_view(out@) =~= decimal_range(start as int, end as int));
        return out;
    }
    let mut v: u32 = start;
    loop
        invariant_except_break
            start <= v <= end,
            strings_view(out@) == decimal_range(start as int, v - 1),
        ensures
            strings_view(out@) == decimal_range(start as int, end as int),
        decreases end - v,
    {
        let ghost before = strings_view(out@);
        out.push(decimal_text(v));
        assert(strings_view(out@) =~= before.push(decimal_digits(v as nat)));
        assert(before.push(decimal_digits(v as nat)) =~= decimal_range(start as int, v as int));
        if v == end {
            break ;
        }
        v += 1;
    }
    out
}

/// The pieces of `s` between its commas.
pub fn split_commas(s: &[char]) -> (r: Vec<String>)
    ensures
        strings_view(r@) == comma_split(s@),
{
    let mut out: Vec<String> = Vec::new();
    let mut piece = String::new();
    let mut start: usize = 0;
    let mut i: usize = 0;
    assert(s@.skip(0) =~= s@);
    assert(s@.subrange(0, 0) =~= Seq::<char>::empty());
    assert(strings_view(out@) =~= Seq::<Seq<char>>::empty());
    while i < s.len()
        invariant
            start <= i <= s.len(),
            piece@ == s@.subrange(start as int, i as int),
            forall|j: int| start <= j < i ==> !is_char(',')(#[trigger] s@[j]),
            comma_split(s@) == strings_view(out@) + comma_split(s@.skip(start as int)),
        decreases s.len() - i,
    {
        let c = s[i];
        if c == ',' {
            proof {
                let tail = s@.skip(start as int);
                assert forall|j: int| 0 <= j < i - start implies !is_char(',')(
                    #[trigger] tail[j],
                ) by {
                    assert(tail[j] == s@[start + j]);
                }
                lemma_first_position_is(tail, is_char(','), i - start);
                assert(tail.take(i - start) =~= piece@);
                assert(tail.skip(i - start + 1) =~= s@.skip(i + 1));
                assert(s@.subrange(i + 1, i + 1) =~= Seq::<char>::empty());
            }
            let ghost before = strings_view(out@);
            out.push(piece);
            assert(strings_view(out@) =~= before.push(s@.subrange(start as int, i as int)));
            assert(before + (seq![s@.subrange(start as int, i as int)] + comma_split(
                s@.skip(i + 1),
            )) =~= strings_view(out@) + comma_split(s@.skip(i + 1)));
            piece = String::new();
            start = i + 1;
        } else {
            push_char(&mut piece, c);
            assert(s@.subrange(start as int, i + 1) =~= s@.subrange(start as int, i as int).push(
                c,
            ));
        }
        i += 1;
    }
    proof {
        let tail = s@.skip(start as int);
        assert forall|j: int| 0 <= j < tail.len() implies !is_char(',')(#[trigger] tail[j]) by {
            assert(tail[j] == s@[start + j]);
        }
        lemma_first_position_is(tail, is_char(','), tail.len() as int);
        assert(tail =~= piece@);
    }
    let ghost before = strings_view(out@);
    out.push(piece);
    assert(strings_view(out@) =~= before + seq![s@.skip(start as int)]);
    out
}

/// Decodes a list of index suffixes from the characters of its literal.
pub fn parse_index_list_chars(text: &[char]) -> (r: Result<Vec<String>, LiteralFault>)
    ensures
        match r {
            Ok(items) => index_list(text@) == Ok::<Seq<Seq<char>>, LiteralFault>(
                strings_view(items@),
            ),
            Err(f) => index_list(text@) == Err::<Seq<Seq<char>>, LiteralFault>(f),
        },
{
    let n = text.len();
    let dash = find_char(text, '-');
    if dash < n {
        let start = parse_radix(slice_subrange(text, 0, dash), 10)?;
        let end = parse_radix(slice_subrange(text, dash + 1, n), 10)?;
        Ok(decimal_range_texts(start, end))
    } else if find_char(text, ',') < n {
        Ok(split_commas(text))
    } else {
        Err(LiteralFault::NotIndexList)
    }
}

/// The placeholder `%s` stands at position `i` of `s`.
pub open spec fn placeholder_at(s: Seq<char>, i: int) -> bool {
    0 <= i && i + 1 < s.len() && s[i] == '%' && s[i + 1] == 's'
}

/// `s` holds the placeholder `%s`.
pub open spec fn contains_placeholder(s: Seq<char>) -> bool {
    exists|i: int| placeholder_at(s, i)
}

/// Whether `name` holds the placeholder `%s`.
pub fn has_placeholder(name: &str) -> (r: bool)
    ensures
        r == contains_placeholder(name@),
{
    let chars = text_chars(name);
    let n = chars.len();
    if n < 2 {
        return false;
    }
    let mut i: usize = 0;
    while i < n - 1
        invariant
            n == chars.len(),
            n >= 2,
            i <= n - 1,
            chars@ == name@,
            forall|j: int| 0 <= j < i ==> !placeholder_at(name@, j),
        decreases n - i,
    {
        if chars[i] == '%' && chars[i + 1] == 's' {
            assert(placeholder_at(name@, i as int));
            return true;
        }
        i += 1;
    }
    false
}

/// `c` does not occur in `s`.
pub open spec fn free_of(s: Seq<char>, c: char) -> bool {
    forall|j: int| 0 <= j < s.len() ==> s[j] != c
}

/// A sequence is free of a character exactly where the character has no position in it.
pub proof fn lemma_free_of(s: Seq<char>, c: char)
    ensures
        free_of(s, c) <==> !has_char(s, c),
{
    lemma_first_position(s, is_char(c));
    if free_of(s, c) {
        lemma_first_position_is(s, is_char(c), s.len() as int);
    } else {
        let j = choose|j: int| 0 <= j < s.len() && s[j] == c;
        if !has_char(s, c) {
            assert(!is_char(c)(s[j]));
        }
    }
}

/// `items` with a comma between each two neighbours.
pub open spec fn comma_joined(items: Seq<Seq<char>>) -> Seq<char>
    decreases items.len(),
{
    if items.len() == 0 {
        Seq::empty()
    } else if items.len() == 1 {
        items[0]
    } else {
        comma_joined(items.drop_last()) + seq![','] + items.last()
    }
}

/// Joining starts with the first item, a comma, and the rest joined.
pub proof fn lemma_comma_joined_front(items: Seq<Seq<char>>)
    requires
        items.len() >= 2,
    ensures
        comma_joined(items) == items[0] + seq![','] + comma_joined(items.drop_first()),
    decreases items.len(),
{
    if items.len() == 2 {
        assert(items.drop_last() =~= seq![items[0]]);
        assert(items.drop_first() =~= seq![items[1]]);
        assert(comma_joined(items.drop_last()) == items[0]);
        assert(comma_joined(items.drop_first()) == items[1]);
    } else {
        let init = items.drop_last();
        lemma_comma_joined_front(init);
        assert(init.drop_first() =~= items.drop_first().drop_last());
        assert(items.drop_first().last() == items.last());
        assert(init[0] == items[0]);
        assert((items[0] + seq![','] + comma_joined(init.drop_first())) + seq![','] + items.last()
            =~= items[0] + seq![','] + (comma_joined(items.drop_first().drop_last()) + seq![',']
            + items.drop_first().last()));
    }
}

/// Splitting what was joined gives the items back, where none of them holds a comma.
pub proof fn lemma_split_joined(items: Seq<Seq<char>>)
    requires
        items.len() >= 1,
        forall|i: int| 0 <= i < items.len() ==> free_of(#[trigger] items[i], ','),
    ensures
        comma_split(comma_joined(items)) == items,
    decreases items.len(),
{
    let joined = comma_joined(items);
    if items.len() == 1 {
        assert(free_of(items[0], ','));
        lemma_free_of(items[0], ',');
        assert(comma_split(joined) =~= items);
    } else {
        lemma_comma_joined_front(items);
        let head = items[0];
        let rest = items.drop_first();
        assert(free_of(head, ','));
        assert forall|j: int| 0 <= j < head.len() implies !is_char(',')(#[trigger] joined[j]) by {
            assert(joined[j] == head[j]);
        }
        assert(joined[head.len() as int] == ',');
        lemma_first_position_is(joined, is_char(','), head.len() as int);
        assert(joined.take(head.len() as int) =~= head);
        assert(joined.skip(head.len() as int + 1) =~= comma_joined(rest));
        assert forall|i: int| 0 <= i < rest.len() implies free_of(#[trigger] rest[i], ',') by {
            assert(rest[i] == items[i + 1]);
        }
        lemma_split_joined(rest);
        assert(seq![head] + rest =~= items);
    }
}

/// What was joined is free of every character but the comma that the items are free of.
pub proof fn lemma_joined_free_of(items: Seq<Seq<char>>, c: char)
    requires
        c != ',',
        forall|i: int| 0 <= i < items.len() ==> free_of(#[trigger] items[i], c),
    ensures
        free_of(comma_joined(items), c),
    decreases items.len(),
{
    if items.len() == 1 {
        assert(free_of(items[0], c));
    } else if items.len() >= 2 {
        let init = items.drop_last();
        assert forall|i: int| 0 <= i < init.len() implies free_of(#[trigger] init[i], c) by {
            assert(init[i] == items[i]);
        }
        lemma_joined_free_of(init, c);
        assert(free_of(items.last(), c));
    }
}

/// What was joined from two items or more holds a comma.
pub proof fn lemma_joined_has_comma(items: Seq<Seq<char>>)
    requires
        items.len() >= 2,
    ensures
        has_char(comma_joined(items), ','),
{
    let joined = comma_joined(items);
    let k = comma_joined(items.drop_last()).len() as int;
    assert(joined[k] == ',');
    assert(!free_of(joined, ','));
    lemma_free_of(joined, ',');
}

/// Splitting gives one piece at least, and each piece is free of commas and of
/// every character that the whole is free of.
pub proof fn lemma_comma_split_pieces(s: Seq<char>, c: char)
    ensures
        comma_split(s).len() >= 1,
        has_char(s, ',') ==> comma_split(s).len() >= 2,
        forall|i: int| 0 <= i < comma_split(s).len() ==> free_of(#[trigger] comma_split(s)[i], ','),
        free_of(s, c) ==> forall|i: int|
            0 <= i < comma_split(s).len() ==> free_of(#[trigger] comma_split(s)[i], c),
    decreases s.len(),
{
    let i = position_of(s, ',');
    lemma_first_position(s, is_char(','));
    if 0 <= i < s.len() {
        let head = s.take(i);
        let tail = s.skip(i + 1);
        lemma_comma_split_pieces(tail, c);
        let pieces = comma_split(s);
        assert(pieces =~= seq![head] + comma_split(tail));
        assert(free_of(head, ',')) by {
            assert forall|j: int| 0 <= j < head.len() implies head[j] != ',' by {
                assert(!is_char(',')(s[j]));
            }
        }
        assert forall|k: int| 0 <= k < pieces.len() implies free_of(
            #[trigger] pieces[k],
            ',',
        ) by {
            if k > 0 {
                assert(pieces[k] == comma_split(tail)[k - 1]);
            }
        }
        if free_of(s, c) {
            assert(free_of(tail, c)) by {
                assert forall|j: int| 0 <= j < tail.len() implies tail[j] != c by {
                    assert(tail[j] == s[i + 1 + j]);
                }
            }
            assert(free_of(head, c)) by {
                assert forall|j: int| 0 <= j < head.len() implies head[j] != c by {
                    assert(head[j] == s[j]);
                }
            }
            assert forall|k: int| 0 <= k < pieces.len() implies free_of(
                #[trigger] pieces[k],
                c,
            ) by {
                if k > 0 {
                    assert(pieces[k] == comma_split(tail)[k - 1]);
                }
            }
        }
    } else {
        assert(comma_split(s) =~= seq![s]);
        lemma_free_of(s, ',');
    }
}

/// `s` is the decimal notation of a 32-bit number.
pub open spec fn is_decimal(s: Seq<char>) -> bool {
    radix_literal(s, 10) matches Ok(n) && decimal_digits(n as nat) == s
}

/// The literal that writes the index suffixes `items`. Two suffixes or more are
/// joined by commas. A single suffix that is a decimal number `n` is written as
/// the range `n-n`, and no suffix at all as the empty range `1-0`.
pub open spec fn index_list_text(items: Seq<Seq<char>>) -> Seq<char> {
    if items.len() == 0 {
        seq!['1', '-', '0']
    } else if items.len() == 1 {
        if is_decimal(items[0]) {
            items[0] + seq!['-'] + items[0]
        } else {
            items[0]
        }
    } else {
        comma_joined(items)
    }
}

/// The index suffixes that can be written and read back: none, one decimal
/// number, or two and more that hold neither a comma nor a `-`.
pub open spec fn is_index_list(items: Seq<Seq<char>>) -> bool {
    if items.len() == 0 {
        true
    } else if items.len() == 1 {
        is_decimal(items[0])
    } else {
        forall|i: int|
            0 <= i < items.len() ==> free_of(#[trigger] items[i], ',') && free_of(items[i], '-')
    }
}

/// A decimal notation holds neither a comma nor a `-`.
pub proof fn lemma_decimal_digits_free(n: nat)
    ensures
        free_of(decimal_digits(n), ','),
        free_of(decimal_digits(n), '-'),
{
    lemma_decimal_digits(n);
    let d = decimal_digits(n);
    assert forall|j: int| 0 <= j < d.len() implies d[j] != ',' && d[j] != '-' by {
        assert(48 <= d[j] as int <= 57);
    }
}

/// Index suffixes that can be written are read back as they were.
pub proof fn lemma_index_list_round_trip(items: Seq<Seq<char>>)
    requires
        is_index_list(items),
    ensures
        index_list(index_list_text(items)) == Ok::<Seq<Seq<char>>, LiteralFault>(items),
{
    let text = index_list_text(items);
    if items.len() == 0 {
        let one = seq!['1'];
        let zero = seq!['0'];
        assert(text[0] == '1' && text[1] == '-' && text[2] == '0');
        assert(!is_char('-')(text[0]));
        lemma_first_position_is(text, is_char('-'), 1);
        assert(text.take(1) =~= one);
        assert(text.skip(2) =~= zero);
        assert(one.drop_last() =~= Seq::<char>::empty());
        assert(zero.drop_last() =~= Seq::<char>::empty());
        assert(digits_value(Seq::<char>::empty(), 10) == 0);
        assert(digit_value('1', 10) == Some(1int));
        assert(digit_value('0', 10) == Some(0int));
        assert(one.last() == '1');
        assert(zero.last() == '0');
        assert(digits_value(one, 10) == 1);
        assert(digits_value(zero, 10) == 0);
        assert(all_digits(one, 10));
        assert(all_digits(zero, 10));
        assert(unsigned_digits(one) == one);
        assert(unsigned_digits(zero) == zero);
        assert(decimal_range(1, 0) =~= items);
    } else if items.len() == 1 {
        let d = items[0];
        let n = radix_literal(d, 10)->Ok_0;
        lemma_decimal_digits_free(n as nat);
        assert forall|j: int| 0 <= j < d.len() implies !is_char('-')(#[trigger] text[j]) by {
            assert(text[j] == d[j]);
        }
        assert(text[d.len() as int] == '-');
        lemma_first_position_is(text, is_char('-'), d.len() as int);
        assert(text.take(d.len() as int) =~= d);
        assert(text.skip(d.len() as int + 1) =~= d);
        assert(decimal_range(n as int, n as int) =~= items);
    } else {
        assert forall|i: int| 0 <= i < items.len() implies free_of(#[trigger] items[i], ',') by {}
        assert forall|i: int| 0 <= i < items.len() implies free_of(#[trigger] items[i], '-') by {}
        lemma_joined_free_of(items, '-');
        lemma_free_of(text, '-');
        lemma_joined_has_comma(items);
        lemma_split_joined(items);
    }
}

/// Index suffixes that were read can be written and read back.
pub proof fn lemma_index_list_readable(text: Seq<char>)
    ensures
        index_list(text) matches Ok(items) ==> is_index_list(items),
{
    if let Ok(items) = index_list(text) {
        if has_char(text, '-') {
            let dash = position_of(text, '-');
            let start = radix_literal(text.take(dash), 10)->Ok_0;
            let end = radix_literal(text.skip(dash + 1), 10)->Ok_0;
            if items.len() == 1 {
                lemma_decimal_round_trip(start);
            } else {
                assert forall|i: int| 0 <= i < items.len() implies free_of(
                    #[trigger] items[i],
                    ',',
                ) && free_of(items[i], '-') by {
                    lemma_decimal_digits_free((start + i) as nat);
                }
            }
        } else {
            lemma_free_of(text, '-');
            lemma_comma_split_pieces(text, '-');
        }
    }
}

/// Joins `items` with commas.
pub fn join_commas(items: &Vec<String>) -> (r: String)
    ensures
        r@ == comma_joined(strings_view(items@)),
{
    let mut out = String::new();
    let ghost all = strings_view(items@);
    let mut i: usize = 0;
    assert(all.take(0) =~= Seq::<Seq<char>>::empty());
    while i < items.len()
        invariant
            i <= items.len(),
            all == strings_view(items@),
            out@ == comma_joined(all.take(i as int)),
        decreases items.len() - i,
    {
        assert(all.take(i + 1).drop_last() =~= all.take(i as int));
        assert(all.take(i + 1).last() == items@[i as int]@);
        if i > 0 {
            push_char(&mut out, ',');
            assert(out@ =~= comma_joined(all.take(i as int)) + seq![',']);
        } else {
            assert(out@ + items@[0]@ =~= items@[0]@);
        }
        out.append(items[i].as_str());
        i += 1;
    }
    assert(all.take(items.len() as int) =~= all);
    out
}

/// The literal that writes the index suffixes `items`.
pub fn index_list_string(items: &Vec<String>) -> (r: String)
    ensures
        r@ == index_list_text(strings_view(items@)),
{
    if items.len() == 0 {
        let mut out = String::new();
        push_char(&mut out, '1');
        push_char(&mut out, '-');
        push_char(&mut out, '0');
        assert(out@ =~= seq!['1', '-', '0']);
        out
    } else if items.len() == 1 {
        let chars = text_chars(items[0].as_str());
        let decimal = match parse_radix(chars.as_slice(), 10) {
            Ok(n) => decimal_text(n) == items[0],
            Err(_) => false,
        };
        let mut out = items[0].clone();
        if decimal {
            push_char(&mut out, '-');
            out.append(items[0].as_str());
        }
        out
    } else {
        join_commas(items)
    }
}

} // verus!

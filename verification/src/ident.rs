//! Window identifiers: the text `w-` and the window handle in decimal.
use vstd::prelude::*;

verus! {

/// The decimal digit for `d`.
pub open spec fn digit_char(d: int) -> char {
    (d + 48) as char
}

/// The number that a decimal digit stands for.
pub open spec fn digit_value(c: char) -> int {
    c as int - 48
}

pub open spec fn is_digit(c: char) -> bool {
    '0' <= c <= '9'
}

/// The number in decimal, without leading zeros.
pub open spec fn decimal(n: nat) -> Seq<char>
    decreases n,
{
    if n < 10 {
        seq![digit_char(n as int)]
    } else {
        decimal(n / 10).push(digit_char((n % 10) as int))
    }
}

/// The number that a row of decimal digits stands for.
pub open spec fn digits_value(digits: Seq<char>) -> int
    decreases digits.len(),
{
    if digits.len() == 0 {
        0
    } else {
        digits_value(digits.drop_last()) * 10 + digit_value(digits.last())
    }
}

pub open spec fn all_digits(text: Seq<char>) -> bool {
    forall|i: int| 0 <= i < text.len() ==> is_digit(#[trigger] text[i])
}

/// The text behind a leading plus sign, or all of it where there is none.
pub open spec fn without_plus(text: Seq<char>) -> Seq<char> {
    if text.len() > 0 && text[0] == '+' {
        text.skip(1)
    } else {
        text
    }
}

/// The number that `text` writes: one or more decimal digits, with or without a plus sign in
/// front, that a `usize` can hold.
pub open spec fn number_of(text: Seq<char>) -> Option<usize> {
    let digits = without_plus(text);
    if digits.len() > 0 && all_digits(digits) && digits_value(digits) <= usize::MAX {
        Some(digits_value(digits) as usize)
    } else {
        None
    }
}

/// The identifier of the window with this handle.
pub open spec fn id_of(handle: usize) -> Seq<char> {
    seq!['w', '-'] + decimal(handle as nat)
}

/// The handle in a window identifier; `None` where the text is no identifier.
pub open spec fn handle_of(id: Seq<char>) -> Option<usize> {
    if id.len() >= 2 && id[0] == 'w' && id[1] == '-' {
        number_of(id.skip(2))
    } else {
        None
    }
}

proof fn lemma_digit(d: int)
    requires
        0 <= d <= 9,
    ensures
        is_digit(digit_char(d)),
        digit_value(digit_char(d)) == d,
{
}

proof fn lemma_decimal(n: nat)
    ensures
        decimal(n).len() > 0,
        all_digits(decimal(n)),
        digits_value(decimal(n)) == n,
    decreases n,
{
    if n < 10 {
        lemma_digit(n as int);
        assert(decimal(n).last() == digit_char(n as int));
        assert(digits_value(decimal(n).drop_last()) == 0);
    } else {
        lemma_decimal(n / 10);
        lemma_digit((n % 10) as int);
        assert(decimal(n).drop_last() == decimal(n / 10));
    }
}

/// The identifier of a window leads back to its handle.
pub proof fn law_id_round_trip(handle: usize)
    ensures
        handle_of(id_of(handle)) == Some(handle),
{
    lemma_decimal(handle as nat);
    let id = id_of(handle);
    assert(id.skip(2) == decimal(handle as nat));
    assert(is_digit(decimal(handle as nat)[0]));
    assert(without_plus(id.skip(2)) == decimal(handle as nat));
}

/// Windows with different handles have different identifiers.
pub proof fn law_ids_distinct(a: usize, b: usize)
    requires
        a != b,
    ensures
        id_of(a) != id_of(b),
{
    law_id_round_trip(a);
    law_id_round_trip(b);
}

proof fn lemma_value_grows(digits: Seq<char>, n: int)
    requires
        0 <= n <= digits.len(),
        all_digits(digits),
    ensures
        0 <= digits_value(digits.take(n)) <= digits_value(digits),
    decreases digits.len(),
{
    if n == digits.len() {
        assert(digits.take(n) == digits);
        if n > 0 {
            assert(is_digit(digits.last()));
            lemma_value_grows(digits.drop_last(), n - 1);
        }
    } else {
        assert(digits.drop_last().take(n) == digits.take(n));
        assert(is_digit(digits.last()));
        lemma_value_grows(digits.drop_last(), n);
    }
}

/// The characters of a text.
pub fn chars_of(text: &str) -> (chars: Vec<char>)
    ensures
        chars@ == text@,
{
    let mut chars: Vec<char> = Vec::new();
    for c in iter: text.chars()
        invariant
            iter.seq() == text@,
            chars@ == text@.take(iter.index() as int),
    {
        chars.push(c);
    }
    assert(text@.take(text@.len() as int) == text@);
    chars
}

/// Appends the number in decimal.
fn push_decimal(text: &mut String, n: usize)
    ensures
        final(text)@ == old(text)@ + decimal(n as nat),
    decreases n,
{
    if n >= 10 {
        push_decimal(text, n / 10);
    }
    let digit: u8 = (n % 10) as u8;
    let c: char = (48 + digit) as char;
    text.push(c);
    assert(text@ == old(text)@ + decimal(n as nat));
}

/// The identifier of the window with this handle.
pub fn window_id(handle: usize) -> (id: String)
    ensures
        id@ == id_of(handle),
{
    let mut id = String::new();
    id.push('w');
    id.push('-');
    push_decimal(&mut id, handle);
    assert(id@ == id_of(handle));
    id
}

/// The number that the characters from index `start` on write.
fn parse_number(chars: &Vec<char>, start: usize) -> (r: Option<usize>)
    requires
        start <= chars@.len(),
    ensures
        r == number_of(chars@.skip(start as int)),
{
    let ghost text = chars@.skip(start as int);
    let mut i: usize = start;
    if i < chars.len() && chars[i] == '+' {
        i = i + 1;
    }
    let first: usize = i;
    let ghost digits = without_plus(text);
    assert(digits == chars@.skip(first as int));
    if first == chars.len() {
        return None;
    }
    let mut value: usize = 0;
    assert(digits.take(0).len() == 0);
    while i < chars.len()
        invariant
            first <= i <= chars@.len(),
            digits == chars@.skip(first as int),
            digits == without_plus(text),
            digits.len() > 0,
            all_digits(digits.take(i - first)),
            value == digits_value(digits.take(i - first)),
            text == chars@.skip(start as int),
        ensures
            i == chars@.len(),
        decreases chars@.len() - i,
    {
        let c: char = chars[i];
        let ghost k = i - first;
        assert(digits[k] == c);
        assert(digits.take(k + 1).drop_last() == digits.take(k));
        assert(digits.take(k + 1).last() == c);
        if c < '0' || c > '9' {
            assert(!all_digits(digits));
            return None;
        }
        let digit: usize = (c as u32 - 48) as usize;
        assert(digits_value(digits.take(k + 1)) == value * 10 + digit);
        match value.checked_mul(10) {
            Some(shifted) => match shifted.checked_add(digit) {
                Some(sum) => {
                    value = sum;
                },
                None => {
                    proof {
                        if all_digits(digits) {
                            lemma_value_grows(digits, k + 1);
                        }
                    }
                    return None;
                },
            },
            None => {
                proof {
                    if all_digits(digits) {
                        lemma_value_grows(digits, k + 1);
                    }
                }
                return None;
            },
        }
        assert(all_digits(digits.take(k + 1)));
        i = i + 1;
    }
    assert(digits.take(i - first) == digits);
    Some(value)
}

/// The handle in a window identifier; `None` where the text is no identifier.
pub fn parse_window_id(id: &str) -> (r: Option<usize>)
    ensures
        r == handle_of(id@),
{
    let chars: Vec<char> = chars_of(id);
    if chars.len() >= 2 && chars[0] == 'w' && chars[1] == '-' {
        parse_number(&chars, 2)
    } else {
        None
    }
}

/// Counted from the right, the digit at place `i` of a number in decimal is the number of
/// times that ten to the power of `i` goes into it, up to the next power.
pub proof fn law_decimal_places(n: nat, i: nat)
    requires
        i < decimal(n).len(),
    ensures
        decimal(n)[decimal(n).len() - 1 - i] as int - 48 == (n as int / vstd::arithmetic::power::pow(10, i)) % 10,
        '0' <= decimal(n)[decimal(n).len() - 1 - i] <= '9',
    decreases n,
{
    lemma_decimal(n);
    assert(is_digit(decimal(n)[decimal(n).len() - 1 - i]));
    vstd::arithmetic::power::lemma_pow0(10);
    if n < 10 {
        lemma_digit(n as int);
    } else {
        lemma_digit((n % 10) as int);
        let shorter = decimal(n / 10);
        assert(decimal(n).len() == shorter.len() + 1);
        if i > 0 {
            let j = (i - 1) as nat;
            law_decimal_places(n / 10, j);
            vstd::arithmetic::power::lemma_pow_positive(10, j);
            vstd::arithmetic::div_mod::lemma_div_denominator(n as int, 10, vstd::arithmetic::power::pow(10, j));
            reveal(vstd::arithmetic::power::pow);
            assert(vstd::arithmetic::power::pow(10, i) == 10 * vstd::arithmetic::power::pow(10, j));
            assert(decimal(n)[decimal(n).len() - 1 - i] == shorter[shorter.len() - 1 - j]);
        }
    }
}

/// A number in decimal has just as many digits as it needs.
pub proof fn law_decimal_length(n: nat)
    ensures
        decimal(n).len() > 0,
        n < vstd::arithmetic::power::pow(10, decimal(n).len()),
        n == 0 ==> decimal(n).len() == 1,
        n > 0 ==> vstd::arithmetic::power::pow(10, (decimal(n).len() - 1) as nat) <= n,
    decreases n,
{
    reveal(vstd::arithmetic::power::pow);
    if n < 10 {
        vstd::arithmetic::power::lemma_pow0(10);
        assert(vstd::arithmetic::power::pow(10, 1) == 10 * vstd::arithmetic::power::pow(10, 0));
    } else {
        law_decimal_length(n / 10);
        let len = decimal(n / 10).len();
        assert(decimal(n).len() == len + 1);
        assert(vstd::arithmetic::power::pow(10, len + 1) == 10 * vstd::arithmetic::power::pow(10, len));
        assert(vstd::arithmetic::power::pow(10, len) == 10 * vstd::arithmetic::power::pow(10, (len - 1) as nat));
    }
}

/// The value of digits behind one another: those in front count as many times ten as digits
/// follow them, and a single digit counts what its character says.
pub proof fn law_digits_value_joins(a: Seq<char>, b: Seq<char>, c: char)
    ensures
        digits_value(a + b) == digits_value(a) * vstd::arithmetic::power::pow(10, b.len()) + digits_value(b),
        digits_value(seq![c]) == c as int - 48,
        digits_value(Seq::empty()) == 0,
    decreases b.len(),
{
    assert(seq![c].drop_last() == Seq::<char>::empty());
    assert(digits_value(seq![c]) == digits_value(Seq::empty()) * 10 + digit_value(c));
    if b.len() == 0 {
        vstd::arithmetic::power::lemma_pow0(10);
        assert(a + b == a);
    } else {
        let front = b.drop_last();
        law_digits_value_joins(a, front, c);
        assert((a + b).drop_last() == a + front);
        assert((a + b).last() == b.last());
        reveal(vstd::arithmetic::power::pow);
        let p = vstd::arithmetic::power::pow(10, front.len());
        let v = digits_value(a);
        let f = digits_value(front);
        assert(vstd::arithmetic::power::pow(10, b.len()) == 10 * p);
        assert((v * p + f) * 10 == v * (10 * p) + f * 10) by (nonlinear_arith);
    }
}

/// A text writes a number exactly where it consists of decimal digits, one at least, after a
/// plus sign or without one, and their value is not too large; the number is then that value.
pub proof fn law_number_of_digits(digits: Seq<char>)
    requires
        digits.len() > 0,
        forall|i: int| 0 <= i < digits.len() ==> '0' <= #[trigger] digits[i] <= '9',
    ensures
        digits_value(digits) <= usize::MAX ==> number_of(digits) == Some(
            digits_value(digits) as usize,
        ) && digits_value(digits) >= 0,
        digits_value(digits) > usize::MAX ==> number_of(digits) is None,
        number_of(seq!['+'] + digits) == number_of(digits),
        number_of(seq!['0'] + digits) == number_of(digits),
{
    let plus = seq!['+'] + digits;
    let zero = seq!['0'] + digits;
    assert(all_digits(digits));
    assert(digits[0] != '+');
    assert(without_plus(digits) == digits);
    assert(plus[0] == '+');
    assert(without_plus(plus) == digits);
    lemma_value_grows(digits, 0);
    assert(zero[0] == '0');
    assert(without_plus(zero) == zero);
    assert(all_digits(zero)) by {
        assert forall|i: int| 0 <= i < zero.len() implies is_digit(#[trigger] zero[i]) by {
            if i > 0 {
                assert(zero[i] == digits[i - 1]);
            }
        }
    }
    law_digits_value_joins(seq!['0'], digits, '0');
}

/// A text that is empty, is a plus sign only, or holds anything but digits behind its first
/// character or anything but a digit or a plus sign there, writes no number.
pub proof fn law_no_number(text: Seq<char>)
    requires
        text.len() == 0 || text == seq!['+'] || !(text[0] == '+' || '0' <= text[0] <= '9') || exists|
            i: int,
        |
            0 < i < text.len() && !('0' <= #[trigger] text[i] <= '9'),
    ensures
        number_of(text) is None,
{
    let digits = without_plus(text);
    if exists|i: int| 0 < i < text.len() && !('0' <= #[trigger] text[i] <= '9') {
        let i = choose|i: int| 0 < i < text.len() && !('0' <= #[trigger] text[i] <= '9');
        if text[0] == '+' {
            assert(digits[i - 1] == text[i]);
        }
        assert(!all_digits(digits));
    } else if text.len() > 0 && text[0] != '+' {
        assert(digits[0] == text[0]);
        assert(!all_digits(digits));
    }
}

/// A window identifier is `w-` and a number: behind anything else there is no handle.
pub proof fn law_identifier_form(handle: usize, text: Seq<char>)
    ensures
        id_of(handle) == seq!['w', '-'] + decimal(handle as nat),
        handle_of(seq!['w', '-'] + text) == number_of(text),
        !(text.len() >= 2 && text[0] == 'w' && text[1] == '-') ==> handle_of(text) is None,
{
    assert((seq!['w', '-'] + text).skip(2) == text);
}

} // verus!

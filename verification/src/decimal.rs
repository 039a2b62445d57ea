//! Decimal notation of natural numbers, as it stands in file names and in the
//! header of an image file.

use vstd::prelude::*;
use vstd::string::StringExecFns;

verus! {

/// The digits of `n` in base ten, most significant first, without leading
/// zeros; zero has the one digit `0`.
pub open spec fn decimal_digits(n: nat) -> Seq<u8>
    decreases n,
{
    if n < 10 {
        seq![n as u8]
    } else {
        decimal_digits(n / 10).push((n % 10) as u8)
    }
}

/// The number that a sequence of base-ten digits, most significant first,
/// denotes.
pub open spec fn decimal_value(digits: Seq<u8>) -> nat
    decreases digits.len(),
{
    if digits.len() == 0 {
        0
    } else {
        10 * decimal_value(digits.drop_last()) + digits.last() as nat
    }
}

/// The ASCII code of the digit `digit`.
pub open spec fn ascii_digit(digit: u8) -> u8 {
    (0x30 + digit) as u8
}

/// The decimal notation of `n` in ASCII.
pub open spec fn decimal_ascii(n: nat) -> Seq<u8> {
    decimal_digits(n).map_values(|digit: u8| ascii_digit(digit))
}

/// The decimal notation of `n` as text.
pub open spec fn decimal_chars(n: nat) -> Seq<char> {
    decimal_digits(n).map_values(|digit: u8| ascii_digit(digit) as char)
}

/// The digits of `n` are digits, there is at least one, the first is zero
/// only for zero itself, and together they denote `n`.
pub proof fn lemma_decimal_digits(n: nat)
    ensures
        decimal_digits(n).len() >= 1,
        forall|i: int| 0 <= i < decimal_digits(n).len() ==> #[trigger] decimal_digits(n)[i] < 10,
        decimal_digits(n)[0] == 0 <==> n == 0,
        decimal_value(decimal_digits(n)) == n,
    decreases n,
{
    if n < 10 {
        assert(decimal_digits(n).drop_last() =~= Seq::<u8>::empty());
        assert(decimal_value(decimal_digits(n).drop_last()) == 0);
    } else {
        lemma_decimal_digits(n / 10);
        assert(decimal_digits(n).drop_last() =~= decimal_digits(n / 10));
    }
}

/// Appends the digits of `n` in base ten to `digits`.
fn push_decimal_digits(digits: &mut Vec<u8>, n: usize)
    ensures
        final(digits)@ == old(digits)@ + decimal_digits(n as nat),
    decreases n,
{
    if n >= 10 {
        push_decimal_digits(digits, n / 10);
    }
    digits.push((n % 10) as u8);
}

/// Returns the digits of `n` in base ten, most significant first.
pub fn decimal_digits_of(n: usize) -> (digits: Vec<u8>)
    ensures
        digits@ == decimal_digits(n as nat),
{
    let mut digits: Vec<u8> = Vec::new();
    push_decimal_digits(&mut digits, n);
    digits
}

/// Appends the decimal notation of `n`, in ASCII, to `text`.
pub fn push_decimal_ascii(text: &mut Vec<u8>, n: usize)
    ensures
        final(text)@ == old(text)@ + decimal_ascii(n as nat),
{
    let digits: Vec<u8> = decimal_digits_of(n);
    proof {
        lemma_decimal_digits(n as nat);
    }
    let mut i: usize = 0;
    while i < digits.len()
        invariant
            i <= digits@.len(),
            digits@ == decimal_digits(n as nat),
            forall|j: int| 0 <= j < digits@.len() ==> #[trigger] digits@[j] < 10,
            text@ == old(text)@ + decimal_ascii(n as nat).take(i as int),
        decreases digits@.len() - i,
    {
        text.push(0x30 + digits[i]);
        assert(decimal_ascii(n as nat).take(i + 1) =~= decimal_ascii(n as nat).take(i as int).push(
            ascii_digit(digits@[i as int]),
        ));
        i += 1;
    }
    assert(decimal_ascii(n as nat).take(i as int) =~= decimal_ascii(n as nat));
}

/// The digit `digit` as text.
fn digit_text(digit: u8) -> (text: &'static str)
    requires
        digit < 10,
    ensures
        text@ == seq![ascii_digit(digit) as char],
{
    proof {
        reveal_strlit("0");
        reveal_strlit("1");
        reveal_strlit("2");
        reveal_strlit("3");
        reveal_strlit("4");
        reveal_strlit("5");
        reveal_strlit("6");
        reveal_strlit("7");
        reveal_strlit("8");
        reveal_strlit("9");
    }
    let text: &'static str = match digit {
        0 => "0",
        1 => "1",
        2 => "2",
        3 => "3",
        4 => "4",
        5 => "5",
        6 => "6",
        7 => "7",
        8 => "8",
        _ => "9",
    };
    assert(text@ =~= seq![ascii_digit(digit) as char]);
    text
}

/// Appends the decimal notation of `n` to `text`.
pub fn append_decimal(text: &mut String, n: usize)
    ensures
        final(text)@ == old(text)@ + decimal_chars(n as nat),
{
    let digits: Vec<u8> = decimal_digits_of(n);
    proof {
        lemma_decimal_digits(n as nat);
    }
    let mut i: usize = 0;
    while i < digits.len()
        invariant
            i <= digits@.len(),
            digits@ == decimal_digits(n as nat),
            forall|j: int| 0 <= j < digits@.len() ==> #[trigger] digits@[j] < 10,
            text@ == old(text)@ + decimal_chars(n as nat).take(i as int),
        decreases digits@.len() - i,
    {
        text.append(digit_text(digits[i]));
        assert(decimal_chars(n as nat).take(i + 1) =~= decimal_chars(n as nat).take(i as int)
            + seq![ascii_digit(digits@[i as int]) as char]);
        i += 1;
    }
    assert(decimal_chars(n as nat).take(i as int) =~= decimal_chars(n as nat));
}

} // verus!

//! Decimal and hexadecimal text.
use vstd::arithmetic::div_mod::lemma_div_denominator;
use vstd::arithmetic::power::{lemma_pow0, lemma_pow1, lemma_pow_positive, pow};
use vstd::prelude::*;
use vstd::string::*;

verus! {

/// The lower-case digit of value `d`, for `d` below 16.
pub open spec fn digit(d: int) -> char {
    if d < 10 {
        (48 + d) as char
    } else {
        (87 + d) as char
    }
}

/// `n` in decimal, without leading zeros.
pub open spec fn decimal(n: nat) -> Seq<char>
    decreases n,
{
    if n < 10 {
        seq![digit(n as int)]
    } else {
        decimal(n / 10).push(digit((n % 10) as int))
    }
}

/// The last `width` digits of `n` in base `base`, zeros in front.
pub open spec fn fixed_digits(n: nat, base: nat, width: nat) -> Seq<char>
    decreases width,
{
    if width == 0 {
        seq![]
    } else {
        fixed_digits(n / base, base, (width - 1) as nat).push(digit((n % base) as int))
    }
}

/// Two lower-case hexadecimal digits for each byte, in order.
pub open spec fn hex_string(bytes: Seq<u8>) -> Seq<char> {
    Seq::new(
        2 * bytes.len(),
        |i: int|
            if i % 2 == 0 {
                digit(bytes[i / 2] as int / 16)
            } else {
                digit(bytes[i / 2] as int % 16)
            },
    )
}

/// Appends the digit of value `d`.
fn push_digit(out: &mut String, d: usize)
    requires
        d < 16,
    ensures
        final(out)@ == old(out)@.push(digit(d as int)),
{
    let digits = "0123456789abcdef";
    proof {
        reveal_strlit("0123456789abcdef");
    }
    out.append(digits.substring_ascii(d, d + 1));
    assert(out@ =~= old(out)@.push(digit(d as int)));
}

/// Appends `n` in decimal.
pub fn push_decimal(out: &mut String, n: u64)
    ensures
        final(out)@ == old(out)@ + decimal(n as nat),
    decreases n,
{
    if n >= 10 {
        push_decimal(out, n / 10);
    }
    push_digit(out, (n % 10) as usize);
    assert(out@ =~= old(out)@ + decimal(n as nat));
}

/// Appends the last `width` digits of `n` in base `base`.
pub fn push_fixed_digits(out: &mut String, n: u32, base: u32, width: usize)
    requires
        2 <= base <= 16,
    ensures
        final(out)@ == old(out)@ + fixed_digits(n as nat, base as nat, width as nat),
    decreases width,
{
    if width > 0 {
        push_fixed_digits(out, n / base, base, width - 1);
        push_digit(out, (n % base) as usize);
    }
    assert(out@ =~= old(out)@ + fixed_digits(n as nat, base as nat, width as nat));
}

/// Two lower-case hexadecimal digits for each byte.
pub fn hex_bytes(bytes: &[u8]) -> (text: String)
    ensures
        text@ == hex_string(bytes@),
{
    let mut out: String = String::new();
    let mut i: usize = 0;
    assert(out@ =~= hex_string(bytes@.take(0)));
    while i < bytes.len()
        invariant
            i <= bytes@.len(),
            out@ == hex_string(bytes@.take(i as int)),
        decreases bytes@.len() - i,
    {
        let b: usize = bytes[i] as usize;
        push_digit(&mut out, b / 16);
        push_digit(&mut out, b % 16);
        assert(out@ =~= hex_string(bytes@.take(i as int + 1)));
        i = i + 1;
    }
    assert(bytes@.take(i as int) =~= bytes@);
    out
}

// ---- laws ----

/// The digits are 0 to 9 and a to f.
pub proof fn digits_are_hexadecimal(d: int)
    requires
        0 <= d < 16,
    ensures
        digit(d) == seq![
            '0', '1', '2', '3', '4', '5', '6', '7', '8', '9', 'a', 'b', 'c', 'd', 'e', 'f',
        ][d],
{
}

/// Fixed digits are positional: there are `width` of them, and the digit with `i` digits behind
/// it counts the `i`-th power of the base.
pub proof fn fixed_digits_are_positional(n: nat, base: nat, width: nat)
    requires
        base >= 2,
    ensures
        fixed_digits(n, base, width).len() == width,
        forall|i: int|
            0 <= i < width ==> #[trigger] fixed_digits(n, base, width)[width - 1 - i] == digit(
                n as int / pow(base as int, i as nat) % base as int,
            ),
    decreases width,
{
    if width > 0 {
        let text = fixed_digits(n, base, width);
        let front = fixed_digits(n / base, base, (width - 1) as nat);
        fixed_digits_are_positional(n / base, base, (width - 1) as nat);
        assert forall|i: int| 0 <= i < width implies #[trigger] text[width - 1 - i] == digit(
            n as int / pow(base as int, i as nat) % base as int,
        ) by {
            if i == 0 {
                lemma_pow0(base as int);
            } else {
                let p = pow(base as int, (i - 1) as nat);
                assert(text[width - 1 - i] == front[(width - 1) - 1 - (i - 1)]);
                lemma_pow_positive(base as int, (i - 1) as nat);
                lemma_div_denominator(n as int, base as int, p);
                assert(pow(base as int, i as nat) == base as int * p) by {
                    reveal(pow);
                }
            }
        }
    }
}

/// Decimal digits are positional, and there are just enough of them: the first is not 0, but for
/// the number 0 itself.
pub proof fn decimal_is_positional(n: nat)
    ensures
        decimal(n).len() > 0,
        forall|i: int|
            0 <= i < decimal(n).len() ==> #[trigger] decimal(n)[decimal(n).len() - 1 - i] == digit(
                n as int / pow(10, i as nat) % 10,
            ),
        n > 0 ==> decimal(n)[0] != '0',
        n == 0 ==> decimal(n) == seq!['0'],
        n as int / pow(10, decimal(n).len()) == 0,
    decreases n,
{
    let text = decimal(n);
    lemma_pow0(10);
    lemma_pow1(10);
    if n >= 10 {
        let front = decimal(n / 10);
        decimal_is_positional(n / 10);
        assert forall|i: int| 0 <= i < text.len() implies #[trigger] text[text.len() - 1 - i]
            == digit(n as int / pow(10, i as nat) % 10) by {
            if i > 0 {
                let p = pow(10, (i - 1) as nat);
                assert(text[text.len() - 1 - i] == front[front.len() - 1 - (i - 1)]);
                lemma_pow_positive(10, (i - 1) as nat);
                lemma_div_denominator(n as int, 10, p);
                assert(pow(10, i as nat) == 10 * p) by {
                    reveal(pow);
                }
            }
        }
        let p = pow(10, front.len());
        lemma_pow_positive(10, front.len());
        lemma_div_denominator(n as int, 10, p);
        assert(pow(10, text.len()) == 10 * p) by {
            reveal(pow);
        }
    } else {
        assert(text[text.len() - 1 - 0] == digit(n as int));
    }
}

/// Two digits stand for each byte, that of its sixteens first.
pub proof fn hex_is_two_digits_each(bytes: Seq<u8>)
    ensures
        hex_string(bytes).len() == 2 * bytes.len(),
        forall|i: int|
            0 <= i < bytes.len() ==> hex_string(bytes)[2 * i] == digit((#[trigger] bytes[i]) as int / 16)
                && hex_string(bytes)[2 * i + 1] == digit(bytes[i] as int % 16),
{
}

} // verus!

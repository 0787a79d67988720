//! Decimal rendering of numbers into strings.
use vstd::prelude::*;

verus! {

/// `String::push` appends one character.
pub assume_specification[ String::push ](s: &mut String, ch: char)
    ensures
        final(s)@ == old(s)@.push(ch),
;

/// The character of a decimal digit below ten.
pub open spec fn digit_char(d: nat) -> char {
    ((48 + d) as u8) as char
}

/// The decimal representation of a natural number, without leading zeros.
pub open spec fn decimal(n: nat) -> Seq<char>
    decreases n,
{
    if n < 10 {
        seq![digit_char(n)]
    } else {
        decimal(n / 10).push(digit_char(n % 10))
    }
}

/// A run of `k` zero characters.
pub open spec fn zeros(k: nat) -> Seq<char> {
    Seq::new(k, |i: int| '0')
}

/// The decimal representation of `n`, padded on the left with zeros to
/// `width` characters when it is shorter.
pub open spec fn padded_decimal(n: nat, width: nat) -> Seq<char> {
    let d = decimal(n);
    if d.len() < width {
        zeros((width - d.len()) as nat) + d
    } else {
        d
    }
}

/// A decimal digit character.
pub open spec fn is_digit(c: char) -> bool {
    '0' <= c && c <= '9'
}

/// The number a string of decimal digits stands for.
pub open spec fn digits_value(d: Seq<char>) -> int
    decreases d.len(),
{
    if d.len() == 0 {
        0
    } else {
        digits_value(d.drop_last()) * 10 + (d.last() as int - 48)
    }
}

/// A digit's character is the character code 48 (`0`) plus the digit.
proof fn lemma_digit_char(d: nat)
    requires
        d < 10,
    ensures
        digit_char(d) as int == 48 + d,
        is_digit(digit_char(d)),
{
    let b = (48 + d) as u8;
    assert(b as int == 48 + d);
    assert((b as char) as int == b as int);
}

/// The decimal representation of `n` is a nonempty string of digits,
/// without a leading zero unless it is the single digit, that reads back
/// as `n`.
pub proof fn law_decimal_reads_back(n: nat)
    ensures
        decimal(n).len() >= 1,
        forall|i: int| 0 <= i < decimal(n).len() ==> is_digit(#[trigger] decimal(n)[i]),
        digits_value(decimal(n)) == n,
        decimal(n).len() > 1 ==> decimal(n)[0] != '0',
    decreases n,
{
    if n < 10 {
        lemma_digit_char(n);
        assert(decimal(n).drop_last() =~= Seq::<char>::empty());
        assert(digits_value(Seq::<char>::empty()) == 0);
    } else {
        lemma_digit_char(n % 10);
        law_decimal_reads_back(n / 10);
        let d = decimal(n / 10);
        assert(decimal(n).drop_last() =~= d);
        assert(decimal(n).last() == digit_char(n % 10));
        assert(n == (n / 10) * 10 + n % 10);
        assert(digits_value(decimal(n)) == digits_value(d) * 10 + (digit_char(n % 10) as int - 48));
        assert(decimal(n)[0] == d[0]);
        if d.len() == 1 {
            assert(d.drop_last() =~= Seq::<char>::empty());
            assert(digits_value(Seq::<char>::empty()) == 0);
            assert(d.last() == d[0]);
            assert(digits_value(d) == d[0] as int - 48);
            assert(d[0] != '0');
        }
        assert(forall|i: int| 0 <= i < d.len() ==> decimal(n)[i] == d[i]);
    }
}

/// Numbers below 100000 have at most five decimal digits.
pub proof fn lemma_decimal_short(n: nat)
    ensures
        n < 10 ==> decimal(n).len() == 1,
        n < 100 ==> decimal(n).len() <= 2,
        n < 1000 ==> decimal(n).len() <= 3,
        n < 10000 ==> decimal(n).len() <= 4,
        n < 100000 ==> decimal(n).len() <= 5,
    decreases n,
{
    if n >= 10 {
        lemma_decimal_short(n / 10);
    }
}

/// Zeros on the left do not change the number a string of digits stands for.
proof fn lemma_leading_zeros(k: nat, d: Seq<char>)
    ensures
        digits_value(zeros(k) + d) == digits_value(d),
    decreases d.len(), k,
{
    if d.len() == 0 {
        assert(zeros(k) + d =~= zeros(k));
        if k > 0 {
            assert(zeros(k).drop_last() =~= zeros((k - 1) as nat));
            lemma_leading_zeros((k - 1) as nat, d);
            assert(zeros((k - 1) as nat) + d =~= zeros((k - 1) as nat));
        }
    } else {
        assert((zeros(k) + d).drop_last() =~= zeros(k) + d.drop_last());
        lemma_leading_zeros(k, d.drop_last());
    }
}

/// The zero-padded decimal representation of `n` is a string of digits,
/// `width` long unless `n` needs more, that reads back as `n`.
pub proof fn law_padded_decimal_reads_back(n: nat, width: nat)
    ensures
        padded_decimal(n, width).len() == if decimal(n).len() < width {
            width
        } else {
            decimal(n).len()
        },
        forall|i: int|
            0 <= i < padded_decimal(n, width).len() ==> is_digit(
                #[trigger] padded_decimal(n, width)[i],
            ),
        digits_value(padded_decimal(n, width)) == n,
{
    law_decimal_reads_back(n);
    let d = decimal(n);
    if d.len() < width {
        let z = zeros((width - d.len()) as nat);
        lemma_leading_zeros((width - d.len()) as nat, d);
        assert forall|i: int| 0 <= i < (z + d).len() implies is_digit(#[trigger] (z + d)[i]) by {
            if i >= z.len() {
                assert((z + d)[i] == d[i - z.len()]);
            }
        }
    }
}

/// Appends the decimal representation of `n`.
pub fn push_decimal(s: &mut String, n: u64)
    ensures
        final(s)@ == old(s)@ + decimal(n as nat),
    decreases n,
{
    if n >= 10 {
        push_decimal(s, n / 10);
    }
    let d: u8 = (n % 10) as u8;
    let c = (48u8 + d) as char;
    s.push(c);
    assert(s@ =~= old(s)@ + decimal(n as nat));
}

/// The number of digits of the decimal representation of `n`.
fn decimal_len(n: u64) -> (r: u64)
    ensures
        r == decimal(n as nat).len(),
        r <= n + 1,
    decreases n,
{
    if n < 10 {
        1
    } else {
        1 + decimal_len(n / 10)
    }
}

/// Appends the decimal representation of `n`, zero-padded to `width` characters.
pub fn push_padded_decimal(s: &mut String, n: u64, width: u64)
    ensures
        final(s)@ == old(s)@ + padded_decimal(n as nat, width as nat),
{
    let len = decimal_len(n);
    let mut k: u64 = len;
    while k < width
        invariant
            len == decimal(n as nat).len(),
            len <= k,
            k <= width || k == len,
            s@ == old(s)@ + zeros((k - len) as nat),
        decreases width - k,
    {
        s.push('0');
        assert(zeros((k - len) as nat).push('0') =~= zeros((k + 1 - len) as nat));
        k = k + 1;
    }
    let ghost pad = s@;
    push_decimal(s, n);
    if len < width {
        assert(k == width);
        assert(s@ =~= old(s)@ + (zeros((width - len) as nat) + decimal(n as nat)));
    } else {
        assert(zeros((k - len) as nat) =~= Seq::<char>::empty());
        assert(s@ =~= old(s)@ + decimal(n as nat));
    }
}

} // verus!

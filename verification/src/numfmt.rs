//! Decimal rendering of integers, as the `{}` and `{:0N}` formats of Rust
//! print them, written out as specifications over character sequences.
use vstd::prelude::*;

verus! {

/// The character of one decimal digit.
pub open spec fn digit_char(d: nat) -> char {
    if d == 0 {
        '0'
    } else if d == 1 {
        '1'
    } else if d == 2 {
        '2'
    } else if d == 3 {
        '3'
    } else if d == 4 {
        '4'
    } else if d == 5 {
        '5'
    } else if d == 6 {
        '6'
    } else if d == 7 {
        '7'
    } else if d == 8 {
        '8'
    } else {
        '9'
    }
}

/// The decimal digits of a natural number, most significant first, without
/// leading zeros (zero itself is the single digit `0`).
pub open spec fn decimal_digits(n: nat) -> Seq<char>
    decreases n,
{
    if n < 10 {
        seq![digit_char(n)]
    } else {
        decimal_digits(n / 10).push(digit_char(n % 10))
    }
}

/// The absolute value of an integer.
pub open spec fn magnitude(n: int) -> nat {
    if n < 0 {
        (-n) as nat
    } else {
        n as nat
    }
}

/// The sign prefix of an integer as Rust prints it: `-` for negative values.
pub open spec fn sign_text(n: int) -> Seq<char> {
    if n < 0 {
        seq!['-']
    } else {
        Seq::empty()
    }
}

/// An integer as the `{}` format prints it.
pub open spec fn decimal_text(n: int) -> Seq<char> {
    sign_text(n) + decimal_digits(magnitude(n))
}

/// A run of `k` zero characters.
pub open spec fn zeros(k: nat) -> Seq<char> {
    Seq::new(k, |i: int| '0')
}

/// An integer as the `{:0width$}` format prints it: the sign, then as many
/// zeros as make the whole text `width` characters long, then the digits.
/// A text that is already as long as `width` gets no zeros.
pub open spec fn zero_padded_text(n: int, width: nat) -> Seq<char> {
    let fill = width - sign_text(n).len() - decimal_digits(magnitude(n)).len();
    sign_text(n) + zeros(
        if fill > 0 {
            fill as nat
        } else {
            0
        },
    ) + decimal_digits(magnitude(n))
}

/// Powers of ten.
pub open spec fn pow10(k: nat) -> nat
    decreases k,
{
    if k == 0 {
        1
    } else {
        10 * pow10((k - 1) as nat)
    }
}

/// A number below `10^k` has at most `k` digits.
pub proof fn lemma_digits_len_bound(n: nat, k: nat)
    requires
        k >= 1,
        n < pow10(k),
    ensures
        decimal_digits(n).len() <= k,
    decreases n,
{
    if n >= 10 {
        assert(k >= 2) by {
            if k == 1 {
                assert(pow10(1) == 10) by {
                    reveal_with_fuel(pow10, 2);
                }
            }
        }
        assert(n / 10 < pow10((k - 1) as nat)) by {
            assert(pow10(k) == 10 * pow10((k - 1) as nat));
        }
        lemma_digits_len_bound(n / 10, (k - 1) as nat);
    }
}

/// Every digit sequence is non-empty.
pub proof fn lemma_digits_nonempty(n: nat)
    ensures
        decimal_digits(n).len() >= 1,
    decreases n,
{
    if n >= 10 {
        lemma_digits_nonempty(n / 10);
    }
}

/// Whether a character is one of the digits `0` to `9`.
pub open spec fn is_digit(c: char) -> bool {
    '0' <= c <= '9'
}

/// The number that a text of decimal digits stands for, read the usual way:
/// each digit weighs ten times the digit after it.
pub open spec fn digits_value(text: Seq<char>) -> int
    decreases text.len(),
{
    if text.len() == 0 {
        0
    } else {
        digits_value(text.drop_last()) * 10 + (text.last() as int - '0' as int)
    }
}

/// The character of a digit is a digit character that stands for it.
proof fn lemma_digit_char_value(d: nat)
    requires
        d < 10,
    ensures
        is_digit(digit_char(d)),
        digit_char(d) as int - '0' as int == d,
{
    assert(('0' as int) == 48 && ('9' as int) == 57);
    if d == 0 {
        assert(('0' as int) - ('0' as int) == 0);
    } else if d == 1 {
        assert(('1' as int) == 49);
    } else if d == 2 {
        assert(('2' as int) == 50);
    } else if d == 3 {
        assert(('3' as int) == 51);
    } else if d == 4 {
        assert(('4' as int) == 52);
    } else if d == 5 {
        assert(('5' as int) == 53);
    } else if d == 6 {
        assert(('6' as int) == 54);
    } else if d == 7 {
        assert(('7' as int) == 55);
    } else if d == 8 {
        assert(('8' as int) == 56);
    }
}

/// Whether a text reads as the integer `n`: a `-` exactly when `n` is
/// negative, then at least one decimal digit, the digits reading back as
/// the magnitude of `n`.
pub open spec fn reads_as(text: Seq<char>, n: int) -> bool {
    let digits = if n < 0 {
        text.drop_first()
    } else {
        text
    };
    &&& text.len() >= 1
    &&& (text[0] == '-') == (n < 0)
    &&& digits.len() >= 1
    &&& forall|i: int| 0 <= i < digits.len() ==> is_digit(#[trigger] digits[i])
    &&& digits_value(digits) == if n < 0 {
        -n
    } else {
        n
    }
}

/// The digits of a number are decimal digits that read back as the number,
/// and the first of them is `0` only when the number is zero.
pub proof fn lemma_digits_read_back(n: nat)
    ensures
        forall|i: int| 0 <= i < decimal_digits(n).len() ==> is_digit(#[trigger] decimal_digits(n)[i]),
        digits_value(decimal_digits(n)) == n,
        decimal_digits(n).len() >= 1,
        n > 0 ==> decimal_digits(n)[0] != '0',
    decreases n,
{
    lemma_digit_char_value(n % 10);
    if n < 10 {
        assert(decimal_digits(n).drop_last() =~= Seq::<char>::empty());
        assert(n % 10 == n);
        assert(decimal_digits(n).last() == digit_char(n));
        assert(digits_value(decimal_digits(n)) == digits_value(Seq::<char>::empty()) * 10 + (
        digit_char(n) as int - '0' as int));
    } else {
        lemma_digits_read_back(n / 10);
        let d = decimal_digits(n);
        assert(d.drop_last() =~= decimal_digits(n / 10));
        assert(d[0] == decimal_digits(n / 10)[0]);
        assert(d.last() == digit_char(n % 10));
        vstd::arithmetic::div_mod::lemma_fundamental_div_mod(n as int, 10);
        assert(digits_value(d) == digits_value(decimal_digits(n / 10)) * 10 + (digit_char(n % 10)
            as int - '0' as int));
    }
}

/// Zeros in front of digits do not change what they read as.
pub proof fn lemma_leading_zeros_read_back(k: nat, digits: Seq<char>)
    ensures
        digits_value(zeros(k) + digits) == digits_value(digits),
    decreases digits.len() + k,
{
    if digits.len() == 0 {
        if k > 0 {
            assert((zeros(k) + digits).drop_last() =~= zeros((k - 1) as nat) + digits);
            lemma_leading_zeros_read_back((k - 1) as nat, digits);
        } else {
            assert(zeros(k) + digits =~= digits);
        }
    } else {
        assert((zeros(k) + digits).drop_last() =~= zeros(k) + digits.drop_last());
        lemma_leading_zeros_read_back(k, digits.drop_last());
    }
}

/// An integer as the `{}` format prints it reads back as the integer, and
/// its digits have no leading zero (zero itself is the single digit `0`).
pub proof fn lemma_decimal_text_reads_back(n: int)
    ensures
        reads_as(decimal_text(n), n),
        (if n < 0 {
            decimal_text(n)[1]
        } else {
            decimal_text(n)[0]
        }) == '0' ==> n == 0,
{
    lemma_digits_read_back(magnitude(n));
    let t = decimal_text(n);
    if n < 0 {
        assert(t.drop_first() =~= decimal_digits(magnitude(n)));
        assert(t[1] == t.drop_first()[0]);
    } else {
        assert(t =~= decimal_digits(magnitude(n)));
    }
}

/// An integer as the `{:0width$}` format prints it is `width` characters
/// long, or as long as its plain text when that is longer, and reads back
/// as the integer.
pub proof fn lemma_zero_padded_reads_back(n: int, width: nat)
    ensures
        zero_padded_text(n, width).len() == if decimal_text(n).len() < width {
            width as int
        } else {
            decimal_text(n).len() as int
        },
        reads_as(zero_padded_text(n, width), n),
{
    lemma_digits_read_back(magnitude(n));
    let d = decimal_digits(magnitude(n));
    let fill = width - sign_text(n).len() - d.len();
    let k: nat = if fill > 0 {
        fill as nat
    } else {
        0
    };
    let t = zero_padded_text(n, width);
    lemma_leading_zeros_read_back(k, d);
    if n < 0 {
        assert(t =~= seq!['-'] + (zeros(k) + d));
        assert(t.drop_first() =~= zeros(k) + d);
        assert forall|i: int| 0 <= i < t.drop_first().len() implies is_digit(
            #[trigger] t.drop_first()[i],
        ) by {
            if i >= k {
                assert(t.drop_first()[i] == d[i - k]);
            }
        }
    } else {
        assert(t =~= zeros(k) + d);
        assert forall|i: int| 0 <= i < t.len() implies is_digit(#[trigger] t[i]) by {
            if i >= k {
                assert(t[i] == d[i - k]);
            }
        }
    }
}

/// The string of a single decimal digit.
fn digit_str(d: u64) -> (s: &'static str)
    requires
        d < 10,
    ensures
        s@ == seq![digit_char(d as nat)],
{
    proof {
        reveal_strlit("0");
        reveal_strlit("1");
        reveal_strlit("2");
        reveal_strlit("3");
        reveal_strlit("4");
        reveal_strlit("5");
        reveal_strlit("6");
        reveal_strlit("7");
        reveal_strlit("8");
        reveal_strlit("9");
    }
    if d == 0 {
        "0"
    } else if d == 1 {
        "1"
    } else if d == 2 {
        "2"
    } else if d == 3 {
        "3"
    } else if d == 4 {
        "4"
    } else if d == 5 {
        "5"
    } else if d == 6 {
        "6"
    } else if d == 7 {
        "7"
    } else if d == 8 {
        "8"
    } else {
        "9"
    }
}

/// Appends the decimal digits of `n`.
fn append_digits(out: &mut String, n: u64)
    ensures
        final(out)@ == old(out)@ + decimal_digits(n as nat),
    decreases n,
{
    if n >= 10 {
        append_digits(out, n / 10);
    }
    out.append(digit_str(n % 10));
    proof {
        if n >= 10 {
            assert(decimal_digits(n as nat) == decimal_digits((n / 10) as nat).push(
                digit_char((n % 10) as nat),
            ));
            assert(final(out)@ =~= old(out)@ + decimal_digits(n as nat));
        } else {
            assert(final(out)@ =~= old(out)@ + decimal_digits(n as nat));
        }
    }
}

/// The number of decimal digits of `n`.
fn digit_count(n: u64) -> (c: usize)
    ensures
        c == decimal_digits(n as nat).len(),
        1 <= c <= 20,
    decreases n,
{
    proof {
        assert(pow10(20) == 100000000000000000000nat) by {
            reveal_with_fuel(pow10, 21);
        }
        lemma_digits_len_bound(n as nat, 20);
        lemma_digits_nonempty(n as nat);
    }
    if n < 10 {
        1
    } else {
        digit_count(n / 10) + 1
    }
}

/// The magnitude of a 64-bit signed integer, which always fits in 64 unsigned bits.
fn magnitude_u64(n: i64) -> (m: u64)
    ensures
        m as int == magnitude(n as int),
{
    if n < 0 {
        ((-(n + 1)) as u64) + 1
    } else {
        n as u64
    }
}

/// Appends `n` as the `{}` format prints it.
pub fn append_decimal(out: &mut String, n: i64)
    ensures
        final(out)@ == old(out)@ + decimal_text(n as int),
{
    if n < 0 {
        out.append("-");
        proof {
            reveal_strlit("-");
        }
    }
    append_digits(out, magnitude_u64(n));
    assert(final(out)@ =~= old(out)@ + decimal_text(n as int));
}

/// Appends `n` as the `{:0width$}` format prints it.
pub fn append_zero_padded(out: &mut String, n: i64, width: usize)
    ensures
        final(out)@ == old(out)@ + zero_padded_text(n as int, width as nat),
{
    let m = magnitude_u64(n);
    let sign_len: usize = if n < 0 {
        1
    } else {
        0
    };
    if n < 0 {
        out.append("-");
        proof {
            reveal_strlit("-");
        }
    }
    let ghost signed = out@;
    let digits = digit_count(m);
    let mut fill: usize = 0;
    if width > sign_len + digits {
        fill = width - sign_len - digits;
    }
    let mut i: usize = 0;
    while i < fill
        invariant
            i <= fill,
            out@ == signed + zeros(i as nat),
        decreases fill - i,
    {
        out.append("0");
        proof {
            reveal_strlit("0");
        }
        i = i + 1;
        assert(out@ =~= signed + zeros(i as nat));
    }
    append_digits(out, m);
    assert(final(out)@ =~= old(out)@ + zero_padded_text(n as int, width as nat));
}

/// `n` as the `{}` format prints it.
pub fn decimal_string(n: i64) -> (s: String)
    ensures
        s@ == decimal_text(n as int),
{
    let mut s = String::new();
    append_decimal(&mut s, n);
    assert(s@ =~= decimal_text(n as int));
    s
}

} // verus!

//! Fixed-width number formatting for log lines and variable names.

use vstd::prelude::*;

verus! {

/// `String::push` appends the given character to the end of the string.
pub assume_specification[ String::push ](s: &mut String, ch: char)
    ensures
        final(s)@ == old(s)@.push(ch),
;

/// The character of one decimal or lowercase hexadecimal digit.
pub open spec fn lower_digit(d: int) -> char {
    if d < 10 {
        (48 + d) as char
    } else {
        (87 + d) as char
    }
}

/// The character of one uppercase hexadecimal digit.
pub open spec fn upper_digit(d: int) -> char {
    if d < 10 {
        (48 + d) as char
    } else {
        (55 + d) as char
    }
}

/// The shortest decimal numeral of `n`.
pub open spec fn decimal(n: nat) -> Seq<char>
    decreases n,
{
    if n < 10 {
        seq![lower_digit(n as int)]
    } else {
        decimal(n / 10).push(lower_digit((n % 10) as int))
    }
}

/// `n` zeros.
pub open spec fn zeros(n: nat) -> Seq<char> {
    Seq::new(n, |i: int| '0')
}

/// The decimal numeral of `n`, filled up with leading zeros to `width`
/// characters. A longer numeral is kept whole.
pub open spec fn padded(n: nat, width: nat) -> Seq<char> {
    if decimal(n).len() < width {
        zeros((width - decimal(n).len()) as nat) + decimal(n)
    } else {
        decimal(n)
    }
}

/// The two lowercase hexadecimal digits of each byte, in order.
pub open spec fn hex(bytes: Seq<u8>) -> Seq<char> {
    Seq::new(
        2 * bytes.len(),
        |i: int|
            lower_digit(
                if i % 2 == 0 {
                    bytes[i / 2] as int / 16
                } else {
                    bytes[i / 2] as int % 16
                },
            ),
    )
}

/// The four uppercase hexadecimal digits of `n`.
pub open spec fn hex4(n: u16) -> Seq<char> {
    seq![
        upper_digit(n as int / 4096),
        upper_digit(n as int / 256 % 16),
        upper_digit(n as int / 16 % 16),
        upper_digit(n as int % 16),
    ]
}

fn push_decimal(out: &mut String, n: u32)
    ensures
        final(out)@ == old(out)@ + decimal(n as nat),
    decreases n,
{
    if n >= 10 {
        push_decimal(out, n / 10);
    }
    out.push((48u8 + (n % 10) as u8) as char);
}

fn decimal_len(n: u32) -> (len: usize)
    ensures
        len == decimal(n as nat).len(),
        len <= n + 1,
    decreases n,
{
    if n < 10 {
        1
    } else {
        decimal_len(n / 10) + 1
    }
}

/// Appends `n` in decimal, zero-filled to `width` characters.
pub fn push_padded(out: &mut String, n: u32, width: usize)
    ensures
        final(out)@ == old(out)@ + padded(n as nat, width as nat),
{
    let len: usize = decimal_len(n);
    let mut missing: usize = if len < width {
        width - len
    } else {
        0
    };
    let ghost fill = missing as nat;
    while missing > 0
        invariant
            missing <= fill,
            out@ == old(out)@ + zeros((fill - missing) as nat),
        decreases missing,
    {
        out.push('0');
        missing = missing - 1;
        assert(out@ == old(out)@ + zeros((fill - missing) as nat));
    }
    push_decimal(out, n);
}

fn lower_digit_char(d: u8) -> (c: char)
    requires
        d < 16,
    ensures
        c == lower_digit(d as int),
{
    if d < 10 {
        (48u8 + d) as char
    } else {
        (87u8 + d) as char
    }
}

fn upper_digit_char(d: u8) -> (c: char)
    requires
        d < 16,
    ensures
        c == upper_digit(d as int),
{
    if d < 10 {
        (48u8 + d) as char
    } else {
        (55u8 + d) as char
    }
}

/// Lowercase hexadecimal rendering of a byte slice, for logging digests, UUIDs
/// and the like.
pub fn hex_text(bytes: &[u8]) -> (out: String)
    ensures
        out@ == hex(bytes@),
{
    let mut out = String::new();
    let mut i: usize = 0;
    while i < bytes.len()
        invariant
            i <= bytes.len(),
            out@ == hex(bytes@.take(i as int)),
        decreases bytes.len() - i,
    {
        let byte: u8 = bytes[i];
        out.push(lower_digit_char(byte / 16));
        out.push(lower_digit_char(byte % 16));
        i = i + 1;
        assert(out@ =~= hex(bytes@.take(i as int)));
    }
    assert(bytes@.take(i as int) =~= bytes@);
    out
}

/// Appends the four uppercase hexadecimal digits of `n`.
pub fn push_hex4(out: &mut String, n: u16)
    ensures
        final(out)@ == old(out)@ + hex4(n),
{
    out.push(upper_digit_char((n / 4096) as u8));
    out.push(upper_digit_char((n / 256 % 16) as u8));
    out.push(upper_digit_char((n / 16 % 16) as u8));
    out.push(upper_digit_char((n % 16) as u8));
    assert(out@ =~= old(out)@ + hex4(n));
}

/// The hexadecimal digits, in either case.
pub proof fn law_hexadecimal_digits(d: int)
    requires
        0 <= d < 16,
    ensures
        lower_digit(d) == "0123456789abcdef"@[d],
        upper_digit(d) == "0123456789ABCDEF"@[d],
{
    reveal_strlit("0123456789abcdef");
    reveal_strlit("0123456789ABCDEF");
}

/// Whether all characters are decimal digits.
pub open spec fn is_numeral(text: Seq<char>) -> bool {
    forall|i: int| 0 <= i < text.len() ==> '0' <= #[trigger] text[i] <= '9'
}

/// The number that a decimal numeral stands for.
pub open spec fn numeral_value(text: Seq<char>) -> int
    decreases text.len(),
{
    if text.len() == 0 {
        0
    } else {
        10 * numeral_value(text.drop_last()) + (text.last() as int - '0' as int)
    }
}

/// A decimal numeral is made of digits, stands for its number, and has no leading zero
/// but for zero itself.
pub proof fn law_decimal_reads_back(n: nat)
    ensures
        decimal(n).len() > 0,
        is_numeral(decimal(n)),
        numeral_value(decimal(n)) == n,
        decimal(n)[0] == '0' ==> n == 0 && decimal(n).len() == 1,
    decreases n,
{
    if n < 10 {
        assert(decimal(n).drop_last() =~= Seq::<char>::empty());
        reveal_with_fuel(numeral_value, 2);
    } else {
        law_decimal_reads_back(n / 10);
        assert(decimal(n).drop_last() =~= decimal(n / 10));
        assert(decimal(n)[0] == decimal(n / 10)[0]);
    }
}

proof fn lemma_leading_zeros(count: nat, text: Seq<char>)
    requires
        is_numeral(text),
    ensures
        is_numeral(zeros(count) + text),
        numeral_value(zeros(count) + text) == numeral_value(text),
    decreases count + text.len(),
{
    let all = zeros(count) + text;
    if text.len() > 0 {
        lemma_leading_zeros(count, text.drop_last());
        assert(all.drop_last() =~= zeros(count) + text.drop_last());
        assert(all.last() == text.last());
    } else if count > 0 {
        let fewer = (count - 1) as nat;
        lemma_leading_zeros(fewer, text);
        assert(all.drop_last() =~= zeros(fewer) + text);
    } else {
        assert(all =~= text);
    }
}

/// A padded numeral is made of digits, stands for its number, and is as long as asked
/// for; a longer numeral is kept whole, without a leading zero.
pub proof fn law_padded_reads_back(n: nat, width: nat)
    ensures
        is_numeral(padded(n, width)),
        numeral_value(padded(n, width)) == n,
        padded(n, width).len() > 0,
        padded(n, width).len() >= width,
        padded(n, width).len() > width ==> padded(n, width)[0] != '0' || padded(n, width).len()
            == 1,
{
    law_decimal_reads_back(n);
    if decimal(n).len() < width {
        lemma_leading_zeros((width - decimal(n).len()) as nat, decimal(n));
    }
}

/// Every byte shows as the digit of its high half, then that of its low half.
pub proof fn law_hex_shows_every_byte(bytes: Seq<u8>, i: int)
    requires
        0 <= i < bytes.len(),
    ensures
        hex(bytes).len() == 2 * bytes.len(),
        hex(bytes)[2 * i] == "0123456789abcdef"@[bytes[i] as int / 16],
        hex(bytes)[2 * i + 1] == "0123456789abcdef"@[bytes[i] as int % 16],
{
    law_hexadecimal_digits(bytes[i] as int / 16);
    law_hexadecimal_digits(bytes[i] as int % 16);
}

/// An index shows as its four digits, most significant first.
pub proof fn law_hex4_shows_every_digit(n: u16)
    ensures
        hex4(n).len() == 4,
        hex4(n)[0] == "0123456789ABCDEF"@[n as int / 4096],
        hex4(n)[1] == "0123456789ABCDEF"@[n as int / 256 % 16],
        hex4(n)[2] == "0123456789ABCDEF"@[n as int / 16 % 16],
        hex4(n)[3] == "0123456789ABCDEF"@[n as int % 16],
{
    law_hexadecimal_digits(n as int / 4096);
    law_hexadecimal_digits(n as int / 256 % 16);
    law_hexadecimal_digits(n as int / 16 % 16);
    law_hexadecimal_digits(n as int % 16);
}

} // verus!

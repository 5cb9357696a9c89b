//! Text building blocks shared by the renderers: decimal and hexadecimal
//! numerals, quoted strings, and the specifications they meet.

use vstd::prelude::*;

verus! {

/// `String::push` appends one character.
pub assume_specification[ String::push ](s: &mut String, ch: char)
    ensures
        final(s)@ == old(s)@.push(ch),
;

/// The character of a decimal digit.
pub open spec fn digit_char(d: nat) -> char {
    ((48 + d) as u8) as char
}

/// The character of a lowercase hexadecimal digit.
pub open spec fn hex_digit_char(d: nat) -> char {
    if d < 10 {
        ((48 + d) as u8) as char
    } else {
        ((87 + d) as u8) as char
    }
}

/// Decimal numeral of a natural number, without leading zeros.
pub open spec fn decimal(n: nat) -> Seq<char>
    decreases n,
{
    if n < 10 {
        seq![digit_char(n)]
    } else {
        decimal(n / 10).push(digit_char(n % 10))
    }
}

/// Decimal numeral of an integer, with a leading `-` when it is negative.
pub open spec fn signed_decimal(n: int) -> Seq<char> {
    if n < 0 {
        seq!['-'] + decimal((-n) as nat)
    } else {
        decimal(n as nat)
    }
}

/// Lowercase hexadecimal numeral of a natural number, without leading zeros.
pub open spec fn hex_lower(n: nat) -> Seq<char>
    decreases n,
{
    if n < 16 {
        seq![hex_digit_char(n)]
    } else {
        hex_lower(n / 16).push(hex_digit_char(n % 16))
    }
}

/// `width` copies of `'0'`.
pub open spec fn zeros(width: nat) -> Seq<char> {
    Seq::new(width, |i: int| '0')
}

/// `s` padded on the left with `'0'` up to `width` characters.
pub open spec fn zero_pad(s: Seq<char>, width: nat) -> Seq<char> {
    if s.len() < width {
        zeros((width - s.len()) as nat) + s
    } else {
        s
    }
}

/// The Rust `Debug` text of a string: quoted and escaped.
pub uninterp spec fn spec_str_debug(s: Seq<char>) -> Seq<char>;

/// Calls `format!("{:?}", s)`, the `Debug` rendering of `str`; its result is
/// named by `spec_str_debug` and depends on the characters of `s` alone.
#[verifier::external_body]
pub(crate) fn str_debug(s: &str) -> (r: String)
    ensures
        r@ == spec_str_debug(s@),
{
    format!("{:?}", s)
}

/// The character of decimal digit `d`.
pub fn digit(d: u8) -> (c: char)
    requires
        d < 10,
    ensures
        c == digit_char(d as nat),
{
    (48 + d) as char
}

/// The character of lowercase hexadecimal digit `d`.
pub fn hex_digit(d: u8) -> (c: char)
    requires
        d < 16,
    ensures
        c == hex_digit_char(d as nat),
{
    if d < 10 {
        (48 + d) as char
    } else {
        (87 + d) as char
    }
}

/// Appends the decimal numeral of `n`.
pub fn push_decimal(s: &mut String, n: u64)
    ensures
        final(s)@ == old(s)@ + decimal(n as nat),
    decreases n,
{
    if n >= 10 {
        push_decimal(s, n / 10);
    }
    let ghost mid = s@;
    s.push(digit((n % 10) as u8));
    proof {
        if n >= 10 {
            assert(old(s)@ + decimal(n as nat) =~= mid.push(digit_char((n % 10) as nat)));
        } else {
            assert(old(s)@ + decimal(n as nat) =~= old(s)@.push(digit_char((n % 10) as nat)));
        }
    }
}

/// Appends the decimal numeral of `n`, with `-` when it is negative.
pub fn push_signed_decimal(s: &mut String, n: i64)
    ensures
        final(s)@ == old(s)@ + signed_decimal(n as int),
{
    if n < 0 {
        s.push('-');
        let m: u64 = ((-(n + 1)) as u64) + 1;
        push_decimal(s, m);
        assert(old(s)@ + signed_decimal(n as int) =~= old(s)@.push('-') + decimal(m as nat));
    } else {
        push_decimal(s, n as u64);
    }
}

/// Appends the lowercase hexadecimal numeral of `n`.
pub fn push_hex(s: &mut String, n: u64)
    ensures
        final(s)@ == old(s)@ + hex_lower(n as nat),
    decreases n,
{
    if n >= 16 {
        push_hex(s, n / 16);
    }
    let ghost mid = s@;
    s.push(hex_digit((n % 16) as u8));
    proof {
        if n >= 16 {
            assert(old(s)@ + hex_lower(n as nat) =~= mid.push(hex_digit_char((n % 16) as nat)));
        } else {
            assert(old(s)@ + hex_lower(n as nat) =~= old(s)@.push(hex_digit_char((n % 16) as nat)));
        }
    }
}

/// Number of digits of the hexadecimal numeral of `n`.
fn hex_len(n: u64) -> (len: usize)
    ensures
        len as nat == hex_lower(n as nat).len(),
        len <= 16,
    decreases n,
{
    if n < 16 {
        1
    } else {
        let l = hex_len(n / 16);
        proof {
            lemma_hex_lower_len_bound(n as nat);
        }
        l + 1
    }
}

/// `16^k`.
pub open spec fn pow16(k: nat) -> nat
    decreases k,
{
    if k == 0 {
        1
    } else {
        16 * pow16((k - 1) as nat)
    }
}

/// A number below `16^k` (with `k >= 1`) has at most `k` hexadecimal digits.
proof fn lemma_hex_lower_len_le(n: nat, k: nat)
    requires
        1 <= k,
        n < pow16(k),
    ensures
        hex_lower(n).len() <= k,
    decreases k,
{
    if n >= 16 {
        assert(k >= 2) by {
            if k == 1 {
                assert(pow16(1) == 16) by { reveal_with_fuel(pow16, 2); }
            }
        }
        assert(n / 16 < pow16((k - 1) as nat));
        lemma_hex_lower_len_le(n / 16, (k - 1) as nat);
    }
}

/// The numeral of a 64-bit value has at most 16 hexadecimal digits.
proof fn lemma_hex_lower_len_bound(n: nat)
    requires
        n <= u64::MAX,
    ensures
        hex_lower(n).len() <= 16,
{
    assert(pow16(16) == 0x1_0000_0000_0000_0000) by { reveal_with_fuel(pow16, 17); }
    lemma_hex_lower_len_le(n, 16);
}

/// Appends the lowercase hexadecimal numeral of `n`, padded with zeros on
/// the left to at least `width` digits (the `{:0width$x}` format).
pub fn push_hex_padded(s: &mut String, n: u64, width: usize)
    ensures
        final(s)@ == old(s)@ + zero_pad(hex_lower(n as nat), width as nat),
{
    let len = hex_len(n);
    let mut k: usize = len;
    while k < width
        invariant
            len <= k <= width || (k == len && width <= len),
            len as nat == hex_lower(n as nat).len(),
            s@ == old(s)@ + zeros((k - len) as nat),
        decreases width - k,
    {
        let ghost before = s@;
        s.push('0');
        k = k + 1;
        assert(s@ =~= old(s)@ + zeros((k - len) as nat));
    }
    let ghost before = s@;
    push_hex(s, n);
    if len < width {
        assert(zero_pad(hex_lower(n as nat), width as nat) =~= zeros((width - len) as nat) + hex_lower(n as nat));
        assert(s@ =~= old(s)@ + zero_pad(hex_lower(n as nat), width as nat));
    } else {
        assert(zeros((k - len) as nat) =~= Seq::<char>::empty());
        assert(s@ =~= old(s)@ + zero_pad(hex_lower(n as nat), width as nat));
    }
}

} // verus!

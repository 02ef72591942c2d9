//! Byte streams for the polling PL011 diagnostics: newline expansion and
//! fixed-width hexadecimal and decimal number lines.
use vstd::prelude::*;

verus! {

/// The bytes sent for `s`, each newline expanded to carriage return then newline.
pub open spec fn crlf(s: Seq<u8>) -> Seq<u8>
    decreases s.len(),
{
    if s.len() == 0 {
        Seq::empty()
    } else {
        crlf(s.drop_last()) + (if s.last() == 10u8 {
            seq![13u8, 10u8]
        } else {
            seq![s.last()]
        })
    }
}

/// Lower-case hexadecimal digit for a nibble.
pub open spec fn hex_digit(nibble: u64) -> u8 {
    if nibble < 10 {
        (48 + nibble) as u8
    } else {
        (97 + nibble - 10) as u8
    }
}

/// The sixteen hexadecimal digits of `value`, most significant first.
pub open spec fn hex_digits(value: u64) -> Seq<u8> {
    Seq::new(16, |i: int| hex_digit((value >> ((4 * (15 - i)) as u64)) & 0xf))
}

/// The decimal digits of `value`, most significant first, without leading zeros.
pub open spec fn dec_digits(value: nat) -> Seq<u8>
    decreases value,
{
    if value < 10 {
        seq![(48 + value) as u8]
    } else {
        dec_digits(value / 10) + seq![(48 + value % 10) as u8]
    }
}

/// The bytes sent for a diagnostic line, expanding each newline.
pub fn line(value: &[u8]) -> (out: Vec<u8>)
    ensures
        out@ == crlf(value@),
{
    let mut out: Vec<u8> = Vec::new();
    let mut i: usize = 0;
    while i < value.len()
        invariant
            i <= value@.len(),
            out@ == crlf(value@.take(i as int)),
        decreases value@.len() - i,
    {
        assert(value@.take(i + 1).drop_last() == value@.take(i as int));
        assert(value@.take(i + 1).last() == value@[i as int]);
        if value[i] == 10u8 {
            out.push(13u8);
            out.push(10u8);
        } else {
            out.push(value[i]);
        }
        i += 1;
    }
    assert(value@.take(value@.len() as int) == value@);
    out
}

/// The bytes sent for raw output, expanding each newline.
pub fn write_bytes(bytes: &[u8]) -> (out: Vec<u8>)
    ensures
        out@ == crlf(bytes@),
{
    line(bytes)
}

/// A label followed by sixteen lower-case hexadecimal digits and CR LF.
pub fn hex_line(label: &[u8], value: u64) -> (out: Vec<u8>)
    ensures
        out@ == label@ + hex_digits(value) + seq![13u8, 10u8],
{
    let mut out: Vec<u8> = Vec::new();
    let mut i: usize = 0;
    while i < label.len()
        invariant
            i <= label@.len(),
            out@ == label@.take(i as int),
        decreases label@.len() - i,
    {
        out.push(label[i]);
        i += 1;
        assert(out@ == label@.take(i as int));
    }
    assert(label@.take(label@.len() as int) == label@);
    let mut k: usize = 0;
    while k < 16
        invariant
            k <= 16,
            out@ == label@ + hex_digits(value).take(k as int),
        decreases 16 - k,
    {
        let shift = (4 * (15 - k)) as u64;
        let digit = (value >> shift) & 0xf;
        assert(digit < 16) by (bit_vector)
            requires
                digit == (value >> shift) & 0xf,
        ;
        let c: u8 = if digit < 10 {
            48 + digit as u8
        } else {
            97 + (digit as u8 - 10)
        };
        assert(c == hex_digit(digit));
        out.push(c);
        assert(hex_digits(value).take(k + 1) == hex_digits(value).take(k as int).push(c));
        k += 1;
    }
    assert(hex_digits(value).take(16) == hex_digits(value));
    out.push(13u8);
    out.push(10u8);
    out
}

/// A label followed by the decimal digits of `value` and CR LF.
pub fn dec_line(label: &[u8], value: u64) -> (out: Vec<u8>)
    ensures
        out@ == label@ + dec_digits(value as nat) + seq![13u8, 10u8],
{
    let mut out: Vec<u8> = Vec::new();
    let mut i: usize = 0;
    while i < label.len()
        invariant
            i <= label@.len(),
            out@ == label@.take(i as int),
        decreases label@.len() - i,
    {
        out.push(label[i]);
        i += 1;
        assert(out@ == label@.take(i as int));
    }
    assert(label@.take(label@.len() as int) == label@);
    let digits = decimal_digits(value);
    let mut k: usize = 0;
    while k < digits.len()
        invariant
            k <= digits@.len(),
            digits@ == dec_digits(value as nat),
            out@ == label@ + digits@.take(k as int),
        decreases digits@.len() - k,
    {
        out.push(digits[k]);
        k += 1;
        assert(digits@.take(k as int) == digits@.take(k - 1).push(digits@[k - 1]));
    }
    assert(digits@.take(digits@.len() as int) == digits@);
    out.push(13u8);
    out.push(10u8);
    out
}

/// The decimal digits of `value`, most significant first.
pub fn decimal_digits(value: u64) -> (digits: Vec<u8>)
    ensures
        digits@ == dec_digits(value as nat),
        1 <= digits@.len() <= 20,
    decreases value,
{
    if value < 10 {
        let mut d = Vec::new();
        d.push(48u8 + value as u8);
        assert(d@ == seq![(48 + value) as u8]);
        d
    } else {
        let mut d = decimal_digits(value / 10);
        assert(d@.len() <= 19) by {
            lemma_dec_len(value as nat);
        }
        d.push(48u8 + (value % 10) as u8);
        d
    }
}

proof fn lemma_dec_len(value: nat)
    requires
        10 <= value <= u64::MAX,
    ensures
        dec_digits(value / 10).len() <= 19,
    decreases value,
{
    reveal_with_fuel(pow10, 20);
    assert(pow10(19) == 10_000_000_000_000_000_000nat);
    lemma_dec_len_bound(value / 10, 18);
}

proof fn lemma_dec_len_bound(value: nat, k: nat)
    requires
        value < pow10(k + 1),
    ensures
        dec_digits(value).len() <= k + 1,
    decreases value,
{
    if value >= 10 {
        if k == 0 {
            assert(pow10(1) == 10);
        } else {
            assert(pow10(k + 1) == 10 * pow10(k));
            assert(value / 10 < pow10(k));
            lemma_dec_len_bound(value / 10, (k - 1) as nat);
        }
    }
}

/// Ten to the power `k`.
pub open spec fn pow10(k: nat) -> nat
    decreases k,
{
    if k == 0 {
        1
    } else {
        10 * pow10((k - 1) as nat)
    }
}

} // verus!

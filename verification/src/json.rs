//! Writing JSON, byte by byte.

use vstd::prelude::*;
use vstd::string::StringSliceAdditionalSpecFns;

verus! {

/// The bytes of a piece of text.
pub open spec fn text(s: &str) -> Seq<u8> {
    s.spec_bytes()
}

/// The digit, in lower case, of a number below sixteen.
pub open spec fn hex_digit(n: int) -> u8 {
    if n < 10 {
        (48 + n) as u8
    } else {
        (87 + n) as u8
    }
}

/// A byte as it stands inside a JSON string: the quote and the backslash
/// behind a backslash, a control byte as `\u00` and two digits, any other
/// byte as it is.
pub open spec fn escaped_byte(b: u8) -> Seq<u8> {
    if b == 34 || b == 92 {
        seq![92u8, b]
    } else if b < 32 {
        seq![92u8, 117u8, 48u8, 48u8, hex_digit(b as int / 16), hex_digit(b as int % 16)]
    } else {
        seq![b]
    }
}

/// The bytes as they stand inside a JSON string.
pub open spec fn escaped(bytes: Seq<u8>) -> Seq<u8>
    decreases bytes.len(),
{
    if bytes.len() == 0 {
        Seq::empty()
    } else {
        escaped(bytes.drop_last()) + escaped_byte(bytes.last())
    }
}

/// The bytes as a JSON string, between quotes.
pub open spec fn json_string(bytes: Seq<u8>) -> Seq<u8> {
    seq![34u8] + escaped(bytes) + seq![34u8]
}

/// A number in decimal digits, without leading zeros.
pub open spec fn decimal(n: nat) -> Seq<u8>
    decreases n,
{
    if n < 10 {
        seq![(48 + n) as u8]
    } else {
        decimal(n / 10).push((48 + n % 10) as u8)
    }
}

/// The items with a comma between each two.
pub open spec fn comma_joined(items: Seq<Seq<u8>>) -> Seq<u8>
    decreases items.len(),
{
    if items.len() == 0 {
        Seq::empty()
    } else if items.len() == 1 {
        items[0]
    } else {
        comma_joined(items.drop_last()) + seq![44u8] + items.last()
    }
}

/// The items as a JSON array.
pub open spec fn json_array(items: Seq<Seq<u8>>) -> Seq<u8> {
    seq![91u8] + comma_joined(items) + seq![93u8]
}

/// What stands in an array before its item `i`, once the items before it are
/// written: nothing before the first, a comma before every other.
pub open spec fn separator(i: int) -> Seq<u8> {
    if i == 0 {
        Seq::empty()
    } else {
        seq![44u8]
    }
}

/// One more item behind those that are joined already.
pub proof fn lemma_comma_joined_push(items: Seq<Seq<u8>>, item: Seq<u8>)
    ensures
        comma_joined(items.push(item)) == comma_joined(items) + separator(items.len() as int)
            + item,
{
    let grown = items.push(item);
    assert(grown.drop_last() == items);
    assert(grown.last() == item);
    if items.len() == 0 {
        assert(comma_joined(items) + separator(0) + item =~= item);
    }
}

/// Appends the bytes.
pub fn push_bytes(out: &mut Vec<u8>, bytes: &[u8])
    ensures
        final(out)@ == old(out)@ + bytes@,
{
    let mut i: usize = 0;
    while i < bytes.len()
        invariant
            0 <= i <= bytes.len(),
            out@ == old(out)@ + bytes@.take(i as int),
        decreases bytes.len() - i,
    {
        out.push(bytes[i]);
        assert(bytes@.take(i as int).push(bytes@[i as int]) == bytes@.take(i as int + 1));
        i += 1;
    }
    assert(bytes@.take(i as int) == bytes@);
}

/// Appends the text.
pub fn push_text(out: &mut Vec<u8>, s: &str)
    ensures
        final(out)@ == old(out)@ + text(s),
{
    push_bytes(out, s.as_bytes());
}

/// The digit, in lower case, of a number below sixteen.
pub fn hex_digit_of(n: u8) -> (d: u8)
    requires
        n < 16,
    ensures
        d == hex_digit(n as int),
{
    if n < 10 {
        48 + n
    } else {
        87 + n
    }
}

/// Appends a byte as it stands inside a JSON string.
pub fn push_escaped_byte(out: &mut Vec<u8>, b: u8)
    ensures
        final(out)@ == old(out)@ + escaped_byte(b),
{
    if b == 34 || b == 92 {
        out.push(92);
        out.push(b);
        assert(out@ == old(out)@ + seq![92u8, b]);
    } else if b < 32 {
        out.push(92);
        out.push(117);
        out.push(48);
        out.push(48);
        out.push(hex_digit_of(b / 16));
        out.push(hex_digit_of(b % 16));
        assert(out@ == old(out)@ + seq![
            92u8,
            117u8,
            48u8,
            48u8,
            hex_digit(b as int / 16),
            hex_digit(b as int % 16),
        ]);
    } else {
        out.push(b);
        assert(out@ == old(out)@ + seq![b]);
    }
}

/// Appends the bytes as a JSON string, between quotes.
pub fn push_json_string(out: &mut Vec<u8>, bytes: &[u8])
    ensures
        final(out)@ == old(out)@ + json_string(bytes@),
{
    out.push(34);
    let mut i: usize = 0;
    while i < bytes.len()
        invariant
            0 <= i <= bytes.len(),
            out@ == old(out)@ + seq![34u8] + escaped(bytes@.take(i as int)),
        decreases bytes.len() - i,
    {
        let ghost before = out@;
        push_escaped_byte(out, bytes[i]);
        proof {
            let upto = bytes@.take(i as int + 1);
            assert(upto.drop_last() == bytes@.take(i as int));
            assert(upto.last() == bytes@[i as int]);
            assert(out@ == old(out)@ + seq![34u8] + escaped(upto));
        }
        i += 1;
    }
    assert(bytes@.take(i as int) == bytes@);
    out.push(34);
    assert(out@ == old(out)@ + (seq![34u8] + escaped(bytes@) + seq![34u8]));
}

/// Appends a number in decimal digits.
pub fn push_decimal(out: &mut Vec<u8>, n: u64)
    ensures
        final(out)@ == old(out)@ + decimal(n as nat),
    decreases n,
{
    if n < 10 {
        let digit: u8 = 48 + n as u8;
        out.push(digit);
        assert(out@ == old(out)@ + seq![(48 + n) as u8]);
    } else {
        push_decimal(out, n / 10);
        let digit: u8 = 48 + (n % 10) as u8;
        out.push(digit);
        assert(out@ == old(out)@ + decimal(n as nat / 10).push((48 + n as nat % 10) as u8));
    }
}

} // verus!

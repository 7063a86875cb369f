//! Base64 addresses, binary strings and bit packing.

use crate::error::ServerError;
use base64::Engine;
use vstd::prelude::*;
use vstd::string::StringExecFns;

verus! {

/// The bytes that a text stands for in standard, padded base64; `None` where the
/// text is no such encoding.
pub uninterp spec fn b64_decoding(text: Seq<char>) -> Option<Seq<u8>>;

/// The standard, padded base64 text of a byte string.
pub uninterp spec fn b64_encoding(bytes: Seq<u8>) -> Seq<char>;

#[verifier::external_type_specification]
#[verifier::external_body]
pub struct ExDecodeError(base64::DecodeError);

/// `Engine::decode` of `base64::engine::general_purpose::STANDARD`. The engine
/// asks for canonical padding and refuses stray trailing bits, so a text that it
/// accepts is the encoding of the bytes it yields.
#[verifier::external_body]
pub(crate) fn b64_decode(text: &str) -> (res: Result<Vec<u8>, base64::DecodeError>)
    ensures
        res is Ok <==> b64_decoding(text@) is Some,
        res matches Ok(bytes) ==> (b64_decoding(text@) == Some(bytes@) && b64_encoding(bytes@)
            == text@),
{
    base64::engine::general_purpose::STANDARD.decode(text)
}

/// `Engine::encode` of `base64::engine::general_purpose::STANDARD`: the text
/// decodes to the bytes it was made from. The call panics where the encoded
/// length does not fit the address space, so long inputs are left out.
#[verifier::external_body]
pub(crate) fn b64_encode(bytes: &[u8]) -> (res: String)
    requires
        bytes@.len() <= usize::MAX / 4,
    ensures
        res@ == b64_encoding(bytes@),
        b64_decoding(res@) == Some(bytes@),
{
    base64::engine::general_purpose::STANDARD.encode(bytes)
}

/// Number of bytes that hold `length` bits.
pub open spec fn bytes_for_bits(length: nat) -> nat {
    (length + 7) / 8
}

/// `bytes` behind as many zero bytes as bring it to `width` bytes.
pub open spec fn left_padded(bytes: Seq<u8>, width: nat) -> Seq<u8>
    recommends
        bytes.len() <= width,
{
    Seq::new((width - bytes.len()) as nat, |i: int| 0u8) + bytes
}

/// What `b64_to_loc` yields: the decoded bytes, left-padded with zero bytes to the
/// width that `length` bits need; nothing where the text is no base64 or decodes
/// to more bytes than that.
pub open spec fn location_of(text: Seq<char>, length: nat) -> Option<Seq<u8>> {
    match b64_decoding(text) {
        Some(bytes) => if bytes.len() <= bytes_for_bits(length) {
            Some(left_padded(bytes, bytes_for_bits(length)))
        } else {
            None
        },
        None => None,
    }
}

/// Decodes a base64 bit-string address of `length` bits into its bytes.
pub fn b64_to_loc(b64: &str, length: usize) -> (res: Result<Vec<u8>, ServerError>)
    ensures
        match location_of(b64@, length as nat) {
            Some(bytes) => res matches Ok(v) && v@ == bytes,
            None => res == Err::<Vec<u8>, ServerError>(ServerError::ConfigError),
        },
        // Encoding what was decoded, without the padding, gives the text back.
        res matches Ok(v) ==> (b64_decoding(b64@) matches Some(d) && d.len() <= v@.len()
            && b64_encoding(v@.skip(v@.len() - d.len())) == b64@),
{
    let decoded = match b64_decode(b64) {
        Ok(bytes) => bytes,
        Err(_) => {
            return Err(ServerError::ConfigError);
        },
    };
    let width: usize = length / 8 + (if length % 8 == 0 { 0 } else { 1 });
    assert(width == bytes_for_bits(length as nat));
    if decoded.len() > width {
        return Err(ServerError::ConfigError);
    }
    let pad: usize = width - decoded.len();
    let mut bytes: Vec<u8> = Vec::new();
    let mut i: usize = 0;
    while i < pad
        invariant
            i <= pad,
            bytes@ == Seq::new(i as nat, |k: int| 0u8),
        decreases pad - i,
    {
        bytes.push(0u8);
        i += 1;
    }
    let mut j: usize = 0;
    while j < decoded.len()
        invariant
            j <= decoded.len(),
            pad + decoded.len() == width,
            bytes@ == Seq::new(pad as nat, |k: int| 0u8) + decoded@.take(j as int),
        decreases decoded.len() - j,
    {
        bytes.push(decoded[j]);
        j += 1;
    }
    assert(decoded@.take(decoded.len() as int) == decoded@);
    assert(bytes@.skip(bytes@.len() - decoded@.len()) == decoded@);
    Ok(bytes)
}

/// Bit `k` of a byte, counted from its most significant bit.
pub open spec fn bit_of(byte: u8, k: int) -> bool
    recommends
        0 <= k < 8,
{
    (byte >> ((7 - k) as u8)) & 1u8 == 1u8
}

/// Bit `i` of the big-endian expansion of `bytes` cut to its last `length` bits,
/// or filled up with leading zero bits where it is shorter.
pub open spec fn canonical_bit(bytes: Seq<u8>, length: nat, i: int) -> bool
    recommends
        0 <= i < length,
{
    let j = i + 8 * bytes.len() - length;
    j >= 0 && bit_of(bytes[j / 8], j % 8)
}

/// The canonical binary string of `length` bits: one digit for each bit.
pub open spec fn binary_digits(bytes: Seq<u8>, length: nat) -> Seq<char> {
    Seq::new(length, |i: int| if canonical_bit(bytes, length, i) { '1' } else { '0' })
}

/// Reads bit `i` of the canonical `length`-bit string of `bytes`.
pub fn get_bit(bytes: &[u8], length: usize, i: usize) -> (bit: bool)
    requires
        i < length,
    ensures
        bit == canonical_bit(bytes@, length as nat, i as int),
{
    let total: u128 = 8 * (bytes.len() as u128);
    let at: u128 = (i as u128) + total;
    if at < length as u128 {
        return false;
    }
    let j: u128 = at - (length as u128);
    let byte = bytes[(j / 8) as usize];
    let shift: u8 = 7 - ((j % 8) as u8);
    (byte >> shift) & 1u8 == 1u8
}

/// Renders the canonical binary string of `length` bits of `bytes`.
pub fn binary_string(bytes: &[u8], length: usize) -> (res: String)
    ensures
        res@ == binary_digits(bytes@, length as nat),
{
    let mut res = String::new();
    let mut i: usize = 0;
    proof {
        reveal_strlit("0");
        reveal_strlit("1");
    }
    while i < length
        invariant
            i <= length,
            res@ == binary_digits(bytes@, length as nat).take(i as int),
            "0"@ == seq!['0'],
            "1"@ == seq!['1'],
        decreases length - i,
    {
        if get_bit(bytes, length, i) {
            res.append("1");
        } else {
            res.append("0");
        }
        i += 1;
        assert(res@ == binary_digits(bytes@, length as nat).take(i as int));
    }
    assert(binary_digits(bytes@, length as nat).take(length as int) == binary_digits(
        bytes@,
        length as nat,
    ));
    res
}

/// The value that a bit has at a place of the given weight.
pub open spec fn weighed(bit: bool, weight: u8) -> u8 {
    if bit {
        weight
    } else {
        0
    }
}

/// Bit `j` of `bits` laid out right-aligned in whole bytes: the bits before the
/// first of `bits` are zero.
pub open spec fn aligned_bit(bits: Seq<bool>, j: int) -> bool {
    let pad = 8 * bytes_for_bits(bits.len()) - bits.len();
    j >= pad && bits[j - pad]
}

/// Byte `b` of `bits` laid out right-aligned in whole bytes.
pub open spec fn packed_byte(bits: Seq<bool>, b: int) -> u8 {
    (weighed(aligned_bit(bits, 8 * b), 128) + weighed(aligned_bit(bits, 8 * b + 1), 64) + weighed(
        aligned_bit(bits, 8 * b + 2),
        32,
    ) + weighed(aligned_bit(bits, 8 * b + 3), 16) + weighed(aligned_bit(bits, 8 * b + 4), 8)
        + weighed(aligned_bit(bits, 8 * b + 5), 4) + weighed(aligned_bit(bits, 8 * b + 6), 2)
        + weighed(aligned_bit(bits, 8 * b + 7), 1)) as u8
}

/// The fewest bytes that hold `bits`, right-aligned behind zero bits.
pub open spec fn packed(bits: Seq<bool>) -> Seq<u8> {
    Seq::new(bytes_for_bits(bits.len()), |b: int| packed_byte(bits, b))
}

/// The canonical bits of `bytes` from bit `skip` on.
pub open spec fn bits_from(bytes: Seq<u8>, length: nat, skip: nat) -> Seq<bool>
    recommends
        skip <= length,
{
    Seq::new((length - skip) as nat, |i: int| canonical_bit(bytes, length, skip + i))
}

proof fn lemma_weights(b0: bool, b1: bool, b2: bool, b3: bool, b4: bool, b5: bool, b6: bool, b7: bool)
    ensures
        ({
            let byte = (weighed(b0, 128) + weighed(b1, 64) + weighed(b2, 32) + weighed(b3, 16)
                + weighed(b4, 8) + weighed(b5, 4) + weighed(b6, 2) + weighed(b7, 1)) as u8;
            &&& bit_of(byte, 0) == b0
            &&& bit_of(byte, 1) == b1
            &&& bit_of(byte, 2) == b2
            &&& bit_of(byte, 3) == b3
            &&& bit_of(byte, 4) == b4
            &&& bit_of(byte, 5) == b5
            &&& bit_of(byte, 6) == b6
            &&& bit_of(byte, 7) == b7
        }),
{
    let w0 = weighed(b0, 128);
    let w1 = weighed(b1, 64);
    let w2 = weighed(b2, 32);
    let w3 = weighed(b3, 16);
    let w4 = weighed(b4, 8);
    let w5 = weighed(b5, 4);
    let w6 = weighed(b6, 2);
    let w7 = weighed(b7, 1);
    let byte = (w0 + w1 + w2 + w3 + w4 + w5 + w6 + w7) as u8;
    assert(byte == w0 + w1 + w2 + w3 + w4 + w5 + w6 + w7);
    assert((w0 == 0 || w0 == 128) && (w1 == 0 || w1 == 64) && (w2 == 0 || w2 == 32) && (w3 == 0
        || w3 == 16) && (w4 == 0 || w4 == 8) && (w5 == 0 || w5 == 4) && (w6 == 0 || w6 == 2) && (
    w7 == 0 || w7 == 1));
    assert(byte == w0 | w1 | w2 | w3 | w4 | w5 | w6 | w7) by (bit_vector)
        requires
            byte == w0 + w1 + w2 + w3 + w4 + w5 + w6 + w7,
            (w0 == 0 || w0 == 128) && (w1 == 0 || w1 == 64) && (w2 == 0 || w2 == 32) && (w3 == 0
                || w3 == 16) && (w4 == 0 || w4 == 8) && (w5 == 0 || w5 == 4) && (w6 == 0 || w6
                == 2) && (w7 == 0 || w7 == 1),
    ;
    assert(((byte >> 7u8) & 1u8 == 1u8) == (w0 == 128) && ((byte >> 6u8) & 1u8 == 1u8) == (w1
        == 64) && ((byte >> 5u8) & 1u8 == 1u8) == (w2 == 32) && ((byte >> 4u8) & 1u8 == 1u8) == (
    w3 == 16) && ((byte >> 3u8) & 1u8 == 1u8) == (w4 == 8) && ((byte >> 2u8) & 1u8 == 1u8) == (w5
        == 4) && ((byte >> 1u8) & 1u8 == 1u8) == (w6 == 2) && ((byte >> 0u8) & 1u8 == 1u8) == (w7
        == 1)) by (bit_vector)
        requires
            byte == w0 | w1 | w2 | w3 | w4 | w5 | w6 | w7,
            (w0 == 0 || w0 == 128) && (w1 == 0 || w1 == 64) && (w2 == 0 || w2 == 32) && (w3 == 0
                || w3 == 16) && (w4 == 0 || w4 == 8) && (w5 == 0 || w5 == 4) && (w6 == 0 || w6
                == 2) && (w7 == 0 || w7 == 1),
    ;
}

/// Laying bits out in bytes and reading them back gives the bits again.
pub proof fn lemma_packed_bits(bits: Seq<bool>)
    ensures
        packed(bits).len() == bytes_for_bits(bits.len()),
        forall|i: int|
            0 <= i < bits.len() ==> #[trigger] canonical_bit(packed(bits), bits.len(), i)
                == bits[i],
{
    let n = bits.len();
    let bytes = packed(bits);
    assert forall|i: int| 0 <= i < n implies #[trigger] canonical_bit(bytes, n, i) == bits[i] by {
        let pad = 8 * bytes_for_bits(n) - n;
        let j = i + pad;
        let b = j / 8;
        lemma_weights(
            aligned_bit(bits, 8 * b),
            aligned_bit(bits, 8 * b + 1),
            aligned_bit(bits, 8 * b + 2),
            aligned_bit(bits, 8 * b + 3),
            aligned_bit(bits, 8 * b + 4),
            aligned_bit(bits, 8 * b + 5),
            aligned_bit(bits, 8 * b + 6),
            aligned_bit(bits, 8 * b + 7),
        );
        assert(bytes[b] == packed_byte(bits, b));
        assert(aligned_bit(bits, j) == bits[i]);
    }
}

/// The value that a bit has at a place of the given weight.
fn weigh(bytes: &[u8], length: usize, skip: usize, at: u128, pad: u128, weight: u8) -> (res: u8)
    requires
        skip <= length,
        pad == 8 * bytes_for_bits((length - skip) as nat) - (length - skip),
        at < pad + (length - skip),
    ensures
        res == weighed(aligned_bit(bits_from(bytes@, length as nat, skip as nat), at as int), weight),
{
    if at < pad {
        0
    } else {
        let i: usize = (at - pad) as usize;
        if get_bit(bytes, length, skip + i) {
            weight
        } else {
            0
        }
    }
}

/// Lays the canonical bits of `bytes` from bit `skip` on out in the fewest bytes.
pub fn pack_bits(bytes: &[u8], length: usize, skip: usize) -> (res: Vec<u8>)
    requires
        skip <= length,
    ensures
        res@ == packed(bits_from(bytes@, length as nat, skip as nat)),
{
    let count: usize = length - skip;
    let width: usize = count / 8 + (if count % 8 == 0 { 0 } else { 1 });
    let pad: u128 = 8 * (width as u128) - (count as u128);
    let ghost bits = bits_from(bytes@, length as nat, skip as nat);
    let mut res: Vec<u8> = Vec::new();
    let mut b: usize = 0;
    while b < width
        invariant
            b <= width,
            skip <= length,
            count == length - skip,
            width == bytes_for_bits(count as nat),
            pad == 8 * width - count,
            bits == bits_from(bytes@, length as nat, skip as nat),
            res@ == packed(bits).take(b as int),
        decreases width - b,
    {
        let at: u128 = 8 * (b as u128);
        let byte: u8 = weigh(bytes, length, skip, at, pad, 128) + weigh(
            bytes,
            length,
            skip,
            at + 1,
            pad,
            64,
        ) + weigh(bytes, length, skip, at + 2, pad, 32) + weigh(bytes, length, skip, at + 3, pad, 16)
            + weigh(bytes, length, skip, at + 4, pad, 8) + weigh(bytes, length, skip, at + 5, pad, 4)
            + weigh(bytes, length, skip, at + 6, pad, 2) + weigh(bytes, length, skip, at + 7, pad, 1);
        assert(byte == packed_byte(bits, b as int));
        res.push(byte);
        b += 1;
        assert(res@ =~= packed(bits).take(b as int));
    }
    assert(packed(bits).take(width as int) == packed(bits));
    res
}

/// The character of a decimal digit.
pub open spec fn digit_char(d: nat) -> char
    recommends
        d < 10,
{
    if d == 0 {
        '0'
    } else if d == 1 {
        '1'
    } else if d == 2 {
        '2'
    } else if d == 3 {
        '3'
    } else if d == 4 {
        '4'
    } else if d == 5 {
        '5'
    } else if d == 6 {
        '6'
    } else if d == 7 {
        '7'
    } else if d == 8 {
        '8'
    } else {
        '9'
    }
}

/// The decimal digits of a number, most significant first, without leading zeros.
pub open spec fn decimal_digits(n: nat) -> Seq<char>
    decreases n,
{
    if n < 10 {
        seq![digit_char(n)]
    } else {
        decimal_digits(n / 10).push(digit_char(n % 10))
    }
}

/// One decimal digit as text.
fn digit_text(d: u64) -> (res: &'static str)
    requires
        d < 10,
    ensures
        res@ == seq![digit_char(d as nat)],
{
    proof {
        reveal_strlit("0");
        reveal_strlit("1");
        reveal_strlit("2");
        reveal_strlit("3");
        reveal_strlit("4");
        reveal_strlit("5");
        reveal_strlit("6");
        reveal_strlit("7");
        reveal_strlit("8");
        reveal_strlit("9");
    }
    let res = if d == 0 {
        "0"
    } else if d == 1 {
        "1"
    } else if d == 2 {
        "2"
    } else if d == 3 {
        "3"
    } else if d == 4 {
        "4"
    } else if d == 5 {
        "5"
    } else if d == 6 {
        "6"
    } else if d == 7 {
        "7"
    } else if d == 8 {
        "8"
    } else {
        "9"
    };
    assert(res@ =~= seq![digit_char(d as nat)]);
    res
}

/// Renders a number in decimal.
pub fn decimal(n: u64) -> (res: String)
    ensures
        res@ == decimal_digits(n as nat),
    decreases n,
{
    if n < 10 {
        String::from_str(digit_text(n))
    } else {
        let mut res = decimal(n / 10);
        res.append(digit_text(n % 10));
        assert(res@ =~= decimal_digits(n as nat));
        res
    }
}

} // verus!

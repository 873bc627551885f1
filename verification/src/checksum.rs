//! The checksum of a telegram: CRC-16/ARC over it, against the four hex
//! digits that follow its end marker.

use vstd::prelude::*;
use vstd::string::StrSliceExecFns;

verus! {

/// The CRC register after one more bit: shifted right by one, and combined
/// with the reflected polynomial `0xA001` where a one was shifted out.
pub open spec fn crc_shift(crc: u16) -> u16 {
    if crc & 1 == 1 {
        (crc >> 1) ^ 0xA001
    } else {
        crc >> 1
    }
}

/// The CRC register after two more bits.
pub open spec fn crc_shift2(crc: u16) -> u16 {
    crc_shift(crc_shift(crc))
}

/// The CRC register after four more bits.
pub open spec fn crc_shift4(crc: u16) -> u16 {
    crc_shift2(crc_shift2(crc))
}

/// The CRC register after eight more bits.
pub open spec fn crc_shift8(crc: u16) -> u16 {
    crc_shift4(crc_shift4(crc))
}

/// The CRC register after one more byte: the byte is combined into the low
/// half, then eight bits are shifted out.
pub open spec fn crc_byte(crc: u16, b: u8) -> u16 {
    crc_shift8(crc ^ (b as u16))
}

/// CRC-16/ARC of `bytes`: polynomial `0x8005`, initial value 0, input and
/// output reflected, no final xor.
pub open spec fn crc16_arc(bytes: Seq<u8>) -> u16
    decreases bytes.len(),
{
    if bytes.len() == 0 {
        0
    } else {
        crc_byte(crc16_arc(bytes.drop_last()), bytes.last())
    }
}

/// Calls `crc16::State::<crc16::ARC>::calculate`. The crate documents ARC as
/// the CRC with polynomial `0x8005`, initial value 0, reflected input and
/// output and no final xor, with check value `0xBB3D`; the contract claims
/// that the call returns that CRC of `bytes`, as [`crc16_arc`] defines it bit
/// by bit.
#[verifier::external_body]
fn crc16_of(bytes: &[u8]) -> (r: u16)
    ensures
        r == crc16_arc(bytes@),
{
    crc16::State::<crc16::ARC>::calculate(bytes)
}

/// The CRC register after one more bit.
fn shift_once(crc: u16) -> (r: u16)
    ensures
        r == crc_shift(crc),
{
    if crc & 1 == 1 {
        (crc >> 1) ^ 0xA001
    } else {
        crc >> 1
    }
}

/// CRC-16/ARC of `bytes`, computed bit by bit as it is defined. The framer
/// itself uses the table-driven computation of the `crc16` crate.
pub fn crc16_arc_bitwise(bytes: &[u8]) -> (r: u16)
    ensures
        r == crc16_arc(bytes@),
{
    let mut crc: u16 = 0;
    let mut i: usize = 0;
    proof {
        assert(bytes@.take(0) =~= Seq::<u8>::empty());
    }
    while i < bytes.len()
        invariant
            i <= bytes@.len(),
            crc == crc16_arc(bytes@.take(i as int)),
        decreases bytes@.len() - i,
    {
        proof {
            assert(bytes@.take(i as int + 1).drop_last() =~= bytes@.take(i as int));
        }
        let mut x = crc ^ (bytes[i] as u16);
        x = shift_once(shift_once(x));
        x = shift_once(shift_once(x));
        x = shift_once(shift_once(x));
        x = shift_once(shift_once(x));
        crc = x;
        i = i + 1;
    }
    proof {
        assert(bytes@.take(i as int) =~= bytes@);
    }
    crc
}

/// Whether the CRC-16/ARC of `frame` is `expected`.
pub fn checksum_matches(frame: &[u8], expected: u16) -> (r: bool)
    ensures
        r == (crc16_arc(frame@) == expected),
{
    crc16_of(frame) == expected
}

/// The value of the hex digit `c`, in either case.
pub open spec fn hex_value(c: char) -> Option<int> {
    if '0' as int <= c as int <= '9' as int {
        Some(c as int - '0' as int)
    } else if 'a' as int <= c as int <= 'f' as int {
        Some(c as int - 'a' as int + 10)
    } else if 'A' as int <= c as int <= 'F' as int {
        Some(c as int - 'A' as int + 10)
    } else {
        None
    }
}

/// The checksum that the end line `line` of a telegram states: the number
/// that the four hex digits behind the `!` write. `None` where fewer than
/// four characters follow the `!` or one of the four is no hex digit.
pub open spec fn stated_checksum(line: Seq<char>) -> Option<u16> {
    if line.len() >= 5 && line[0] == '!' && hex_value(line[1]) is Some && hex_value(line[2]) is Some
        && hex_value(line[3]) is Some && hex_value(line[4]) is Some {
        Some(
            (((hex_value(line[1])->0 * 16 + hex_value(line[2])->0) * 16 + hex_value(line[3])->0)
                * 16 + hex_value(line[4])->0) as u16,
        )
    } else {
        None
    }
}

/// The value of the hex digit `c`, in either case.
fn hex_digit(c: char) -> (r: Option<u16>)
    ensures
        match hex_value(c) {
            Some(v) => r == Some(v as u16) && v < 16,
            None => r is None,
        },
{
    let u = c as u32;
    if 48 <= u && u <= 57 {
        Some((u - 48) as u16)
    } else if 97 <= u && u <= 102 {
        Some((u - 87) as u16)
    } else if 65 <= u && u <= 70 {
        Some((u - 55) as u16)
    } else {
        None
    }
}

/// Reads the checksum that the end line of a telegram states.
pub fn parse_checksum(line: &str) -> (r: Option<u16>)
    ensures
        r == stated_checksum(line@),
{
    let n = line.unicode_len();
    if n < 5 || line.get_char(0) != '!' {
        return None;
    }
    let a = hex_digit(line.get_char(1));
    let b = hex_digit(line.get_char(2));
    let c = hex_digit(line.get_char(3));
    let d = hex_digit(line.get_char(4));
    match (a, b, c, d) {
        (Some(a), Some(b), Some(c), Some(d)) => Some(((a * 16 + b) * 16 + c) * 16 + d),
        _ => None,
    }
}

/// Two registers that differ still differ after one more bit.
proof fn lemma_shift_injective(a: u16, b: u16)
    requires
        a != b,
    ensures
        crc_shift(a) != crc_shift(b),
{
    assert(a != b ==> (if a & 1 == 1 {
        (a >> 1) ^ 0xA001u16
    } else {
        a >> 1
    }) != (if b & 1 == 1 {
        (b >> 1) ^ 0xA001u16
    } else {
        b >> 1
    })) by (bit_vector);
}

/// Two registers that differ still differ after eight more bits.
proof fn lemma_shift8_injective(a: u16, b: u16)
    requires
        a != b,
    ensures
        crc_shift8(a) != crc_shift8(b),
{
    lemma_shift_injective(a, b);
    lemma_shift_injective(crc_shift(a), crc_shift(b));
    lemma_shift_injective(crc_shift2(a), crc_shift2(b));
    lemma_shift_injective(crc_shift(crc_shift2(a)), crc_shift(crc_shift2(b)));
    let a4 = crc_shift4(a);
    let b4 = crc_shift4(b);
    lemma_shift_injective(a4, b4);
    lemma_shift_injective(crc_shift(a4), crc_shift(b4));
    lemma_shift_injective(crc_shift2(a4), crc_shift2(b4));
    lemma_shift_injective(crc_shift(crc_shift2(a4)), crc_shift(crc_shift2(b4)));
}

/// One more byte keeps two registers apart, and two different bytes part one
/// register.
proof fn lemma_byte_injective(c1: u16, x1: u8, c2: u16, x2: u8)
    requires
        (c1 != c2 && x1 == x2) || (c1 == c2 && x1 != x2),
    ensures
        crc_byte(c1, x1) != crc_byte(c2, x2),
{
    let w1 = x1 as u16;
    let w2 = x2 as u16;
    assert((c1 != c2 && w1 == w2) || (c1 == c2 && w1 != w2) ==> (c1 ^ w1) != (c2 ^ w2))
        by (bit_vector);
    lemma_shift8_injective(c1 ^ w1, c2 ^ w2);
}

/// Two messages of one length that differ in exactly one byte have
/// different checksums.
pub proof fn lemma_one_byte_changes_crc(a: Seq<u8>, b: Seq<u8>, i: int)
    requires
        a.len() == b.len(),
        0 <= i < a.len(),
        a[i] != b[i],
        forall|j: int| 0 <= j < a.len() && j != i ==> a[j] == b[j],
    ensures
        crc16_arc(a) != crc16_arc(b),
    decreases a.len(),
{
    let last = a.len() - 1;
    if i == last {
        assert(a.drop_last() =~= b.drop_last());
        lemma_byte_injective(crc16_arc(a.drop_last()), a[last], crc16_arc(b.drop_last()), b[last]);
    } else {
        lemma_one_byte_changes_crc(a.drop_last(), b.drop_last(), i);
        lemma_byte_injective(crc16_arc(a.drop_last()), a[last], crc16_arc(b.drop_last()), b[last]);
    }
}

/// The byte `x` with its bit number `bit` turned over.
pub open spec fn flip_bit(x: u8, bit: u8) -> u8 {
    x ^ (1u8 << bit)
}

/// A telegram whose checksum is `expected` no longer has that checksum once
/// any single bit of it is turned over.
pub proof fn lemma_bit_flip_rejected(frame: Seq<u8>, i: int, bit: u8, expected: u16)
    requires
        0 <= i < frame.len(),
        bit < 8,
        crc16_arc(frame) == expected,
    ensures
        crc16_arc(frame.update(i, flip_bit(frame[i], bit))) != expected,
{
    let x = frame[i];
    assert(bit < 8 ==> (x ^ (1u8 << bit)) != x) by (bit_vector);
    lemma_one_byte_changes_crc(frame, frame.update(i, flip_bit(x, bit)), i);
}

} // verus!

//! Decoding of modalias strings, `source:vVVVVpPPPPdDDDD`, into the source and
//! the vendor, product and device numbers.

use vstd::prelude::*;
use vstd::string::StrSliceExecFns;
use rustc_serialize::hex::{FromHex, FromHexError};
use crate::error::BluetoothError;

verus! {

/// `rustc_serialize::hex::FromHexError`, the failure of hex decoding. Nothing
/// is claimed of it: it is carried from the decoder to [`number_of`] and
/// dropped there.
#[verifier::external_type_specification]
#[verifier::external_body]
pub struct ExFromHexError(rustc_serialize::hex::FromHexError);

/// Is `c` one of the four characters that hex decoding skips?
pub open spec fn is_hex_space(c: char) -> bool {
    c == ' ' || c == '\r' || c == '\n' || c == '\t'
}

/// Is `c` a hexadecimal digit, of either case?
pub open spec fn is_hex_digit(c: char) -> bool {
    ('0' <= c && c <= '9') || ('a' <= c && c <= 'f') || ('A' <= c && c <= 'F')
}

/// The number that a hexadecimal digit stands for.
pub open spec fn hex_digit_value(c: char) -> int
    recommends
        is_hex_digit(c),
{
    if '0' <= c && c <= '9' {
        c as int - '0' as int
    } else if 'a' <= c && c <= 'f' {
        c as int - 'a' as int + 10
    } else {
        c as int - 'A' as int + 10
    }
}

/// The characters of `s` that hex decoding does not skip.
pub open spec fn hex_digits_of(s: Seq<char>) -> Seq<char> {
    s.filter(|c: char| !is_hex_space(c))
}

/// Can `s` be decoded: is it, spaces aside, an even number of hex digits?
pub open spec fn hex_decodes(s: Seq<char>) -> bool {
    let d = hex_digits_of(s);
    d.len() % 2 == 0 && forall|i: int| 0 <= i < d.len() ==> is_hex_digit(#[trigger] d[i])
}

/// The bytes that `s` decodes to: one for each pair of digits, the first
/// digit of a pair being the high half of the byte.
pub open spec fn hex_decoded(s: Seq<char>) -> Seq<u8>
    recommends
        hex_decodes(s),
{
    let d = hex_digits_of(s);
    Seq::new(
        d.len() / 2,
        |i: int| (hex_digit_value(d[2 * i]) * 16 + hex_digit_value(d[2 * i + 1])) as u8,
    )
}

/// Calls `rustc_serialize::hex::FromHex::from_hex` on the text.
///
/// Believed of it, not proved: it walks the text byte by byte, skips space,
/// carriage return, line feed and tab, fails on the first other byte that is
/// no hexadecimal digit, and fails at the end if the number of digits is odd;
/// otherwise it returns one byte for each pair of digits.
#[verifier::external_body]
fn decode_hex(text: &str) -> (r: Result<Vec<u8>, FromHexError>)
    ensures
        r is Ok <==> hex_decodes(text@),
        r matches Ok(bytes) ==> bytes@ == hex_decoded(text@),
{
    text.from_hex()
}

/// The position of the first `:` of `s` at or after `from`, or the length of
/// `s` if there is none.
pub open spec fn segment_end(s: Seq<char>, from: int) -> int
    decreases s.len() - from,
{
    if from < 0 || from >= s.len() {
        s.len() as int
    } else if s[from] == ':' {
        from
    } else {
        segment_end(s, from + 1)
    }
}

/// The source of a modalias: what stands before its first `:`.
pub open spec fn modalias_source(s: Seq<char>) -> Seq<char> {
    s.subrange(0, segment_end(s, 0))
}

/// The ids of a modalias: what stands between its first `:` and its second,
/// or its end.
pub open spec fn modalias_ids(s: Seq<char>) -> Seq<char>
    recommends
        segment_end(s, 0) < s.len(),
{
    s.subrange(segment_end(s, 0) + 1, segment_end(s, segment_end(s, 0) + 1))
}

/// The four characters of `ids` from position `at` on.
pub open spec fn hex_field(ids: Seq<char>, at: int) -> Seq<char>
    recommends
        0 <= at,
        at + 4 <= ids.len(),
{
    ids.subrange(at, at + 4)
}

/// Is `field` four hexadecimal digits?
pub open spec fn is_hex_field(field: Seq<char>) -> bool {
    field.len() == 4 && forall|i: int| 0 <= i < 4 ==> is_hex_digit(#[trigger] field[i])
}

/// The number that four hexadecimal digits stand for, the first digit
/// weighing most.
pub open spec fn hex_field_number(field: Seq<char>) -> int
    recommends
        is_hex_field(field),
{
    (hex_digit_value(field[0]) * 16 + hex_digit_value(field[1])) * 256 + hex_digit_value(
        field[2],
    ) * 16 + hex_digit_value(field[3])
}

/// Has `s` the shape of a modalias? It holds a `:`; its ids are at least
/// fifteen characters long; and the characters of the ids at positions 1 to 4,
/// 6 to 9 and 11 to 14 are hexadecimal digits. The characters at positions 0,
/// 5 and 10 are not looked at, nor is anything after position 14.
pub open spec fn modalias_well_formed(s: Seq<char>) -> bool {
    &&& segment_end(s, 0) < s.len()
    &&& modalias_ids(s).len() >= 15
    &&& is_hex_field(hex_field(modalias_ids(s), 1))
    &&& is_hex_field(hex_field(modalias_ids(s), 6))
    &&& is_hex_field(hex_field(modalias_ids(s), 11))
}

/// The vendor number of a modalias.
pub open spec fn modalias_vendor(s: Seq<char>) -> int
    recommends
        modalias_well_formed(s),
{
    hex_field_number(hex_field(modalias_ids(s), 1))
}

/// The product number of a modalias.
pub open spec fn modalias_product(s: Seq<char>) -> int
    recommends
        modalias_well_formed(s),
{
    hex_field_number(hex_field(modalias_ids(s), 6))
}

/// The device number of a modalias.
pub open spec fn modalias_device(s: Seq<char>) -> int
    recommends
        modalias_well_formed(s),
{
    hex_field_number(hex_field(modalias_ids(s), 11))
}

/// Four characters decode to two bytes exactly when all four are hexadecimal
/// digits, and the two bytes then spell the number of the field.
pub proof fn lemma_hex_field(field: Seq<char>)
    requires
        field.len() == 4,
    ensures
        is_hex_field(field) <==> hex_decodes(field) && hex_decoded(field).len() >= 2,
        is_hex_field(field) ==> hex_decoded(field).len() == 2 && hex_decoded(field)[0] * 256
            + hex_decoded(field)[1] == hex_field_number(field),
        is_hex_field(field) ==> 0 <= hex_field_number(field) < 0x1_0000,
{
    broadcast use Seq::lemma_filter_push;

    let keep = |c: char| !is_hex_space(c);
    let e = Seq::<char>::empty();
    let s1 = e.push(field[0]);
    let s2 = s1.push(field[1]);
    let s3 = s2.push(field[2]);
    let s4 = s3.push(field[3]);
    assert(s4 =~= field);
    assert(e.filter(keep) =~= e) by {
        reveal_with_fuel(Seq::filter, 1);
    }
    let d = hex_digits_of(field);
    assert(d == s4.filter(keep));
    assert(
        s1.filter(
            keep,
        ) == if keep(field[0]) { e.filter(keep).push(field[0]) } else { e.filter(keep) }
    );
    assert(
        s2.filter(
            keep,
        ) == if keep(field[1]) { s1.filter(keep).push(field[1]) } else { s1.filter(keep) }
    );
    assert(
        s3.filter(
            keep,
        ) == if keep(field[2]) { s2.filter(keep).push(field[2]) } else { s2.filter(keep) }
    );
    assert(
        s4.filter(
            keep,
        ) == if keep(field[3]) { s3.filter(keep).push(field[3]) } else { s3.filter(keep) }
    );
    if is_hex_field(field) {
        assert(is_hex_digit(field[0]) && is_hex_digit(field[1]) && is_hex_digit(field[2])
            && is_hex_digit(field[3]));
        assert(d =~= field);
        assert(hex_decoded(field).len() == 2);
    } else {
        if hex_decodes(field) && hex_decoded(field).len() >= 2 {
            assert(d.len() >= 4);
            assert(d =~= field);
            assert(forall|i: int| 0 <= i < 4 ==> is_hex_digit(#[trigger] d[i]));
            assert(false);
        }
    }
}

/// The number that the bytes of a decoded field spell: the first byte times
/// 256 plus the second. Fails unless decoding gave two bytes at least.
pub fn number_of(decoded: Result<Vec<u8>, FromHexError>) -> (r: Result<u32, BluetoothError>)
    ensures
        r is Ok <==> (decoded matches Ok(bytes) && bytes@.len() >= 2),
        r matches Ok(n) ==> (decoded matches Ok(bytes) && n == bytes@[0] * 256 + bytes@[1]),
        r matches Err(e) ==> e == BluetoothError::MalformedModalias,
{
    match decoded {
        Ok(bytes) => {
            if bytes.len() >= 2 {
                let high: u32 = bytes[0] as u32;
                let low: u32 = bytes[1] as u32;
                Ok(high * 256 + low)
            } else {
                Err(BluetoothError::MalformedModalias)
            }
        },
        Err(_) => Err(BluetoothError::MalformedModalias),
    }
}

/// The number of the hex field of `ids` that starts at position `at`.
fn field_number(ids: &str, at: usize) -> (r: Result<u32, BluetoothError>)
    requires
        at <= 11,
        at + 4 <= ids@.len(),
    ensures
        r is Ok <==> is_hex_field(hex_field(ids@, at as int)),
        r matches Ok(n) ==> n == hex_field_number(hex_field(ids@, at as int)),
        r matches Err(e) ==> e == BluetoothError::MalformedModalias,
{
    let field = ids.substring_char(at, at + 4);
    proof {
        lemma_hex_field(field@);
    }
    number_of(decode_hex(field))
}

/// Walks the text once and finds where its first two segments end: the
/// position of its first `:`, the position of the `:` after that, and the
/// number of its characters, which stands for a `:` that is not there.
fn segment_ends(text: &str) -> (ends: (usize, usize, usize))
    ensures
        ends.0 == segment_end(text@, 0),
        ends.1 == segment_end(text@, ends.0 + 1),
        ends.2 == text@.len(),
        ends.0 <= ends.2,
        ends.0 < ends.2 ==> ends.0 < ends.1 <= ends.2,
{
    let len: usize = text.unicode_len();
    let mut count: usize = 0;
    let mut first: Option<usize> = None;
    let mut second: Option<usize> = None;
    for c in it: text.chars()
        invariant
            len == text@.len(),
            it.seq() == text@,
            count == it.index(),
            count <= len,
            first is None ==> second is None && segment_end(text@, 0) == segment_end(
                text@,
                count as int,
            ),
            first matches Some(p) ==> p < count && p == segment_end(text@, 0),
            first matches Some(p) ==> (second is None ==> segment_end(text@, p + 1)
                == segment_end(text@, count as int)),
            first matches Some(p) ==> (second matches Some(q) ==> p < q < count && q
                == segment_end(text@, p + 1)),
    {
        if c == ':' {
            if first.is_none() {
                first = Some(count);
            } else if second.is_none() {
                second = Some(count);
            }
        }
        count = count + 1;
    }
    match (first, second) {
        (Some(p), Some(q)) => (p, q, len),
        (Some(p), None) => (p, len, len),
        _ => (len, len, len),
    }
}

/// Splits a modalias into its source and its vendor, product and device
/// numbers. Fails, and never panics, on a string that has not the shape.
pub fn parse_modalias(modalias: &str) -> (r: Result<(String, u32, u32, u32), BluetoothError>)
    ensures
        r is Ok <==> modalias_well_formed(modalias@),
        r matches Ok(parts) ==> parts.0@ == modalias_source(modalias@) && parts.1
            == modalias_vendor(modalias@) && parts.2 == modalias_product(modalias@) && parts.3
            == modalias_device(modalias@),
        r matches Err(e) ==> e == BluetoothError::MalformedModalias,
{
    let (colon, end, len) = segment_ends(modalias);
    if colon >= len {
        return Err(BluetoothError::MalformedModalias);
    }
    let start: usize = colon + 1;
    if end - start < 15 {
        return Err(BluetoothError::MalformedModalias);
    }
    let ids = modalias.substring_char(start, end);
    let vendor = field_number(ids, 1);
    let product = field_number(ids, 6);
    let device = field_number(ids, 11);
    match (vendor, product, device) {
        (Ok(v), Ok(p), Ok(d)) => {
            let source = modalias.substring_char(0, colon).to_owned();
            Ok((source, v, p, d))
        },
        _ => Err(BluetoothError::MalformedModalias),
    }
}

} // verus!

//! Fragments held in memory: the values that are stored, the encrypted
//! store, and the typed provider over it.

pub mod secure_key_value_store;
pub mod secure_memory_provider;
pub mod wire;

use crate::actors::encryption::AesError;
use vstd::prelude::*;
use wire::{
    at, bit_open, buffer_open, decode_payloads, encode_byte, encode_byte_array,
    encode_bytes_from, encode_payload, encode_payloads, encode_payloads_from, is_digit,
    lemma_decode_encode, lemma_encode_decode, parse_byte, parse_byte_array, parse_bytes_rest,
    parse_payload, parse_payloads_rest, Payload,
};

verus! {

/// A value that a fragment holds: a buffer of bytes, or one byte.
#[derive(Clone, Debug, PartialEq, Eq)]
pub enum Input {
    Buffer(Vec<u8>),
    Bit(u8),
}

impl View for Input {
    type V = Payload;

    open spec fn view(&self) -> Payload {
        match self {
            Input::Buffer(bytes) => Payload::Buffer(bytes@),
            Input::Bit(b) => Payload::Bit(*b),
        }
    }
}

/// The values of a list as contracts see them.
pub open spec fn payloads(items: Seq<Input>) -> Seq<Payload> {
    Seq::new(items.len(), |i: int| items[i]@)
}

/// Appends a number in decimal digits.
fn write_byte(out: &mut Vec<u8>, b: u8)
    ensures
        final(out)@ == old(out)@ + encode_byte(b),
{
    if b < 10 {
        out.push(48 + b);
    } else if b < 100 {
        out.push(48 + b / 10);
        out.push(48 + b % 10);
    } else {
        out.push(48 + b / 100);
        out.push(48 + (b / 10) % 10);
        out.push(48 + b % 10);
    }
    assert(out@ =~= old(out)@ + encode_byte(b));
}

/// Appends an array of numbers.
fn write_byte_array(out: &mut Vec<u8>, bytes: &Vec<u8>)
    ensures
        final(out)@ == old(out)@ + encode_byte_array(bytes@),
{
    out.push(91);
    if bytes.len() == 0 {
        out.push(93);
        assert(out@ =~= old(out)@ + encode_byte_array(bytes@));
        return ;
    }
    write_byte(out, bytes[0]);
    let mut i: usize = 1;
    assert(out@ + encode_bytes_from(bytes@, 1) =~= old(out)@ + encode_byte_array(bytes@));
    while i < bytes.len()
        invariant
            1 <= i <= bytes.len(),
            out@ + encode_bytes_from(bytes@, i as int) == old(out)@ + encode_byte_array(bytes@),
        decreases bytes.len() - i,
    {
        let ghost before = out@;
        out.push(44);
        write_byte(out, bytes[i]);
        assert(out@ + encode_bytes_from(bytes@, i + 1) =~= before + encode_bytes_from(
            bytes@,
            i as int,
        ));
        i = i + 1;
    }
    let ghost before = out@;
    out.push(93);
    assert(out@ =~= before + encode_bytes_from(bytes@, i as int));
}

/// Appends one value under the name of its kind.
fn write_payload(out: &mut Vec<u8>, item: &Input)
    ensures
        final(out)@ == old(out)@ + encode_payload(item@),
{
    match item {
        Input::Buffer(bytes) => {
            out.push(123);
            out.push(34);
            out.push(66);
            out.push(117);
            out.push(102);
            out.push(102);
            out.push(101);
            out.push(114);
            out.push(34);
            out.push(58);
            assert(out@ =~= old(out)@ + buffer_open());
            write_byte_array(out, bytes);
            let ghost before = out@;
            out.push(125);
            assert(out@ =~= old(out)@ + encode_payload(item@));
        },
        Input::Bit(b) => {
            out.push(123);
            out.push(34);
            out.push(66);
            out.push(105);
            out.push(116);
            out.push(34);
            out.push(58);
            assert(out@ =~= old(out)@ + bit_open());
            write_byte(out, *b);
            out.push(125);
            assert(out@ =~= old(out)@ + encode_payload(item@));
        },
    }
}

/// Whether a byte is a decimal digit.
fn digit(b: u8) -> (d: bool)
    ensures
        d == is_digit(b),
{
    48 <= b && b <= 57
}

/// Reads the number at `pos`.
fn read_byte(data: &[u8], pos: usize) -> (r: Option<(u8, usize)>)
    ensures
        match r {
            Some((b, next)) => parse_byte(data@, pos as int) == Some((b, next as int)) && pos
                < next <= data@.len(),
            None => parse_byte(data@, pos as int) is None,
        },
{
    if pos >= data.len() || !digit(data[pos]) {
        return None;
    }
    let a: u16 = (data[pos] - 48) as u16;
    if a != 0 && data.len() - pos > 1 && digit(data[pos + 1]) {
        let b: u16 = (data[pos + 1] - 48) as u16;
        if data.len() - pos > 2 && digit(data[pos + 2]) {
            let c: u16 = (data[pos + 2] - 48) as u16;
            let value: u16 = a * 100 + b * 10 + c;
            if value > 255 {
                None
            } else {
                Some((value as u8, pos + 3))
            }
        } else {
            Some(((a * 10 + b) as u8, pos + 2))
        }
    } else {
        Some((a as u8, pos + 1))
    }
}

/// Reads the array of numbers at `pos`.
fn read_byte_array(data: &[u8], pos: usize) -> (r: Option<(Vec<u8>, usize)>)
    ensures
        match r {
            Some((bytes, next)) => parse_byte_array(data@, pos as int) == Some(
                (bytes@, next as int),
            ) && pos < next <= data@.len(),
            None => parse_byte_array(data@, pos as int) is None,
        },
{
    if pos >= data.len() || data[pos] != 91 {
        return None;
    }
    if data.len() - pos > 1 && data[pos + 1] == 93 {
        return Some((Vec::new(), pos + 2));
    }
    let (first, start) = match read_byte(data, pos + 1) {
        Some(found) => found,
        None => {
            return None;
        },
    };
    let mut bytes: Vec<u8> = Vec::new();
    bytes.push(first);
    assert(bytes@ =~= seq![first]);
    let mut at_pos: usize = start;
    loop
        invariant
            pos < at_pos <= data@.len(),
            parse_bytes_rest(data@, at_pos as int, bytes@) == parse_byte_array(
                data@,
                pos as int,
            ),
        decreases data@.len() - at_pos,
    {
        if at_pos >= data.len() {
            return None;
        }
        if data[at_pos] == 93 {
            return Some((bytes, at_pos + 1));
        }
        if data[at_pos] != 44 {
            return None;
        }
        match read_byte(data, at_pos + 1) {
            Some((b, next)) => {
                bytes.push(b);
                at_pos = next;
            },
            None => {
                return None;
            },
        }
    }
}

/// Whether `{"Buffer":` stands at `pos`.
fn starts_buffer(data: &[u8], pos: usize) -> (found: bool)
    ensures
        found == at(data@, pos as int, buffer_open()),
        found ==> pos + 10 <= data@.len(),
{
    if data.len() < 10 || pos > data.len() - 10 {
        return false;
    }
    let found = data[pos] == 123 && data[pos + 1] == 34 && data[pos + 2] == 66 && data[pos + 3]
        == 117 && data[pos + 4] == 102 && data[pos + 5] == 102 && data[pos + 6] == 101
        && data[pos + 7] == 114 && data[pos + 8] == 34 && data[pos + 9] == 58;
    proof {
        let part = data@.subrange(pos as int, pos + 10);
        if found {
            assert(part =~= buffer_open());
        } else {
            assert(part[0] == data@[pos as int]);
            assert(part[1] == data@[pos + 1]);
            assert(part[2] == data@[pos + 2]);
            assert(part[3] == data@[pos + 3]);
            assert(part[4] == data@[pos + 4]);
            assert(part[5] == data@[pos + 5]);
            assert(part[6] == data@[pos + 6]);
            assert(part[7] == data@[pos + 7]);
            assert(part[8] == data@[pos + 8]);
            assert(part[9] == data@[pos + 9]);
        }
    }
    found
}

/// Whether `{"Bit":` stands at `pos`.
fn starts_bit(data: &[u8], pos: usize) -> (found: bool)
    ensures
        found == at(data@, pos as int, bit_open()),
        found ==> pos + 7 <= data@.len(),
{
    if data.len() < 7 || pos > data.len() - 7 {
        return false;
    }
    let found = data[pos] == 123 && data[pos + 1] == 34 && data[pos + 2] == 66 && data[pos + 3]
        == 105 && data[pos + 4] == 116 && data[pos + 5] == 34 && data[pos + 6] == 58;
    proof {
        let part = data@.subrange(pos as int, pos + 7);
        if found {
            assert(part =~= bit_open());
        } else {
            assert(part[0] == data@[pos as int]);
            assert(part[1] == data@[pos + 1]);
            assert(part[2] == data@[pos + 2]);
            assert(part[3] == data@[pos + 3]);
            assert(part[4] == data@[pos + 4]);
            assert(part[5] == data@[pos + 5]);
            assert(part[6] == data@[pos + 6]);
        }
    }
    found
}

/// Reads the value at `pos`.
fn read_payload(data: &[u8], pos: usize) -> (r: Option<(Input, usize)>)
    ensures
        match r {
            Some((item, next)) => parse_payload(data@, pos as int) == Some(
                (item@, next as int),
            ) && pos < next <= data@.len(),
            None => parse_payload(data@, pos as int) is None,
        },
{
    let length = data.len();
    if starts_buffer(data, pos) {
        assert(pos + 10 <= length);
        match read_byte_array(data, pos + 10) {
            Some((bytes, next)) => {
                if next < data.len() && data[next] == 125 {
                    Some((Input::Buffer(bytes), next + 1))
                } else {
                    None
                }
            },
            None => None,
        }
    } else if starts_bit(data, pos) {
        assert(pos + 7 <= length);
        match read_byte(data, pos + 7) {
            Some((b, next)) => {
                if next < data.len() && data[next] == 125 {
                    Some((Input::Bit(b), next + 1))
                } else {
                    None
                }
            },
            None => None,
        }
    } else {
        None
    }
}

/// Reads a whole list of values, which must fill `data`.
fn read_payloads(data: &[u8]) -> (r: Option<Vec<Input>>)
    ensures
        match r {
            Some(items) => decode_payloads(data@) == Some(payloads(items@)),
            None => decode_payloads(data@) is None,
        },
{
    if data.len() == 0 || data[0] != 91 {
        return None;
    }
    let mut items: Vec<Input> = Vec::new();
    if data.len() > 1 && data[1] == 93 {
        assert(payloads(items@) =~= Seq::<Payload>::empty());
        if data.len() == 2 {
            return Some(items);
        } else {
            return None;
        }
    }
    let (first, start) = match read_payload(data, 1) {
        Some(found) => found,
        None => {
            return None;
        },
    };
    let ghost first_view = first@;
    items.push(first);
    assert(payloads(items@) =~= seq![first_view]);
    let mut pos: usize = start;
    loop
        invariant
            1 < pos <= data@.len(),
            data@.len() > 0,
            data@[0] == 91u8,
            !(1 < data@.len() && data@[1] == 93u8),
            parse_payload(data@, 1) == Some((first_view, start as int)),
            parse_payloads_rest(data@, pos as int, payloads(items@)) == parse_payloads_rest(
                data@,
                start as int,
                seq![first_view],
            ),
        decreases data@.len() - pos,
    {
        if pos >= data.len() {
            return None;
        }
        if data[pos] == 93 {
            if pos + 1 == data.len() {
                return Some(items);
            } else {
                return None;
            }
        }
        if data[pos] != 44 {
            return None;
        }
        match read_payload(data, pos + 1) {
            Some((item, next)) => {
                let ghost before = payloads(items@);
                let ghost item_view = item@;
                items.push(item);
                assert(payloads(items@) =~= before.push(item_view));
                pos = next;
            },
            None => {
                return None;
            },
        }
    }
}

impl Input {
    /// Writes a list of values as the bytes that are stored. Writing never
    /// fails.
    pub fn serialize(inputs: &[Input]) -> (r: Result<Vec<u8>, AesError>)
        ensures
            r matches Ok(bytes) && bytes@ == encode_payloads(payloads(inputs@)),
    {
        let ghost items = payloads(inputs@);
        let mut out: Vec<u8> = Vec::new();
        out.push(91);
        if inputs.len() == 0 {
            out.push(93);
            assert(out@ =~= encode_payloads(items));
            return Ok(out);
        }
        write_payload(&mut out, &inputs[0]);
        assert(out@ + encode_payloads_from(items, 1) =~= encode_payloads(items));
        let mut i: usize = 1;
        while i < inputs.len()
            invariant
                1 <= i <= inputs@.len(),
                items == payloads(inputs@),
                out@ + encode_payloads_from(items, i as int) == encode_payloads(items),
            decreases inputs@.len() - i,
        {
            let ghost before = out@;
            out.push(44);
            write_payload(&mut out, &inputs[i]);
            assert(out@ + encode_payloads_from(items, i + 1) =~= before + encode_payloads_from(
                items,
                i as int,
            ));
            i = i + 1;
        }
        let ghost before = out@;
        out.push(93);
        assert(out@ =~= before + encode_payloads_from(items, i as int));
        Ok(out)
    }

    /// Reads a list of values from stored bytes. The call succeeds exactly
    /// on the bytes that some list is written as by `serialize`, and gives
    /// that list.
    pub fn deserialize(data: &[u8]) -> (r: Result<Vec<Input>, AesError>)
        ensures
            match r {
                Ok(items) => {
                    &&& decode_payloads(data@) == Some(payloads(items@))
                    &&& data@ == encode_payloads(payloads(items@))
                },
                Err(e) => {
                    &&& e is DeserializeError
                    &&& decode_payloads(data@) is None
                    &&& forall|list: Seq<Payload>| #[trigger] encode_payloads(list) != data@
                },
            },
    {
        match read_payloads(data) {
            Some(items) => {
                proof {
                    lemma_encode_decode(data@);
                }
                Ok(items)
            },
            None => {
                proof {
                    assert forall|list: Seq<Payload>| #[trigger]
                        encode_payloads(list) != data@ by {
                        lemma_decode_encode(list);
                    }
                }
                Err(AesError::DeserializeError("not a list of stored values".to_string()))
            },
        }
    }
}

} // verus!
